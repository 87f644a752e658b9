//! Data forwarding between the serial port and the cloud: which serial text is
//! published, and what a cloud message is turned into for the serial device.
use vstd::prelude::*;
use crate::cloud::{
    bemfa_message, first_field, first_field_of, first_nonempty_field, first_nonempty_field_of,
    last_field, last_field_of, split_fields, str_starts_with, CloudManager,
};
use crate::text::{chars_contain, chars_of, contains_text, split_char, starts_with, string_of, trim, trim_chars};

verus! {

/// How the device on the serial port talks to the cloud.
#[derive(Clone, Copy, Debug, PartialEq, Eq, Structural)]
pub enum ConnectionMode {
    /// Raw data passes through unchanged.
    Direct,
    /// A firmware that takes `{"topic":..,"payload":{"data":..}}` JSON lines.
    Firmware,
    /// An AT-command firmware that takes `AT+SEND=..` lines.
    AT,
}

/// Forwarding settings.
pub struct DataflowManager {
    pub enabled: bool,
    pub connection_mode: ConnectionMode,
}

impl Default for DataflowManager {
    fn default() -> (res: Self)
        ensures
            !res.enabled,
            res.connection_mode == ConnectionMode::Direct,
    {
        DataflowManager { enabled: false, connection_mode: ConnectionMode::Direct }
    }
}

/// A control message of the WiFi module: starts with `{` and mentions both
/// `topic` and `payload`.
pub open spec fn is_control_message(message: Seq<char>) -> bool {
    &&& message.len() > 0
    &&& message[0] == '{'
    &&& contains_text(message, "topic"@)
    &&& contains_text(message, "payload"@)
}

/// The first non-empty `key` value of serial data in the `cmd=...&...` format.
pub open spec fn serial_field(data: Seq<char>, key: Seq<char>) -> Option<Seq<char>> {
    if starts_with(data, "cmd="@) {
        first_nonempty_field(split_char(data, '&'), key)
    } else {
        None
    }
}

/// The firmware JSON line for `topic` and `msg`.
pub open spec fn firmware_json(topic: Seq<char>, msg: Seq<char>) -> Seq<char> {
    "{\"topic\":\""@ + topic + "\",\"payload\":{\"data\":\""@ + msg + "\"}}"@
}

/// The AT command that sends `msg`.
pub open spec fn at_send(msg: Seq<char>) -> Seq<char> {
    "AT+SEND="@ + msg + "\r\n"@
}

/// What serial text is published to the cloud, if anything: forwarding must be on
/// and the cloud connected; the trimmed text must be non-empty, not a control
/// message of the WiFi module, in the `cmd=` format with a topic that is one of the
/// publish topics; then its `msg=` value is published, or the whole trimmed text
/// where it has none.
pub open spec fn serial_upload(
    enabled: bool,
    connected: bool,
    publish_topics: Seq<Seq<char>>,
    data: Seq<char>,
) -> Option<Seq<char>> {
    let text = trim(data);
    if !enabled || !connected || text.len() == 0 || is_control_message(text) {
        None
    } else {
        match serial_field(text, "topic="@) {
            Some(topic) => if publish_topics.contains(topic) {
                match serial_field(text, "msg="@) {
                    Some(msg) => Some(msg),
                    None => Some(text),
                }
            } else {
                None
            },
            None => None,
        }
    }
}

/// What a cloud message becomes on the serial port, if anything: with forwarding
/// on, the raw message in direct mode; the firmware JSON line of its topic and
/// message in firmware mode; and `AT+SEND=` of its message in AT mode, where a
/// `cmd=2&` line without a topic still gives the first `msg=` value.
pub open spec fn cloud_download(enabled: bool, mode: ConnectionMode, data: Seq<char>) -> Option<
    Seq<char>,
> {
    if !enabled {
        None
    } else {
        match mode {
            ConnectionMode::Direct => Some(data),
            ConnectionMode::Firmware => match bemfa_message(data) {
                Some((topic, msg)) => Some(firmware_json(topic, msg)),
                None => {
                    let parts = split_char(data, '&');
                    let topic = last_field(parts, "topic="@);
                    let msg = last_field(parts, "msg="@);
                    if starts_with(data, "cmd=2&"@) && topic.len() > 0 && msg.len() > 0 {
                        Some(firmware_json(topic, msg))
                    } else {
                        None
                    }
                },
            },
            ConnectionMode::AT => match bemfa_message(data) {
                Some((_, msg)) => Some(at_send(msg)),
                None => {
                    let msg = first_field(split_char(data, '&'), "msg="@);
                    if starts_with(data, "cmd=2&"@) && msg.len() > 0 {
                        Some(at_send(msg))
                    } else {
                        None
                    }
                },
            },
        }
    }
}

fn field_from_serial(data: &str, key: &str) -> (res: Option<String>)
    ensures
        match serial_field(data@, key@) {
            Some(v) => res matches Some(r) && r@ == v,
            None => res is None,
        },
{
    if str_starts_with(data, "cmd=") {
        let parts = split_fields(data);
        let k = chars_of(key);
        match first_nonempty_field_of(&parts, k.as_slice()) {
            Some(v) => Some(string_of(v.as_slice())),
            None => None,
        }
    } else {
        None
    }
}

fn firmware_json_string(topic: &str, msg: &str) -> (res: String)
    ensures
        res@ == firmware_json(topic@, msg@),
{
    let mut s = String::from_str("{\"topic\":\"");
    s.append(topic);
    s.append("\",\"payload\":{\"data\":\"");
    s.append(msg);
    s.append("\"}}");
    s
}

fn at_send_string(msg: &str) -> (res: String)
    ensures
        res@ == at_send(msg@),
{
    let mut s = String::from_str("AT+SEND=");
    s.append(msg);
    s.append("\r\n");
    s
}

impl DataflowManager {
    /// Settings as given.
    pub fn from_config(enabled: bool, connection_mode: ConnectionMode) -> (res: Self)
        ensures
            res.enabled == enabled,
            res.connection_mode == connection_mode,
    {
        DataflowManager { enabled, connection_mode }
    }

    /// Whether `message` is a control message of the WiFi module.
    pub fn is_wifi_module_control_message(&self, message: &str) -> (res: bool)
        ensures
            res == is_control_message(message@),
    {
        let m = chars_of(message);
        if m.len() == 0 || m[0] != '{' {
            return false;
        }
        let topic = chars_of("topic");
        let payload = chars_of("payload");
        chars_contain(m.as_slice(), topic.as_slice()) && chars_contain(
            m.as_slice(),
            payload.as_slice(),
        )
    }

    /// The data content of a message: the message itself.
    pub fn extract_actual_data(&self, message: &str) -> (res: String)
        ensures
            res@ == message@,
    {
        String::from_str(message)
    }

    /// The first non-empty `topic=` value of serial data in the `cmd=...&...` format.
    pub fn extract_topic_from_serial_data(&self, data: &str) -> (res: Option<String>)
        ensures
            match serial_field(data@, "topic="@) {
                Some(v) => res matches Some(r) && r@ == v,
                None => res is None,
            },
    {
        field_from_serial(data, "topic=")
    }

    /// The first non-empty `msg=` value of serial data in the `cmd=...&...` format.
    pub fn extract_msg_from_serial_data(&self, data: &str) -> (res: Option<String>)
        ensures
            match serial_field(data@, "msg="@) {
                Some(v) => res matches Some(r) && r@ == v,
                None => res is None,
            },
    {
        field_from_serial(data, "msg=")
    }

    /// The text that serial data uploads to the cloud, if any; the caller publishes it
    /// with the cloud's publish commands.
    pub fn process_serial_to_cloud(&self, data: &str, cloud_manager: &CloudManager) -> (res: Option<String>)
        ensures
            match serial_upload(
                self.enabled,
                cloud_manager.connected,
                cloud_manager.publish_view(),
                data@,
            ) {
                Some(v) => res matches Some(r) && r@ == v,
                None => res is None,
            },
    {
        if !self.enabled || !cloud_manager.connected {
            return None;
        }
        let chars = chars_of(data);
        let trimmed = trim_chars(chars.as_slice());
        if trimmed.len() == 0 {
            return None;
        }
        let upload_text = string_of(trimmed.as_slice());
        if self.is_wifi_module_control_message(upload_text.as_str()) {
            return None;
        }
        match self.extract_topic_from_serial_data(upload_text.as_str()) {
            Some(topic) => {
                if crate::text::strings_contain(&cloud_manager.publish_topics, topic.as_str()) {
                    proof {
                        let views = cloud_manager.publish_view();
                        let i = choose|i: int|
                            0 <= i < cloud_manager.publish_topics@.len() && (
                            #[trigger] cloud_manager.publish_topics@[i])@ == topic@;
                        assert(views[i] == topic@);
                    }
                    match self.extract_msg_from_serial_data(upload_text.as_str()) {
                        Some(msg) => Some(msg),
                        None => Some(upload_text),
                    }
                } else {
                    proof {
                        let views = cloud_manager.publish_view();
                        if views.contains(topic@) {
                            let i = choose|i: int| 0 <= i < views.len() && views[i] == topic@;
                            assert(cloud_manager.publish_topics@[i]@ == topic@);
                        }
                    }
                    None
                }
            },
            None => None,
        }
    }

    /// The line that a cloud message sends to the serial port, if any; the caller
    /// writes it to the port.
    pub fn process_cloud_to_serial(&self, data: &str, cloud_manager: &CloudManager) -> (res: Option<String>)
        ensures
            match cloud_download(self.enabled, self.connection_mode, data@) {
                Some(v) => res matches Some(r) && r@ == v,
                None => res is None,
            },
    {
        if !self.enabled {
            return None;
        }
        match self.connection_mode {
            ConnectionMode::Direct => Some(String::from_str(data)),
            ConnectionMode::Firmware => {
                match cloud_manager.extract_message_from_response(data) {
                    Some((topic, msg_content)) => Some(
                        firmware_json_string(topic.as_str(), msg_content.as_str()),
                    ),
                    None => {
                        if str_starts_with(data, "cmd=2&") {
                            let parts = split_fields(data);
                            let topic_key = chars_of("topic=");
                            let msg_key = chars_of("msg=");
                            let topic = last_field_of(&parts, topic_key.as_slice());
                            let msg = last_field_of(&parts, msg_key.as_slice());
                            if topic.len() > 0 && msg.len() > 0 {
                                let t = string_of(topic.as_slice());
                                let m = string_of(msg.as_slice());
                                return Some(firmware_json_string(t.as_str(), m.as_str()));
                            }
                        }
                        None
                    },
                }
            },
            ConnectionMode::AT => {
                match cloud_manager.extract_message_from_response(data) {
                    Some((_, msg_content)) => Some(at_send_string(msg_content.as_str())),
                    None => {
                        if str_starts_with(data, "cmd=2&") {
                            let parts = split_fields(data);
                            let msg_key = chars_of("msg=");
                            let msg = first_field_of(&parts, msg_key.as_slice());
                            if msg.len() > 0 {
                                let m = string_of(msg.as_slice());
                                return Some(at_send_string(m.as_str()));
                            }
                        }
                        None
                    },
                }
            },
        }
    }
}

/// In firmware mode the fallback parse of a `cmd=2&` line adds nothing: a cloud
/// message reaches the serial port exactly when it reads as a Bemfa message, and
/// then as the firmware JSON line of its topic and message.
pub proof fn lemma_firmware_forwards_exactly_bemfa_messages(data: Seq<char>)
    ensures
        cloud_download(true, ConnectionMode::Firmware, data) == match bemfa_message(data) {
            Some((topic, msg)) => Some(firmware_json(topic, msg)),
            None => None::<Seq<char>>,
        },
{
}

/// Nothing moves in either direction while forwarding is off.
pub proof fn lemma_disabled_forwards_nothing(
    mode: ConnectionMode,
    connected: bool,
    publish_topics: Seq<Seq<char>>,
    data: Seq<char>,
)
    ensures
        cloud_download(false, mode, data) is None,
        serial_upload(false, connected, publish_topics, data) is None,
{
}

/// What serial data publishes is never empty, and its topic is a publish topic.
pub proof fn lemma_upload_goes_to_publish_topic(
    connected: bool,
    publish_topics: Seq<Seq<char>>,
    data: Seq<char>,
)
    ensures
        serial_upload(true, connected, publish_topics, data) matches Some(text) ==> {
            &&& text.len() > 0
            &&& serial_field(trim(data), "topic="@) matches Some(topic) && publish_topics.contains(
                topic,
            )
        },
{
    let text = trim(data);
    if let Some(out) = serial_upload(true, connected, publish_topics, data) {
        if let Some(msg) = serial_field(text, "msg="@) {
            lemma_first_nonempty_field_nonempty(split_char(text, '&'), "msg="@);
        }
    }
}

/// A value that `first_nonempty_field` finds is non-empty.
pub proof fn lemma_first_nonempty_field_nonempty(parts: Seq<Seq<char>>, key: Seq<char>)
    ensures
        first_nonempty_field(parts, key) matches Some(v) ==> v.len() > 0,
    decreases parts.len(),
{
    if parts.len() > 0 {
        lemma_first_nonempty_field_nonempty(parts.drop_first(), key);
    }
}

/// Serial text whose topic is one of the publish topics, wherever it stands in the
/// list, is uploaded while forwarding is on and the cloud connected: its `msg=`
/// value, or the whole trimmed text where it has none.
pub proof fn lemma_publish_topic_uploads(publish_topics: Seq<Seq<char>>, data: Seq<char>, i: int)
    requires
        0 <= i < publish_topics.len(),
        trim(data).len() > 0,
        !is_control_message(trim(data)),
        serial_field(trim(data), "topic="@) == Some(publish_topics[i]),
    ensures
        serial_upload(true, true, publish_topics, data) == Some(
            match serial_field(trim(data), "msg="@) {
                Some(msg) => msg,
                None => trim(data),
            },
        ),
{
    assert(publish_topics.contains(publish_topics[i]));
}

/// Serial text whose topic is none of the publish topics is not uploaded.
pub proof fn lemma_other_topic_not_uploaded(
    enabled: bool,
    connected: bool,
    publish_topics: Seq<Seq<char>>,
    data: Seq<char>,
)
    requires
        serial_field(trim(data), "topic="@) matches Some(t) && !publish_topics.contains(t),
    ensures
        serial_upload(enabled, connected, publish_topics, data) is None,
{
}

} // verus!
