//! The cloud side: connection settings and topic lists, the command lines of the
//! Bemfa TCP protocol, and the reading of `cmd=2&uid=..&topic=..&msg=..` messages.
use vstd::prelude::*;
use crate::text::{
    chars_equal, chars_of, chars_start_with, split_char, split_chars, starts_with, string_of, trim,
    trim_chars, trim_start_matches, trim_start_matches_chars,
};

verus! {

/// Cloud connection settings and state. The network stream itself is kept by the
/// caller; this type decides what is sent and what a reply means.
pub struct CloudManager {
    pub connected: bool,
    pub service: String,
    pub protocol: String,
    pub uid: String,
    pub subscribe_topics: Vec<String>,
    pub publish_topics: Vec<String>,
    pub show_debug_info: bool,
}

impl Default for CloudManager {
    fn default() -> (res: Self)
        ensures
            !res.connected,
            res.service@ == "巴法云"@,
            res.protocol@ == "TCP"@,
            res.uid@.len() == 0,
            res.subscribe_topics@.len() == 0,
            res.publish_topics@.len() == 0,
            res.show_debug_info,
    {
        CloudManager {
            connected: false,
            service: String::from_str("巴法云"),
            protocol: String::from_str("TCP"),
            uid: String::new(),
            subscribe_topics: Vec::new(),
            publish_topics: Vec::new(),
            show_debug_info: true,
        }
    }
}

/// Why a connection is not attempted.
#[derive(Clone, Copy, Debug, PartialEq, Eq, Structural)]
pub enum ConnectError {
    /// Only the Bemfa service ("巴法云") is supported.
    UnsupportedService,
    /// Only the TCP protocol is supported.
    UnsupportedProtocol,
    /// No private key (UID) was entered.
    MissingUid,
}

impl ConnectError {
    /// The message shown for this error.
    pub open spec fn spec_message(self) -> Seq<char> {
        match self {
            ConnectError::UnsupportedService => "当前仅支持巴法云连接"@,
            ConnectError::UnsupportedProtocol => "当前仅支持TCP协议连接"@,
            ConnectError::MissingUid => "请输入云端私钥(UID)"@,
        }
    }

    /// The message shown for this error.
    pub fn message(&self) -> (res: String)
        ensures
            res@ == self.spec_message(),
    {
        match self {
            ConnectError::UnsupportedService => String::from_str("当前仅支持巴法云连接"),
            ConnectError::UnsupportedProtocol => String::from_str("当前仅支持TCP协议连接"),
            ConnectError::MissingUid => String::from_str("请输入云端私钥(UID)"),
        }
    }
}

/// Why a topic is not added to a topic list.
#[derive(Clone, Copy, Debug, PartialEq, Eq, Structural)]
pub enum TopicError {
    /// The topic is empty after trimming.
    Empty,
    /// The topic holds a space, a carriage return or a line feed.
    HasSeparator,
    /// The topic is already in the other list.
    InOtherList,
}

/// The name of a topic list: the subscribe topics or the publish topics.
pub open spec fn topic_list_name(subscribe: bool) -> Seq<char> {
    if subscribe {
        "订阅主题"@
    } else {
        "上传主题"@
    }
}

impl TopicError {
    /// The message shown when `input` is not added to the subscribe topics
    /// (`subscribe`) or to the publish topics.
    pub open spec fn spec_message(self, subscribe: bool, input: Seq<char>) -> Seq<char> {
        match self {
            TopicError::Empty => topic_list_name(subscribe) + "不能为空"@,
            TopicError::HasSeparator => topic_list_name(subscribe) + "不能包含空格、回车或换行符"@,
            TopicError::InOtherList => topic_list_name(subscribe) + " '"@ + trim(input) + "' 已存在于"@
                + topic_list_name(!subscribe) + "列表中，不能重复添加"@,
        }
    }

    /// The message shown when `input` is not added to the subscribe topics
    /// (`subscribe`) or to the publish topics.
    pub fn message(&self, subscribe: bool, input: &str) -> (res: String)
        ensures
            res@ == self.spec_message(subscribe, input@),
    {
        let (own, other) = if subscribe {
            ("订阅主题", "上传主题")
        } else {
            ("上传主题", "订阅主题")
        };
        let mut s = String::from_str(own);
        match self {
            TopicError::Empty => {
                s.append("不能为空");
            },
            TopicError::HasSeparator => {
                s.append("不能包含空格、回车或换行符");
            },
            TopicError::InOtherList => {
                let t = trimmed_topic(input);
                s.append(" '");
                s.append(string_of(t.as_slice()).as_str());
                s.append("' 已存在于");
                s.append(other);
                s.append("列表中，不能重复添加");
            },
        }
        s
    }
}

/// The views of the strings in `v`.
pub open spec fn string_views(v: Seq<String>) -> Seq<Seq<char>> {
    v.map_values(|s: String| s@)
}

/// A valid topic: not empty, and without space, carriage return or line feed.
pub open spec fn is_clean_topic(t: Seq<char>) -> bool {
    &&& t.len() > 0
    &&& !t.contains(' ')
    &&& !t.contains('\n')
    &&& !t.contains('\r')
}

/// No topic occurs twice in `topics`.
pub open spec fn no_duplicates(topics: Seq<Seq<char>>) -> bool {
    forall|i: int, j: int| 0 <= i < j < topics.len() ==> topics[i] != topics[j]
}

/// No topic occurs in both lists.
pub open spec fn disjoint_topics(a: Seq<Seq<char>>, b: Seq<Seq<char>>) -> bool {
    forall|i: int, j: int| 0 <= i < a.len() && 0 <= j < b.len() ==> a[i] != b[j]
}

/// What adding `input` to the list `own` does, beside the list `other`: the
/// outcome, and the list afterwards. A topic already in `own` is left alone.
pub open spec fn topic_added(own: Seq<Seq<char>>, other: Seq<Seq<char>>, input: Seq<char>) -> (
    Result<bool, TopicError>,
    Seq<Seq<char>>,
) {
    let t = trim(input);
    if t.len() == 0 {
        (Err(TopicError::Empty), own)
    } else if t.contains(' ') || t.contains('\n') || t.contains('\r') {
        (Err(TopicError::HasSeparator), own)
    } else if own.contains(t) {
        (Ok(false), own)
    } else if other.contains(t) {
        (Err(TopicError::InOtherList), own)
    } else {
        (Ok(true), own.push(t))
    }
}

/// The command that subscribes to `topic`.
pub open spec fn subscribe_command(uid: Seq<char>, topic: Seq<char>) -> Seq<char> {
    "cmd=1&uid="@ + uid + "&topic="@ + topic + "\r\n"@
}

/// The command that publishes `msg` on `topic`.
pub open spec fn publish_command(uid: Seq<char>, topic: Seq<char>, msg: Seq<char>) -> Seq<char> {
    "cmd=2&uid="@ + uid + "&topic="@ + topic + "&msg="@ + msg + "\r\n"@
}

/// The non-empty topics of `topics`, in order.
pub open spec fn nonempty_topics(topics: Seq<Seq<char>>) -> Seq<Seq<char>>
    decreases topics.len(),
{
    if topics.len() == 0 {
        Seq::<Seq<char>>::empty()
    } else if topics.last().len() == 0 {
        nonempty_topics(topics.drop_last())
    } else {
        nonempty_topics(topics.drop_last()).push(topics.last())
    }
}

/// The value of a `key=value` part: the part without every leading copy of `key`,
/// trimmed.
pub open spec fn field_value(part: Seq<char>, key: Seq<char>) -> Seq<char> {
    trim(trim_start_matches(part, key))
}

/// The value of the last part that starts with `key` (empty where none does).
pub open spec fn last_field(parts: Seq<Seq<char>>, key: Seq<char>) -> Seq<char>
    decreases parts.len(),
{
    if parts.len() == 0 {
        Seq::<char>::empty()
    } else if starts_with(parts.last(), key) {
        field_value(parts.last(), key)
    } else {
        last_field(parts.drop_last(), key)
    }
}

/// The value of the first part that starts with `key` (empty where none does).
pub open spec fn first_field(parts: Seq<Seq<char>>, key: Seq<char>) -> Seq<char>
    decreases parts.len(),
{
    if parts.len() == 0 {
        Seq::<char>::empty()
    } else if starts_with(parts[0], key) {
        field_value(parts[0], key)
    } else {
        first_field(parts.drop_first(), key)
    }
}

/// The first non-empty value of a part that starts with `key`.
pub open spec fn first_nonempty_field(parts: Seq<Seq<char>>, key: Seq<char>) -> Option<Seq<char>>
    decreases parts.len(),
{
    if parts.len() == 0 {
        None
    } else if starts_with(parts[0], key) && field_value(parts[0], key).len() > 0 {
        Some(field_value(parts[0], key))
    } else {
        first_nonempty_field(parts.drop_first(), key)
    }
}

/// The topic and message of a Bemfa message `cmd=2&...`: the last `topic=` and the
/// last `msg=` part, each trimmed; both must be non-empty.
pub open spec fn bemfa_message(response: Seq<char>) -> Option<(Seq<char>, Seq<char>)> {
    let parts = split_char(response, '&');
    let topic = last_field(parts, "topic="@);
    let msg = last_field(parts, "msg="@);
    if starts_with(response, "cmd=2&"@) && topic.len() > 0 && msg.len() > 0 {
        Some((topic, msg))
    } else {
        None
    }
}

/// `part` without every leading copy of `key`, trimmed.
pub fn field_value_of(part: &[char], key: &[char]) -> (res: Vec<char>)
    ensures
        res@ == field_value(part@, key@),
{
    let stripped = trim_start_matches_chars(part, key);
    trim_chars(stripped.as_slice())
}

/// The value of the last part that starts with `key`.
pub fn last_field_of(parts: &Vec<Vec<char>>, key: &[char]) -> (res: Vec<char>)
    ensures
        res@ == last_field(parts@.map_values(|p: Vec<char>| p@), key@),
{
    let ghost all = parts@.map_values(|p: Vec<char>| p@);
    let mut value: Vec<char> = Vec::new();
    assert(all.take(0) =~= Seq::<Seq<char>>::empty());
    for i in 0..parts.len()
        invariant
            all == parts@.map_values(|p: Vec<char>| p@),
            value@ == last_field(all.take(i as int), key@),
    {
        let part = parts[i].as_slice();
        assert(all.take(i + 1).drop_last() =~= all.take(i as int));
        assert(all.take(i + 1).last() == part@);
        if chars_start_with(part, key) {
            value = field_value_of(part, key);
        }
    }
    assert(all.take(parts@.len() as int) =~= all);
    value
}

/// The value of the first part that starts with `key`.
pub fn first_field_of(parts: &Vec<Vec<char>>, key: &[char]) -> (res: Vec<char>)
    ensures
        res@ == first_field(parts@.map_values(|p: Vec<char>| p@), key@),
{
    let ghost all = parts@.map_values(|p: Vec<char>| p@);
    assert(all.skip(0) =~= all);
    for i in 0..parts.len()
        invariant
            all == parts@.map_values(|p: Vec<char>| p@),
            first_field(all, key@) == first_field(all.skip(i as int), key@),
    {
        let part = parts[i].as_slice();
        assert(all.skip(i as int)[0] == part@);
        if chars_start_with(part, key) {
            return field_value_of(part, key);
        }
        assert(all.skip(i as int).drop_first() =~= all.skip(i + 1));
    }
    assert(all.skip(parts@.len() as int).len() == 0);
    Vec::new()
}

/// The first non-empty value of a part that starts with `key`.
pub fn first_nonempty_field_of(parts: &Vec<Vec<char>>, key: &[char]) -> (res: Option<Vec<char>>)
    ensures
        match first_nonempty_field(parts@.map_values(|p: Vec<char>| p@), key@) {
            Some(v) => res matches Some(r) && r@ == v,
            None => res is None,
        },
{
    let ghost all = parts@.map_values(|p: Vec<char>| p@);
    assert(all.skip(0) =~= all);
    for i in 0..parts.len()
        invariant
            all == parts@.map_values(|p: Vec<char>| p@),
            first_nonempty_field(all, key@) == first_nonempty_field(all.skip(i as int), key@),
    {
        let part = parts[i].as_slice();
        assert(all.skip(i as int)[0] == part@);
        if chars_start_with(part, key) {
            let value = field_value_of(part, key);
            if value.len() > 0 {
                return Some(value);
            }
        }
        assert(all.skip(i as int).drop_first() =~= all.skip(i + 1));
    }
    assert(all.skip(parts@.len() as int).len() == 0);
    None
}

/// The pieces of `s` between `&`.
pub fn split_fields(s: &str) -> (res: Vec<Vec<char>>)
    ensures
        res@.map_values(|p: Vec<char>| p@) == split_char(s@, '&'),
{
    let chars = chars_of(s);
    let parts = split_chars(chars.as_slice(), '&');
    assert(parts@.map_values(|p: Vec<char>| p@) =~= split_char(s@, '&'));
    parts
}

/// Whether `s` starts with `prefix`.
pub fn str_starts_with(s: &str, prefix: &str) -> (res: bool)
    ensures
        res == starts_with(s@, prefix@),
{
    let a = chars_of(s);
    let b = chars_of(prefix);
    chars_start_with(a.as_slice(), b.as_slice())
}

fn trimmed_topic(input: &str) -> (res: Vec<char>)
    ensures
        res@ == trim(input@),
{
    let chars = chars_of(input);
    trim_chars(chars.as_slice())
}

fn chars_have(t: &[char], c: char) -> (res: bool)
    ensures
        res == t@.contains(c),
{
    for i in 0..t.len()
        invariant
            forall|k: int| 0 <= k < i ==> t@[k] != c,
    {
        if t[i] == c {
            assert(t@[i as int] == c);
            return true;
        }
    }
    false
}

fn list_has(v: &Vec<String>, t: &[char]) -> (res: bool)
    ensures
        res == string_views(v@).contains(t@),
{
    let ghost views = string_views(v@);
    for i in 0..v.len()
        invariant
            views == string_views(v@),
            forall|k: int| 0 <= k < i ==> views[k] != t@,
    {
        let item = chars_of(v[i].as_str());
        if chars_equal(item.as_slice(), t) {
            assert(views[i as int] == t@);
            return true;
        }
    }
    false
}

fn topic_outcome(own: &Vec<String>, other: &Vec<String>, t: &[char]) -> (res: Result<bool, TopicError>)
    ensures
        res == (if t@.len() == 0 {
            Err(TopicError::Empty)
        } else if t@.contains(' ') || t@.contains('\n') || t@.contains('\r') {
            Err(TopicError::HasSeparator)
        } else if string_views(own@).contains(t@) {
            Ok(false)
        } else if string_views(other@).contains(t@) {
            Err(TopicError::InOtherList)
        } else {
            Ok(true)
        }),
{
    if t.len() == 0 {
        Err(TopicError::Empty)
    } else if chars_have(t, ' ') || chars_have(t, '\n') || chars_have(t, '\r') {
        Err(TopicError::HasSeparator)
    } else if list_has(own, t) {
        Ok(false)
    } else if list_has(other, t) {
        Err(TopicError::InOtherList)
    } else {
        Ok(true)
    }
}

/// Adding a topic keeps the two topic lists clean, free of repeats, and apart:
/// where every topic is clean, neither list repeats a topic and no topic is in
/// both, the same holds after an add, whatever its outcome.
pub proof fn lemma_topic_add_keeps_lists_apart(
    own: Seq<Seq<char>>,
    other: Seq<Seq<char>>,
    input: Seq<char>,
)
    requires
        forall|i: int| 0 <= i < own.len() ==> is_clean_topic(#[trigger] own[i]),
        no_duplicates(own),
        disjoint_topics(own, other),
    ensures
        ({
            let after = topic_added(own, other, input).1;
            &&& forall|i: int| 0 <= i < after.len() ==> is_clean_topic(#[trigger] after[i])
            &&& no_duplicates(after)
            &&& disjoint_topics(after, other)
            &&& disjoint_topics(other, after)
            &&& (topic_added(own, other, input).0 == Ok::<bool, TopicError>(true) ==> after
                == own.push(trim(input)))
            &&& (topic_added(own, other, input).0 != Ok::<bool, TopicError>(true) ==> after
                == own)
        }),
{
    let t = trim(input);
    let after = topic_added(own, other, input).1;
    if topic_added(own, other, input).0 == Ok::<bool, TopicError>(true) {
        assert(!own.contains(t));
        assert(!other.contains(t));
        assert forall|i: int, j: int| 0 <= i < j < after.len() implies after[i] != after[j] by {
            if j == own.len() {
                assert(own[i] == after[i]);
            }
        }
        assert forall|i: int, j: int| 0 <= i < after.len() && 0 <= j < other.len() implies after[i]
            != other[j] by {
            if i == own.len() {
                assert(other[j] != t);
            }
        }
    }
}

/// Removing a topic from one list keeps that list clean and free of duplicates, and
/// keeps the two lists apart.
pub proof fn lemma_topic_remove_keeps_lists_apart(
    own: Seq<Seq<char>>,
    other: Seq<Seq<char>>,
    index: int,
)
    requires
        0 <= index < own.len(),
        forall|i: int| 0 <= i < own.len() ==> is_clean_topic(#[trigger] own[i]),
        no_duplicates(own),
        disjoint_topics(own, other),
    ensures
        ({
            let after = own.remove(index);
            &&& forall|i: int| 0 <= i < after.len() ==> is_clean_topic(#[trigger] after[i])
            &&& no_duplicates(after)
            &&& disjoint_topics(after, other)
            &&& disjoint_topics(other, after)
        }),
{
    let after = own.remove(index);
    assert forall|i: int, j: int| 0 <= i < j < after.len() implies after[i] != after[j] by {
        let a = if i < index { i } else { i + 1 };
        let b = if j < index { j } else { j + 1 };
        assert(after[i] == own[a] && after[j] == own[b]);
    }
    assert forall|i: int| 0 <= i < after.len() implies is_clean_topic(#[trigger] after[i]) by {
        let a = if i < index { i } else { i + 1 };
        assert(after[i] == own[a]);
    }
    assert forall|i: int, j: int| 0 <= i < after.len() && 0 <= j < other.len() implies after[i]
        != other[j] by {
        let a = if i < index { i } else { i + 1 };
        assert(after[i] == own[a]);
    }
}

/// One edit of the topic lists, as the configuration window makes them.
pub enum TopicEdit {
    AddSubscribe(Seq<char>),
    AddPublish(Seq<char>),
    RemoveSubscribe(int),
    RemovePublish(int),
}

/// Both topic lists are clean, neither repeats a topic, and no topic is in both.
pub open spec fn topic_lists_ok(subscribe: Seq<Seq<char>>, publish: Seq<Seq<char>>) -> bool {
    &&& forall|i: int| 0 <= i < subscribe.len() ==> is_clean_topic(#[trigger] subscribe[i])
    &&& forall|i: int| 0 <= i < publish.len() ==> is_clean_topic(#[trigger] publish[i])
    &&& no_duplicates(subscribe)
    &&& no_duplicates(publish)
    &&& disjoint_topics(subscribe, publish)
}

/// The topic lists after one edit; a removal at a position outside its list does nothing.
pub open spec fn topics_edited(
    subscribe: Seq<Seq<char>>,
    publish: Seq<Seq<char>>,
    edit: TopicEdit,
) -> (Seq<Seq<char>>, Seq<Seq<char>>) {
    match edit {
        TopicEdit::AddSubscribe(t) => (topic_added(subscribe, publish, t).1, publish),
        TopicEdit::AddPublish(t) => (subscribe, topic_added(publish, subscribe, t).1),
        TopicEdit::RemoveSubscribe(i) => if 0 <= i < subscribe.len() {
            (subscribe.remove(i), publish)
        } else {
            (subscribe, publish)
        },
        TopicEdit::RemovePublish(i) => if 0 <= i < publish.len() {
            (subscribe, publish.remove(i))
        } else {
            (subscribe, publish)
        },
    }
}

/// The topic lists after the edits, in order.
pub open spec fn topics_after_edits(
    subscribe: Seq<Seq<char>>,
    publish: Seq<Seq<char>>,
    edits: Seq<TopicEdit>,
) -> (Seq<Seq<char>>, Seq<Seq<char>>)
    decreases edits.len(),
{
    if edits.len() == 0 {
        (subscribe, publish)
    } else {
        let before = topics_after_edits(subscribe, publish, edits.drop_last());
        topics_edited(before.0, before.1, edits.last())
    }
}

/// Any sequence of adds and removals keeps the topic lists clean, free of repeats
/// and apart.
pub proof fn lemma_topic_edits_keep_lists_apart(
    subscribe: Seq<Seq<char>>,
    publish: Seq<Seq<char>>,
    edits: Seq<TopicEdit>,
)
    requires
        topic_lists_ok(subscribe, publish),
    ensures
        topic_lists_ok(
            topics_after_edits(subscribe, publish, edits).0,
            topics_after_edits(subscribe, publish, edits).1,
        ),
    decreases edits.len(),
{
    if edits.len() > 0 {
        lemma_topic_edits_keep_lists_apart(subscribe, publish, edits.drop_last());
        let before = topics_after_edits(subscribe, publish, edits.drop_last());
        let (s, p) = (before.0, before.1);
        match edits.last() {
            TopicEdit::AddSubscribe(t) => {
                lemma_topic_add_keeps_lists_apart(s, p, t);
            },
            TopicEdit::AddPublish(t) => {
                assert forall|i: int, j: int| 0 <= i < p.len() && 0 <= j < s.len() implies p[i]
                    != s[j] by {
                    assert(s[j] != p[i]);
                }
                lemma_topic_add_keeps_lists_apart(p, s, t);
            },
            TopicEdit::RemoveSubscribe(i) => {
                if 0 <= i < s.len() {
                    lemma_topic_remove_keeps_lists_apart(s, p, i);
                }
            },
            TopicEdit::RemovePublish(i) => {
                if 0 <= i < p.len() {
                    assert forall|a: int, b: int| 0 <= a < p.len() && 0 <= b < s.len() implies p[a]
                        != s[b] by {
                        assert(s[b] != p[a]);
                    }
                    lemma_topic_remove_keeps_lists_apart(p, s, i);
                }
            },
        }
    }
}

impl CloudManager {
    /// The views of the subscribe topics.
    pub open spec fn subscribe_view(&self) -> Seq<Seq<char>> {
        string_views(self.subscribe_topics@)
    }

    /// The views of the publish topics.
    pub open spec fn publish_view(&self) -> Seq<Seq<char>> {
        string_views(self.publish_topics@)
    }

    /// Settings as given, not connected.
    pub fn from_config(
        service: &str,
        protocol: &str,
        uid: &str,
        subscribe_topics: &Vec<String>,
        publish_topics: &Vec<String>,
        show_debug_info: bool,
    ) -> (res: Self)
        ensures
            !res.connected,
            res.service@ == service@,
            res.protocol@ == protocol@,
            res.uid@ == uid@,
            res.subscribe_view() == string_views(subscribe_topics@),
            res.publish_view() == string_views(publish_topics@),
            res.show_debug_info == show_debug_info,
    {
        let subscribe = subscribe_topics.clone();
        let publish = publish_topics.clone();
        assert(string_views(subscribe@) =~= string_views(subscribe_topics@));
        assert(string_views(publish@) =~= string_views(publish_topics@));
        CloudManager {
            connected: false,
            service: String::from_str(service),
            protocol: String::from_str(protocol),
            uid: String::from_str(uid),
            subscribe_topics: subscribe,
            publish_topics: publish,
            show_debug_info,
        }
    }

    /// Whether a connection may be attempted: Bemfa over TCP with a UID.
    pub fn check_connect_settings(&self) -> (res: Result<(), ConnectError>)
        ensures
            res == if self.service@ != "巴法云"@ {
                Err(ConnectError::UnsupportedService)
            } else if self.protocol@ != "TCP"@ {
                Err(ConnectError::UnsupportedProtocol)
            } else if self.uid@.len() == 0 {
                Err(ConnectError::MissingUid)
            } else {
                Ok(())
            },
    {
        let service = chars_of(self.service.as_str());
        let bemfa = chars_of("巴法云");
        if !chars_equal(service.as_slice(), bemfa.as_slice()) {
            return Err(ConnectError::UnsupportedService);
        }
        let protocol = chars_of(self.protocol.as_str());
        let tcp = chars_of("TCP");
        if !chars_equal(protocol.as_slice(), tcp.as_slice()) {
            return Err(ConnectError::UnsupportedProtocol);
        }
        if self.uid.as_str().unicode_len() == 0 {
            return Err(ConnectError::MissingUid);
        }
        Ok(())
    }

    /// The subscribe command for each non-empty subscribe topic, in order.
    pub fn subscribe_commands(&self) -> (res: Vec<String>)
        ensures
            res@.len() == nonempty_topics(self.subscribe_view()).len(),
            forall|i: int|
                0 <= i < res@.len() ==> (#[trigger] res@[i])@ == subscribe_command(
                    self.uid@,
                    nonempty_topics(self.subscribe_view())[i],
                ),
    {
        let ghost all = self.subscribe_view();
        let mut res: Vec<String> = Vec::new();
        assert(all.take(0) =~= Seq::<Seq<char>>::empty());
        for i in 0..self.subscribe_topics.len()
            invariant
                all == self.subscribe_view(),
                res@.len() == nonempty_topics(all.take(i as int)).len(),
                forall|k: int|
                    0 <= k < res@.len() ==> (#[trigger] res@[k])@ == subscribe_command(
                        self.uid@,
                        nonempty_topics(all.take(i as int))[k],
                    ),
        {
            let topic = self.subscribe_topics[i].as_str();
            assert(all.take(i + 1).drop_last() =~= all.take(i as int));
            assert(all.take(i + 1).last() == topic@);
            if topic.unicode_len() > 0 {
                let mut cmd = String::from_str("cmd=1&uid=");
                cmd.append(self.uid.as_str());
                cmd.append("&topic=");
                cmd.append(topic);
                cmd.append("\r\n");
                res.push(cmd);
            }
        }
        assert(all.take(self.subscribe_topics@.len() as int) =~= all);
        res
    }

    /// The publish command of `data` for each non-empty publish topic, in order.
    pub fn publish_commands(&self, data: &str) -> (res: Vec<String>)
        ensures
            res@.len() == nonempty_topics(self.publish_view()).len(),
            forall|i: int|
                0 <= i < res@.len() ==> (#[trigger] res@[i])@ == publish_command(
                    self.uid@,
                    nonempty_topics(self.publish_view())[i],
                    data@,
                ),
    {
        let ghost all = self.publish_view();
        let mut res: Vec<String> = Vec::new();
        assert(all.take(0) =~= Seq::<Seq<char>>::empty());
        for i in 0..self.publish_topics.len()
            invariant
                all == self.publish_view(),
                res@.len() == nonempty_topics(all.take(i as int)).len(),
                forall|k: int|
                    0 <= k < res@.len() ==> (#[trigger] res@[k])@ == publish_command(
                        self.uid@,
                        nonempty_topics(all.take(i as int))[k],
                        data@,
                    ),
        {
            let topic = self.publish_topics[i].as_str();
            assert(all.take(i + 1).drop_last() =~= all.take(i as int));
            assert(all.take(i + 1).last() == topic@);
            if topic.unicode_len() > 0 {
                let mut cmd = String::from_str("cmd=2&uid=");
                cmd.append(self.uid.as_str());
                cmd.append("&topic=");
                cmd.append(topic);
                cmd.append("&msg=");
                cmd.append(data);
                cmd.append("\r\n");
                res.push(cmd);
            }
        }
        assert(all.take(self.publish_topics@.len() as int) =~= all);
        res
    }

    /// The heartbeat command.
    pub fn heartbeat_command() -> (res: String)
        ensures
            res@ == "ping\r\n"@,
    {
        String::from_str("ping\r\n")
    }

    /// Reads a Bemfa message `cmd=2&uid=..&topic=..&msg=..` into its topic and message.
    pub fn extract_message_from_response(&self, response: &str) -> (res: Option<(String, String)>)
        ensures
            match bemfa_message(response@) {
                Some((t, m)) => res matches Some((a, b)) && a@ == t && b@ == m,
                None => res is None,
            },
    {
        if str_starts_with(response, "cmd=2&") {
            let parts = split_fields(response);
            let topic_key = chars_of("topic=");
            let msg_key = chars_of("msg=");
            let topic = last_field_of(&parts, topic_key.as_slice());
            let msg = last_field_of(&parts, msg_key.as_slice());
            if topic.len() > 0 && msg.len() > 0 {
                return Some((string_of(topic.as_slice()), string_of(msg.as_slice())));
            }
        }
        None
    }

    /// Adds `input`, trimmed, to the subscribe topics, unless it is empty, holds a
    /// space or line break, is already there (then nothing happens) or is a publish topic.
    pub fn add_subscribe_topic(&mut self, input: &str) -> (res: Result<bool, TopicError>)
        ensures
            (res, final(self).subscribe_view()) == topic_added(
                old(self).subscribe_view(),
                old(self).publish_view(),
                input@,
            ),
            final(self).publish_topics == old(self).publish_topics,
            final(self).connected == old(self).connected,
            final(self).uid == old(self).uid,
            final(self).service == old(self).service,
            final(self).protocol == old(self).protocol,
            final(self).show_debug_info == old(self).show_debug_info,
    {
        let t = trimmed_topic(input);
        let outcome = topic_outcome(&self.subscribe_topics, &self.publish_topics, t.as_slice());
        if let Ok(true) = outcome {
            self.subscribe_topics.push(string_of(t.as_slice()));
            assert(self.subscribe_view() =~= old(self).subscribe_view().push(t@));
        }
        outcome
    }

    /// Adds `input`, trimmed, to the publish topics, unless it is empty, holds a
    /// space or line break, is already there (then nothing happens) or is a subscribe topic.
    pub fn add_publish_topic(&mut self, input: &str) -> (res: Result<bool, TopicError>)
        ensures
            (res, final(self).publish_view()) == topic_added(
                old(self).publish_view(),
                old(self).subscribe_view(),
                input@,
            ),
            final(self).subscribe_topics == old(self).subscribe_topics,
            final(self).connected == old(self).connected,
            final(self).uid == old(self).uid,
            final(self).service == old(self).service,
            final(self).protocol == old(self).protocol,
            final(self).show_debug_info == old(self).show_debug_info,
    {
        let t = trimmed_topic(input);
        let outcome = topic_outcome(&self.publish_topics, &self.subscribe_topics, t.as_slice());
        if let Ok(true) = outcome {
            self.publish_topics.push(string_of(t.as_slice()));
            assert(self.publish_view() =~= old(self).publish_view().push(t@));
        }
        outcome
    }

    /// Removes the subscribe topic at `index`.
    pub fn remove_subscribe_topic(&mut self, index: usize)
        requires
            index < old(self).subscribe_topics@.len(),
        ensures
            final(self).subscribe_view() == old(self).subscribe_view().remove(index as int),
            final(self).publish_topics == old(self).publish_topics,
            final(self).connected == old(self).connected,
            final(self).uid == old(self).uid,
            final(self).service == old(self).service,
            final(self).protocol == old(self).protocol,
            final(self).show_debug_info == old(self).show_debug_info,
    {
        self.subscribe_topics.remove(index);
        assert(self.subscribe_view() =~= old(self).subscribe_view().remove(index as int));
    }

    /// Removes the publish topic at `index`.
    pub fn remove_publish_topic(&mut self, index: usize)
        requires
            index < old(self).publish_topics@.len(),
        ensures
            final(self).publish_view() == old(self).publish_view().remove(index as int),
            final(self).subscribe_topics == old(self).subscribe_topics,
            final(self).connected == old(self).connected,
            final(self).uid == old(self).uid,
            final(self).service == old(self).service,
            final(self).protocol == old(self).protocol,
            final(self).show_debug_info == old(self).show_debug_info,
    {
        self.publish_topics.remove(index);
        assert(self.publish_view() =~= old(self).publish_view().remove(index as int));
    }

    /// Forgets the connection.
    pub fn disconnect(&mut self)
        ensures
            !final(self).connected,
            final(self).service == old(self).service,
            final(self).protocol == old(self).protocol,
            final(self).uid == old(self).uid,
            final(self).subscribe_topics == old(self).subscribe_topics,
            final(self).publish_topics == old(self).publish_topics,
            final(self).show_debug_info == old(self).show_debug_info,
    {
        self.connected = false;
    }
}

} // verus!
