//! The monitor window's decisions: what a send turns into, how shortcuts are
//! saved, which notice a message opens, and which periodic work is due.
use vstd::prelude::*;
use vstd::utf8::*;
use crate::text::{chars_contain, chars_of, contains_text, string_of, trim, trim_chars};
use crate::utils::{
    encode_for_send, encoded_for_send, hex_digit, hex_dump, hex_input, hex_input_checked,
    hex_input_echo, lemma_hex_dump_sends_back, spaced_pairs, without_spaces, HexInputError,
};

verus! {

/// What a send amounts to, as values.
pub enum PlannedSend {
    /// Nothing is sent and nothing is shown.
    Nothing,
    /// These bytes are written, and this text is shown once they are.
    Send(Seq<u8>, Seq<char>),
    /// The hex input is refused; its message is shown.
    Refused(HexInputError),
}

/// What a send amounts to.
pub enum SendOutcome {
    /// Nothing is sent and nothing is shown.
    Nothing,
    /// These bytes are written, and this text is shown once they are.
    Send(Vec<u8>, String),
    /// The hex input is refused; its message is shown.
    Refused(HexInputError),
}

impl View for SendOutcome {
    type V = PlannedSend;

    open spec fn view(&self) -> PlannedSend {
        match self {
            SendOutcome::Nothing => PlannedSend::Nothing,
            SendOutcome::Send(bytes, echo) => PlannedSend::Send(bytes@, echo@),
            SendOutcome::Refused(e) => PlannedSend::Refused(*e),
        }
    }
}

/// A line break where `newline` is set.
pub open spec fn line_break(newline: bool) -> Seq<char> {
    if newline {
        "\n"@
    } else {
        Seq::<char>::empty()
    }
}

/// CR LF where `newline` is set.
pub open spec fn crlf(newline: bool) -> Seq<u8> {
    if newline {
        seq![13u8, 10u8]
    } else {
        Seq::<u8>::empty()
    }
}

/// Hex input sent: its bytes, shown as `发送: ` and its pairs (and a line break
/// where `newline` is set); nothing where it holds no byte. `None` where the input
/// cannot be cut into pairs of whole characters.
pub open spec fn hex_send(input: Seq<char>, newline: bool) -> Option<PlannedSend> {
    match hex_input(input) {
        Some(Ok(bytes)) => Some(
            if bytes.len() == 0 {
                PlannedSend::Nothing
            } else {
                PlannedSend::Send(
                    bytes,
                    "发送: "@ + spaced_pairs(without_spaces(input)) + line_break(newline),
                )
            },
        ),
        Some(Err(e)) => Some(PlannedSend::Refused(e)),
        None => None,
    }
}

/// What the send box sends for `input`: nothing when it is empty; hex input when
/// `hex` is set; else the text under the send encoding named `encoding`, with CR LF
/// where `newline` is set, shown as typed.
pub open spec fn typed_send(input: Seq<char>, hex: bool, encoding: Seq<char>, newline: bool) -> Option<
    PlannedSend,
> {
    if input.len() == 0 {
        Some(PlannedSend::Nothing)
    } else if hex {
        hex_send(input, newline)
    } else {
        let bytes = encoded_for_send(input, encoding) + crlf(newline);
        Some(
            if bytes.len() == 0 {
                PlannedSend::Nothing
            } else {
                PlannedSend::Send(bytes, input + line_break(newline))
            },
        )
    }
}

/// What a shortcut sends: hex input when `hex` is set; else its UTF-8 bytes, with
/// CR LF where `newline` is set, shown after `发送: `.
pub open spec fn shortcut_send(command: Seq<char>, hex: bool, newline: bool) -> Option<PlannedSend> {
    if hex {
        hex_send(command, newline)
    } else {
        let bytes = encode_utf8(command) + crlf(newline);
        Some(
            if bytes.len() == 0 {
                PlannedSend::Nothing
            } else {
                PlannedSend::Send(bytes, "发送: "@ + command + line_break(newline))
            },
        )
    }
}

fn plan_hex_send(input: &str, newline: bool) -> (res: Option<SendOutcome>)
    ensures
        match hex_send(input@, newline) {
            Some(p) => res matches Some(o) && o@ == p,
            None => res is None,
        },
{
    match hex_input_checked(input) {
        Some(Ok(bytes)) => {
            if bytes.len() == 0 {
                Some(SendOutcome::Nothing)
            } else {
                let mut echo = String::from_str("发送: ");
                let pairs = hex_input_echo(input);
                echo.append(pairs.as_str());
                if newline {
                    echo.append("\n");
                }
                proof {
                    reveal_strlit("\n");
                    assert(echo@ =~= "发送: "@ + spaced_pairs(without_spaces(input@)) + line_break(
                        newline,
                    ));
                }
                Some(SendOutcome::Send(bytes, echo))
            }
        },
        Some(Err(e)) => Some(SendOutcome::Refused(e)),
        None => None,
    }
}

/// What the send box sends for `input`; `None` where hex input cannot be cut into
/// pairs of whole characters.
pub fn plan_send(input: &str, hex: bool, send_encoding: &str, newline: bool) -> (res: Option<SendOutcome>)
    requires
        input@.len() <= usize::MAX / 64,
    ensures
        match typed_send(input@, hex, send_encoding@, newline) {
            Some(p) => res matches Some(o) && o@ == p,
            None => res is None,
        },
{
    if input.unicode_len() == 0 {
        return Some(SendOutcome::Nothing);
    }
    if hex {
        return plan_hex_send(input, newline);
    }
    let bytes = encode_for_send(input, send_encoding, newline);
    if bytes.len() == 0 {
        return Some(SendOutcome::Nothing);
    }
    let mut echo = String::from_str(input);
    if newline {
        echo.append("\n");
    }
    proof {
        reveal_strlit("\n");
        assert(echo@ =~= input@ + line_break(newline));
    }
    Some(SendOutcome::Send(bytes, echo))
}

/// What a shortcut sends; `None` where hex input cannot be cut into pairs of whole
/// characters.
pub fn plan_shortcut_send(command: &str, hex: bool, newline: bool) -> (res: Option<SendOutcome>)
    ensures
        match shortcut_send(command@, hex, newline) {
            Some(p) => res matches Some(o) && o@ == p,
            None => res is None,
        },
{
    if hex {
        return plan_hex_send(command, newline);
    }
    let mut bytes = command.as_bytes_vec();
    if newline {
        bytes.push(13);
        bytes.push(10);
    }
    proof {
        assert(bytes@ =~= encode_utf8(command@) + crlf(newline));
    }
    if bytes.len() == 0 {
        return Some(SendOutcome::Nothing);
    }
    let mut echo = String::from_str("发送: ");
    echo.append(command);
    if newline {
        echo.append("\n");
    }
    proof {
        reveal_strlit("\n");
        assert(echo@ =~= "发送: "@ + command@ + line_break(newline));
    }
    Some(SendOutcome::Send(bytes, echo))
}

/// Received bytes shown in hex, typed back into the send box in hex mode, send
/// exactly those bytes again.
pub proof fn lemma_hex_view_resends(bytes: Seq<u8>, encoding: Seq<char>, newline: bool)
    requires
        bytes.len() > 0,
    ensures
        typed_send(hex_dump(bytes), true, encoding, newline) matches Some(PlannedSend::Send(b, _))
            && b == bytes,
{
    lemma_hex_dump_sends_back(bytes);
    assert(hex_dump(bytes).len() > 0) by {
        assert(hex_dump(bytes) == hex_dump(bytes.drop_last()) + seq![
            hex_digit(bytes.last() as int / 16),
            hex_digit(bytes.last() as int % 16),
            ' ',
        ]);
    }
}

/// The shortcuts as values.
pub open spec fn shortcut_views(v: Seq<(String, bool)>) -> Seq<(Seq<char>, bool)> {
    v.map_values(|e: (String, bool)| (e.0@, e.1))
}

/// The shortcuts after saving `input` (trimmed) with `newline`: at `editing` where
/// a shortcut is being edited, else at the end; unchanged where the trimmed input is
/// empty.
pub open spec fn shortcuts_saved(
    shortcuts: Seq<(Seq<char>, bool)>,
    editing: Option<usize>,
    input: Seq<char>,
    newline: bool,
) -> Seq<(Seq<char>, bool)> {
    let t = trim(input);
    if t.len() == 0 {
        shortcuts
    } else {
        match editing {
            Some(i) => shortcuts.update(i as int, (t, newline)),
            None => shortcuts.push((t, newline)),
        }
    }
}

/// Saves a shortcut; `false` (and nothing changed) where the trimmed input is empty.
pub fn save_shortcut(
    shortcuts: &mut Vec<(String, bool)>,
    editing: Option<usize>,
    input: &str,
    newline: bool,
) -> (saved: bool)
    requires
        editing matches Some(i) ==> i < old(shortcuts)@.len(),
    ensures
        saved == (trim(input@).len() > 0),
        shortcut_views(final(shortcuts)@) == shortcuts_saved(
            shortcut_views(old(shortcuts)@),
            editing,
            input@,
            newline,
        ),
{
    let chars = chars_of(input);
    let t = trim_chars(chars.as_slice());
    if t.len() == 0 {
        return false;
    }
    let entry = (string_of(t.as_slice()), newline);
    let ghost before = shortcuts@;
    match editing {
        Some(i) => {
            shortcuts.set(i, entry);
            assert(shortcut_views(shortcuts@) =~= shortcut_views(before).update(
                i as int,
                (t@, newline),
            ));
        },
        None => {
            shortcuts.push(entry);
            assert(shortcut_views(shortcuts@) =~= shortcut_views(before).push((t@, newline)));
        },
    }
    true
}

/// The notice window that a message opens.
#[derive(Clone, Copy, Debug, PartialEq, Eq, Structural)]
pub enum NoticeKind {
    /// An update was installed: the window offers a restart.
    UpdateDone,
    /// No newer version exists: the window offers the version list.
    UpToDate,
    /// Any other message: the window only closes.
    Error,
}

/// The notice window that `message` opens.
pub open spec fn notice_kind(message: Seq<char>) -> NoticeKind {
    if contains_text(message, "更新成功"@) {
        NoticeKind::UpdateDone
    } else if contains_text(message, "当前已是最新版本"@) {
        NoticeKind::UpToDate
    } else {
        NoticeKind::Error
    }
}

/// The title of a notice window.
pub open spec fn notice_title(kind: NoticeKind) -> Seq<char> {
    match kind {
        NoticeKind::UpdateDone => "更新完成"@,
        NoticeKind::UpToDate => "更新提示"@,
        NoticeKind::Error => "错误提示"@,
    }
}

impl NoticeKind {
    /// The notice window that `message` opens.
    pub fn of_message(message: &str) -> (res: NoticeKind)
        ensures
            res == notice_kind(message@),
    {
        let m = chars_of(message);
        let done = chars_of("更新成功");
        let current = chars_of("当前已是最新版本");
        if chars_contain(m.as_slice(), done.as_slice()) {
            NoticeKind::UpdateDone
        } else if chars_contain(m.as_slice(), current.as_slice()) {
            NoticeKind::UpToDate
        } else {
            NoticeKind::Error
        }
    }

    /// The title of this notice window.
    pub fn title(&self) -> (res: String)
        ensures
            res@ == notice_title(*self),
    {
        match self {
            NoticeKind::UpdateDone => String::from_str("更新完成"),
            NoticeKind::UpToDate => String::from_str("更新提示"),
            NoticeKind::Error => String::from_str("错误提示"),
        }
    }
}

/// The periodic work of the window, by the time since start in milliseconds: one
/// update check after the first second, a port scan every half second, and a
/// heartbeat every minute.
pub struct Schedule {
    pub last_scan_ms: u64,
    pub last_heartbeat_ms: u64,
    pub has_checked_update: bool,
}

/// The work due at one frame.
#[derive(Clone, Copy, Debug, PartialEq, Eq, Structural)]
pub struct Due {
    /// Check for updates (once).
    pub check_update: bool,
    /// Rescan the serial ports.
    pub scan_ports: bool,
    /// Send the cloud heartbeat.
    pub heartbeat: bool,
}

/// At least `interval` milliseconds have passed since `last`.
pub open spec fn elapsed(now: u64, last: u64, interval: int) -> bool {
    now - last >= interval
}

impl Schedule {
    /// Nothing done yet.
    pub fn new() -> (res: Schedule)
        ensures
            res.last_scan_ms == 0,
            res.last_heartbeat_ms == 0,
            !res.has_checked_update,
    {
        Schedule { last_scan_ms: 0, last_heartbeat_ms: 0, has_checked_update: false }
    }

    /// The work due at time `now_ms`; the heartbeat goes out only while the cloud is
    /// connected, but its minute restarts either way.
    pub fn tick(&mut self, now_ms: u64, cloud_connected: bool) -> (due: Due)
        ensures
            due.check_update == (!old(self).has_checked_update && now_ms >= 1000),
            final(self).has_checked_update == (old(self).has_checked_update || now_ms >= 1000),
            due.scan_ports == elapsed(now_ms, old(self).last_scan_ms, 500),
            final(self).last_scan_ms == if due.scan_ports {
                now_ms
            } else {
                old(self).last_scan_ms
            },
            due.heartbeat == (elapsed(now_ms, old(self).last_heartbeat_ms, 60000) && cloud_connected),
            final(self).last_heartbeat_ms == if elapsed(now_ms, old(self).last_heartbeat_ms, 60000) {
                now_ms
            } else {
                old(self).last_heartbeat_ms
            },
    {
        let check_update = !self.has_checked_update && now_ms >= 1000;
        if check_update {
            self.has_checked_update = true;
        }
        let scan_ports = now_ms >= self.last_scan_ms && now_ms - self.last_scan_ms >= 500;
        if scan_ports {
            self.last_scan_ms = now_ms;
        }
        let minute = now_ms >= self.last_heartbeat_ms && now_ms - self.last_heartbeat_ms >= 60000;
        if minute {
            self.last_heartbeat_ms = now_ms;
        }
        Due { check_update, scan_ports, heartbeat: minute && cloud_connected }
    }
}

} // verus!
