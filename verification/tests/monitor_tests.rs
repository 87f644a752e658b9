use serial_monitor::monitor::{
    plan_send, plan_shortcut_send, save_shortcut, NoticeKind, Schedule, SendOutcome,
};
use serial_monitor::utils::{hex_input_checked, HexInputError};

fn sent(outcome: Option<SendOutcome>) -> (Vec<u8>, String) {
    match outcome {
        Some(SendOutcome::Send(bytes, echo)) => (bytes, echo),
        _ => panic!("expected bytes to send"),
    }
}

#[test]
fn typed_text_is_encoded_and_echoed() {
    let (bytes, echo) = sent(plan_send("AT", false, "UTF-8", true));
    assert_eq!(bytes, vec![b'A', b'T', 13, 10]);
    assert_eq!(echo, "AT\n");
    let (bytes, echo) = sent(plan_send("中", false, "GB2312", false));
    assert_eq!(bytes, vec![0xD6, 0xD0]);
    assert_eq!(echo, "中");
}

#[test]
fn typed_empty_input_sends_nothing() {
    assert!(matches!(plan_send("", false, "UTF-8", true), Some(SendOutcome::Nothing)));
    assert!(matches!(plan_send("", true, "UTF-8", true), Some(SendOutcome::Nothing)));
}

#[test]
fn typed_hex_is_parsed_and_echoed_in_pairs() {
    let (bytes, echo) = sent(plan_send("01 02ff", true, "UTF-8", true));
    assert_eq!(bytes, vec![0x01, 0x02, 0xFF]);
    assert_eq!(echo, "发送: 01 02 ff\n");
}

#[test]
fn typed_hex_of_spaces_sends_nothing() {
    assert!(matches!(plan_send("   ", true, "UTF-8", false), Some(SendOutcome::Nothing)));
}

#[test]
fn typed_hex_refusals() {
    assert!(matches!(
        plan_send("123", true, "UTF-8", false),
        Some(SendOutcome::Refused(HexInputError::OddLength))
    ));
    assert!(matches!(
        plan_send("0x", true, "UTF-8", false),
        Some(SendOutcome::Refused(HexInputError::InvalidHex))
    ));
    assert_eq!(HexInputError::OddLength.message(), "发送错误: 十六进制字符串长度必须为偶数\n");
    assert_eq!(HexInputError::InvalidHex.message(), "发送错误: 无效的十六进制格式\n");
}

#[test]
fn hex_that_cuts_a_character_is_not_planned() {
    assert!(plan_send("a中", true, "UTF-8", false).is_none());
    assert!(hex_input_checked("a中").is_none());
    assert_eq!(hex_input_checked("é"), Some(Err(HexInputError::InvalidHex)));
    assert_eq!(hex_input_checked("a中b"), Some(Err(HexInputError::OddLength)));
}

#[test]
fn shortcut_text_is_utf8_with_prefix() {
    let (bytes, echo) = sent(plan_shortcut_send("AT+RST", false, true));
    assert_eq!(bytes, b"AT+RST\r\n".to_vec());
    assert_eq!(echo, "发送: AT+RST\n");
    let (bytes, echo) = sent(plan_shortcut_send("中", false, false));
    assert_eq!(bytes, vec![0xE4, 0xB8, 0xAD]);
    assert_eq!(echo, "发送: 中");
}

#[test]
fn shortcut_hex_and_empty() {
    let (bytes, echo) = sent(plan_shortcut_send("AA55", true, false));
    assert_eq!(bytes, vec![0xAA, 0x55]);
    assert_eq!(echo, "发送: AA 55");
    assert!(matches!(plan_shortcut_send("", false, false), Some(SendOutcome::Nothing)));
    let (bytes, _) = sent(plan_shortcut_send("", false, true));
    assert_eq!(bytes, vec![13, 10]);
}

#[test]
fn shortcuts_are_added_and_edited() {
    let mut shortcuts: Vec<(String, bool)> = Vec::new();
    assert!(save_shortcut(&mut shortcuts, None, "  AT  ", true));
    assert!(save_shortcut(&mut shortcuts, None, "AT+GMR", false));
    assert!(save_shortcut(&mut shortcuts, Some(0), "AT+RST\n", false));
    assert_eq!(
        shortcuts,
        vec![("AT+RST".to_string(), false), ("AT+GMR".to_string(), false)]
    );
}

#[test]
fn blank_shortcut_is_refused() {
    let mut shortcuts = vec![("AT".to_string(), true)];
    assert!(!save_shortcut(&mut shortcuts, None, " \t\n", true));
    assert!(!save_shortcut(&mut shortcuts, Some(0), "", true));
    assert_eq!(shortcuts, vec![("AT".to_string(), true)]);
}

#[test]
fn notice_kinds_and_titles() {
    assert_eq!(NoticeKind::of_message("更新成功，是否立即重启软件？"), NoticeKind::UpdateDone);
    assert_eq!(NoticeKind::of_message("当前已是最新版本: v1.2.6"), NoticeKind::UpToDate);
    assert_eq!(NoticeKind::of_message("更新失败: timeout"), NoticeKind::Error);
    assert_eq!(NoticeKind::UpdateDone.title(), "更新完成");
    assert_eq!(NoticeKind::UpToDate.title(), "更新提示");
    assert_eq!(NoticeKind::Error.title(), "错误提示");
}

#[test]
fn schedule_runs_periodic_work() {
    let mut s = Schedule::new();
    let d = s.tick(200, true);
    assert!(!d.check_update && !d.scan_ports && !d.heartbeat);
    let d = s.tick(500, true);
    assert!(d.scan_ports && !d.check_update);
    let d = s.tick(900, true);
    assert!(!d.scan_ports);
    let d = s.tick(1000, false);
    assert!(d.check_update && d.scan_ports);
    let d = s.tick(1600, false);
    assert!(!d.check_update);
    let d = s.tick(60000, false);
    assert!(!d.heartbeat);
    assert_eq!(s.last_heartbeat_ms, 60000);
    let d = s.tick(119999, true);
    assert!(!d.heartbeat);
    let d = s.tick(120000, true);
    assert!(d.heartbeat);
}

#[test]
fn hex_view_resends_the_same_bytes() {
    let bytes = vec![0x00, 0x41, 0xC3, 0xFF];
    let dump = serial_monitor::utils::format_hex(&bytes);
    let (sent_bytes, echo) = sent(plan_send(&dump, true, "UTF-8", false));
    assert_eq!(sent_bytes, bytes);
    assert_eq!(echo, "发送: 00 41 C3 FF");
}
