use serial_monitor::config::{shortcut_entries, AppConfig, WindowField};

fn strings(items: &[&str]) -> Vec<String> {
    items.iter().map(|s| s.to_string()).collect()
}

#[test]
fn default_settings() {
    let c = AppConfig::default();
    assert_eq!(c.selected_port, None);
    assert_eq!(c.baud_rate, 115200);
    assert_eq!(c.data_bits, 8);
    assert_eq!(c.parity, 0);
    assert_eq!(c.stop_bits, 1);
    assert_eq!(c.display_mode, "UTF8");
    assert_eq!(c.receive_encoding, "UTF-8");
    assert!(c.should_auto_scroll);
    assert_eq!(c.send_encoding, "UTF-8");
    assert!(!c.send_newline);
    assert!(!c.is_dark_mode);
    assert!(!c.show_settings_panel);
    assert!(!c.use_cloud_communication);
    assert_eq!(c.cloud_service, "巴法云");
    assert_eq!(c.cloud_protocol, "TCP");
    assert_eq!(c.cloud_uid, "");
    assert!(c.cloud_subscribe_topics.is_empty());
    assert!(c.cloud_publish_topics.is_empty());
    assert!(c.show_cloud_debug_info);
    assert!(c.dataflow_enabled);
    assert!(!c.use_dedicated_firmware);
    assert!(c.shortcuts.is_empty());
    assert!(c.window_settings.is_empty());
}

#[test]
fn from_text_reads_settings() {
    let text = "# settings\n\
                selected_port = \"COM3\"\n\
                baud_rate = 9600\r\n\
                data_bits = 7\n\
                parity = 2\n\
                stop_bits = 2\n\
                display_mode = \"Hex\"\n\
                receive_encoding = \"GB2312\"\n\
                should_auto_scroll = false\n\
                send_newline = true\n\
                is_dark_mode = true\n\
                cloud_uid = \"abc123\"\n\
                cloud_subscribe_topics = \"t1, t2\"\n\
                cloud_publish_topics = \"p1\"\n\
                dataflow_enabled = false\n\
                window_width = 800.5\n";
    let c = AppConfig::from_text(text);
    assert_eq!(c.selected_port, Some("COM3".to_string()));
    assert_eq!(c.baud_rate, 9600);
    assert_eq!(c.data_bits, 7);
    assert_eq!(c.parity, 2);
    assert_eq!(c.stop_bits, 2);
    assert_eq!(c.display_mode, "Hex");
    assert_eq!(c.receive_encoding, "GB2312");
    assert!(!c.should_auto_scroll);
    assert!(c.send_newline);
    assert!(c.is_dark_mode);
    assert_eq!(c.cloud_uid, "abc123");
    assert_eq!(c.cloud_subscribe_topics, strings(&["t1", "t2"]));
    assert_eq!(c.cloud_publish_topics, strings(&["p1"]));
    assert!(!c.dataflow_enabled);
    assert_eq!(c.window_settings, vec![(WindowField::Width, "800.5".to_string())]);
    assert_eq!(c.send_encoding, "UTF-8");
}

#[test]
fn from_text_ignores_bad_values() {
    let c = AppConfig::from_text("baud_rate = fast\ndata_bits = 300\nis_dark_mode = yes\nnonsense\nunknown = 1\n");
    assert_eq!(c.baud_rate, 115200);
    assert_eq!(c.data_bits, 8);
    assert!(!c.is_dark_mode);
}

#[test]
fn from_text_port_none() {
    let c = AppConfig::from_text("selected_port = \"COM1\"\nselected_port = None\n");
    assert_eq!(c.selected_port, None);
}

#[test]
fn from_text_old_single_topic_keys() {
    let c = AppConfig::from_text("cloud_subscribe_topic = \"old\"\ncloud_publish_topic = \"\"\n");
    assert_eq!(c.cloud_subscribe_topics, strings(&["old"]));
    assert!(c.cloud_publish_topics.is_empty());
}

#[test]
fn from_text_shortcuts_array() {
    let c = AppConfig::from_text("shortcuts = [\"AT\", \"AT+RST\", \"a,b\"]\n");
    assert_eq!(c.shortcuts, strings(&["AT", "AT+RST", "a,b"]));
}

#[test]
fn from_text_shortcuts_list() {
    let c = AppConfig::from_text("shortcuts = AT, , AT+GMR\n");
    assert_eq!(c.shortcuts, strings(&["AT", "AT+GMR"]));
}

#[test]
fn to_text_writes_every_setting() {
    let c = AppConfig::default();
    let text = c.to_text();
    let lines: Vec<&str> = text.lines().collect();
    assert_eq!(lines.len(), 22);
    assert_eq!(lines[0], "selected_port = None");
    assert_eq!(lines[1], "baud_rate = 115200");
    assert_eq!(lines[5], "display_mode = \"UTF8\"");
    assert_eq!(lines[7], "should_auto_scroll = true");
    assert_eq!(lines[13], "cloud_service = \"巴法云\"");
    assert_eq!(lines[16], "cloud_subscribe_topics = \"\"");
    assert_eq!(lines[21], "shortcuts = []");
    assert!(text.ends_with('\n'));
}

#[test]
fn settings_round_trip() {
    let mut c = AppConfig::default();
    c.selected_port = Some("/dev/ttyUSB0".to_string());
    c.baud_rate = 57600;
    c.display_mode = "Binary".to_string();
    c.cloud_uid = "uid-1".to_string();
    c.cloud_subscribe_topics = strings(&["a", "b"]);
    c.cloud_publish_topics = strings(&["c"]);
    c.shortcuts = strings(&["AT", "AT+CWMODE=1"]);
    c.use_dedicated_firmware = true;
    let back = AppConfig::from_text(&c.to_text());
    assert_eq!(back.selected_port, c.selected_port);
    assert_eq!(back.baud_rate, 57600);
    assert_eq!(back.display_mode, "Binary");
    assert_eq!(back.cloud_uid, "uid-1");
    assert_eq!(back.cloud_subscribe_topics, c.cloud_subscribe_topics);
    assert_eq!(back.cloud_publish_topics, c.cloud_publish_topics);
    assert_eq!(back.shortcuts, c.shortcuts);
    assert!(back.use_dedicated_firmware);
}

#[test]
fn empty_topic_list_reads_back_as_one_empty_topic() {
    let back = AppConfig::from_text(&AppConfig::default().to_text());
    assert_eq!(back.cloud_subscribe_topics, strings(&[""]));
}

#[test]
fn shortcut_entries_drop_empty_commands() {
    let entries = shortcut_entries(&strings(&["AT", "", "AT+RST"]));
    assert_eq!(entries, vec![("AT".to_string(), true), ("AT+RST".to_string(), true)]);
}

#[test]
fn empty_file_gives_defaults() {
    let c = AppConfig::from_text("");
    let d = AppConfig::default();
    assert_eq!(c.to_text(), d.to_text());
    assert!(c.window_settings.is_empty());
}

#[test]
fn window_lines_kept_in_order() {
    let c = AppConfig::from_text("window_x = null\nwindow_height = 480\nwindow_x = 12.5\n");
    assert_eq!(
        c.window_settings,
        vec![
            (WindowField::X, "null".to_string()),
            (WindowField::Height, "480".to_string()),
            (WindowField::X, "12.5".to_string())
        ]
    );
}

#[test]
fn ignorable_lines_change_nothing() {
    let base = "baud_rate = 9600\ncloud_uid = \"abc\"\nwindow_x = 3\n";
    let noisy = "\n# comment\nbaud_rate = 9600\nno equals sign here\ncolor = blue\n   \ncloud_uid = \"abc\"\n  # cloud_uid = \"x\"\nwindow_x = 3\nunknown_key=1\n";
    let a = AppConfig::from_text(base);
    let b = AppConfig::from_text(noisy);
    assert_eq!(a.to_text(), b.to_text());
    assert_eq!(a.window_settings, b.window_settings);
    assert_eq!(b.baud_rate, 9600);
    assert_eq!(b.cloud_uid, "abc");
}

#[test]
fn plain_settings_round_trip_exactly() {
    let mut c = AppConfig::default();
    c.cloud_subscribe_topics = strings(&["t1"]);
    c.cloud_publish_topics = strings(&["t2", "t3"]);
    c.shortcuts = strings(&["AT+CIPSEND=4"]);
    c.cloud_uid = "0123abcd".to_string();
    let text = c.to_text();
    assert!(text.contains("cloud_uid = \"0123abcd\"\n"));
    assert!(text.contains("cloud_publish_topics = \"t2, t3\"\n"));
    assert!(text.contains("shortcuts = [\"AT+CIPSEND=4\"]\n"));
    let back = AppConfig::from_text(&text);
    assert_eq!(back.to_text(), text);
    assert_eq!(back.cloud_publish_topics, c.cloud_publish_topics);
}
