use serial_monitor::cloud::CloudManager;
use serial_monitor::dataflow::{ConnectionMode, DataflowManager};

fn connected_cloud(publish: &[&str]) -> CloudManager {
    let publ: Vec<String> = publish.iter().map(|s| s.to_string()).collect();
    let mut m = CloudManager::from_config("巴法云", "TCP", "uid", &Vec::new(), &publ, true);
    m.connected = true;
    m
}

#[test]
fn default_dataflow() {
    let d = DataflowManager::default();
    assert!(!d.enabled);
    assert_eq!(d.connection_mode, ConnectionMode::Direct);
}

#[test]
fn dataflow_from_config_keeps_settings() {
    let d = DataflowManager::from_config(true, ConnectionMode::AT);
    assert!(d.enabled);
    assert_eq!(d.connection_mode, ConnectionMode::AT);
}

#[test]
fn control_messages() {
    let d = DataflowManager::default();
    assert!(d.is_wifi_module_control_message("{\"topic\":\"a\",\"payload\":{}}"));
    assert!(!d.is_wifi_module_control_message("{\"topic\":\"a\"}"));
    assert!(!d.is_wifi_module_control_message(" {\"topic\":\"a\",\"payload\":1}"));
    assert!(!d.is_wifi_module_control_message(""));
}

#[test]
fn actual_data_is_the_message() {
    let d = DataflowManager::default();
    assert_eq!(d.extract_actual_data("abc 123"), "abc 123");
}

#[test]
fn topic_and_msg_from_serial_data() {
    let d = DataflowManager::default();
    let data = "cmd=2&topic=&topic= light &msg=on";
    assert_eq!(d.extract_topic_from_serial_data(data), Some("light".to_string()));
    assert_eq!(d.extract_msg_from_serial_data(data), Some("on".to_string()));
    assert_eq!(d.extract_topic_from_serial_data("topic=a&msg=b"), None);
    assert_eq!(d.extract_msg_from_serial_data("cmd=2&topic=a"), None);
}

#[test]
fn serial_to_cloud_publishes_msg() {
    let d = DataflowManager::from_config(true, ConnectionMode::Direct);
    let cloud = connected_cloud(&["light"]);
    assert_eq!(
        d.process_serial_to_cloud("  cmd=2&topic=light&msg=on \r\n", &cloud),
        Some("on".to_string())
    );
}

#[test]
fn serial_to_cloud_without_msg_publishes_whole_text() {
    let d = DataflowManager::from_config(true, ConnectionMode::Direct);
    let cloud = connected_cloud(&["light"]);
    assert_eq!(
        d.process_serial_to_cloud("cmd=2&topic=light", &cloud),
        Some("cmd=2&topic=light".to_string())
    );
}

#[test]
fn serial_to_cloud_refusals() {
    let d = DataflowManager::from_config(true, ConnectionMode::Direct);
    let cloud = connected_cloud(&["light"]);
    assert_eq!(d.process_serial_to_cloud("cmd=2&topic=fan&msg=on", &cloud), None);
    assert_eq!(d.process_serial_to_cloud("hello", &cloud), None);
    assert_eq!(d.process_serial_to_cloud("   ", &cloud), None);
    assert_eq!(
        d.process_serial_to_cloud("{\"topic\":\"light\",\"payload\":{}}", &cloud),
        None
    );
    let mut offline = connected_cloud(&["light"]);
    offline.connected = false;
    assert_eq!(d.process_serial_to_cloud("cmd=2&topic=light&msg=on", &offline), None);
}

#[test]
fn disabled_forwards_nothing() {
    let d = DataflowManager::from_config(false, ConnectionMode::Firmware);
    let cloud = connected_cloud(&["light"]);
    assert_eq!(d.process_serial_to_cloud("cmd=2&topic=light&msg=on", &cloud), None);
    assert_eq!(d.process_cloud_to_serial("cmd=2&uid=u&topic=light&msg=on", &cloud), None);
}

#[test]
fn cloud_to_serial_direct() {
    let d = DataflowManager::from_config(true, ConnectionMode::Direct);
    let cloud = connected_cloud(&[]);
    assert_eq!(d.process_cloud_to_serial("anything", &cloud), Some("anything".to_string()));
}

#[test]
fn cloud_to_serial_firmware() {
    let d = DataflowManager::from_config(true, ConnectionMode::Firmware);
    let cloud = connected_cloud(&[]);
    assert_eq!(
        d.process_cloud_to_serial("cmd=2&uid=u&topic=light&msg=on\r\n", &cloud),
        Some("{\"topic\":\"light\",\"payload\":{\"data\":\"on\"}}".to_string())
    );
    assert_eq!(d.process_cloud_to_serial("cmd=1&res=1", &cloud), None);
}

#[test]
fn cloud_to_serial_at() {
    let d = DataflowManager::from_config(true, ConnectionMode::AT);
    let cloud = connected_cloud(&[]);
    assert_eq!(
        d.process_cloud_to_serial("cmd=2&uid=u&topic=light&msg=on", &cloud),
        Some("AT+SEND=on\r\n".to_string())
    );
    assert_eq!(d.process_cloud_to_serial("cmd=2&uid=u&topic=light", &cloud), None);
}
