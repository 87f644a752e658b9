use serial_monitor::cloud::{CloudManager, ConnectError, TopicError};

fn manager(uid: &str, subscribe: &[&str], publish: &[&str]) -> CloudManager {
    let sub: Vec<String> = subscribe.iter().map(|s| s.to_string()).collect();
    let publ: Vec<String> = publish.iter().map(|s| s.to_string()).collect();
    CloudManager::from_config("巴法云", "TCP", uid, &sub, &publ, true)
}

#[test]
fn default_manager() {
    let m = CloudManager::default();
    assert!(!m.connected);
    assert_eq!(m.service, "巴法云");
    assert_eq!(m.protocol, "TCP");
    assert_eq!(m.uid, "");
    assert!(m.subscribe_topics.is_empty());
    assert!(m.publish_topics.is_empty());
    assert!(m.show_debug_info);
}

#[test]
fn cloud_from_config_keeps_settings() {
    let m = manager("key", &["a"], &["b", "c"]);
    assert!(!m.connected);
    assert_eq!(m.uid, "key");
    assert_eq!(m.subscribe_topics, vec!["a".to_string()]);
    assert_eq!(m.publish_topics, vec!["b".to_string(), "c".to_string()]);
}

#[test]
fn connect_settings_accepted() {
    assert_eq!(manager("key", &[], &[]).check_connect_settings(), Ok(()));
}

#[test]
fn connect_settings_errors() {
    let mut m = manager("key", &[], &[]);
    m.service = "OneNET".to_string();
    assert_eq!(m.check_connect_settings(), Err(ConnectError::UnsupportedService));
    let mut m = manager("key", &[], &[]);
    m.protocol = "MQTT".to_string();
    assert_eq!(m.check_connect_settings(), Err(ConnectError::UnsupportedProtocol));
    let m = manager("", &[], &[]);
    assert_eq!(m.check_connect_settings(), Err(ConnectError::MissingUid));
}

#[test]
fn connect_error_messages() {
    assert_eq!(ConnectError::UnsupportedService.message(), "当前仅支持巴法云连接");
    assert_eq!(ConnectError::UnsupportedProtocol.message(), "当前仅支持TCP协议连接");
    assert_eq!(ConnectError::MissingUid.message(), "请输入云端私钥(UID)");
}

#[test]
fn subscribe_commands_skip_empty_topics() {
    let m = manager("abc", &["t1", "", "t2"], &[]);
    assert_eq!(
        m.subscribe_commands(),
        vec!["cmd=1&uid=abc&topic=t1\r\n".to_string(), "cmd=1&uid=abc&topic=t2\r\n".to_string()]
    );
}

#[test]
fn publish_commands_for_each_topic() {
    let m = manager("abc", &[], &["p1", "p2"]);
    assert_eq!(
        m.publish_commands("hi"),
        vec![
            "cmd=2&uid=abc&topic=p1&msg=hi\r\n".to_string(),
            "cmd=2&uid=abc&topic=p2&msg=hi\r\n".to_string()
        ]
    );
    assert!(manager("abc", &[], &[]).publish_commands("hi").is_empty());
}

#[test]
fn heartbeat_is_ping() {
    assert_eq!(CloudManager::heartbeat_command(), "ping\r\n");
}

#[test]
fn message_from_response() {
    let m = CloudManager::default();
    assert_eq!(
        m.extract_message_from_response("cmd=2&uid=abc&topic=t1&msg=hello\r\n"),
        Some(("t1".to_string(), "hello".to_string()))
    );
    assert_eq!(
        m.extract_message_from_response("cmd=2&topic=a&topic= b &msg=x"),
        Some(("b".to_string(), "x".to_string()))
    );
}

#[test]
fn message_from_response_refusals() {
    let m = CloudManager::default();
    assert_eq!(m.extract_message_from_response("cmd=1&res=1"), None);
    assert_eq!(m.extract_message_from_response("cmd=2&uid=abc&topic=t1&msg="), None);
    assert_eq!(m.extract_message_from_response("cmd=2&uid=abc&msg=x"), None);
    assert_eq!(m.extract_message_from_response("ping"), None);
}

#[test]
fn add_subscribe_topic_outcomes() {
    let mut m = manager("k", &[], &["pub"]);
    assert_eq!(m.add_subscribe_topic("  news  "), Ok(true));
    assert_eq!(m.subscribe_topics, vec!["news".to_string()]);
    assert_eq!(m.add_subscribe_topic("news"), Ok(false));
    assert_eq!(m.add_subscribe_topic("   "), Err(TopicError::Empty));
    assert_eq!(m.add_subscribe_topic("a b"), Err(TopicError::HasSeparator));
    assert_eq!(m.add_subscribe_topic("pub"), Err(TopicError::InOtherList));
    assert_eq!(m.subscribe_topics, vec!["news".to_string()]);
    assert_eq!(m.publish_topics, vec!["pub".to_string()]);
}

#[test]
fn add_publish_topic_outcomes() {
    let mut m = manager("k", &["sub"], &[]);
    assert_eq!(m.add_publish_topic("out"), Ok(true));
    assert_eq!(m.add_publish_topic("sub"), Err(TopicError::InOtherList));
    assert_eq!(m.add_publish_topic("x\ry"), Err(TopicError::HasSeparator));
    assert_eq!(m.publish_topics, vec!["out".to_string()]);
}

#[test]
fn topic_lists_stay_apart() {
    let mut m = manager("k", &[], &[]);
    assert_eq!(m.add_subscribe_topic("t"), Ok(true));
    assert_eq!(m.add_publish_topic("t"), Err(TopicError::InOtherList));
    assert!(m.publish_topics.is_empty());
}

#[test]
fn remove_topics() {
    let mut m = manager("k", &["a", "b", "c"], &["x", "y"]);
    m.remove_subscribe_topic(1);
    assert_eq!(m.subscribe_topics, vec!["a".to_string(), "c".to_string()]);
    m.remove_publish_topic(0);
    assert_eq!(m.publish_topics, vec!["y".to_string()]);
}

#[test]
fn disconnect_keeps_settings() {
    let mut m = manager("k", &["a"], &["b"]);
    m.connected = true;
    m.disconnect();
    assert!(!m.connected);
    assert_eq!(m.uid, "k");
    assert_eq!(m.subscribe_topics, vec!["a".to_string()]);
}

#[test]
fn topic_error_messages() {
    assert_eq!(TopicError::Empty.message(true, " "), "订阅主题不能为空");
    assert_eq!(TopicError::HasSeparator.message(false, "a b"), "上传主题不能包含空格、回车或换行符");
    assert_eq!(
        TopicError::InOtherList.message(true, "  lamp "),
        "订阅主题 'lamp' 已存在于上传主题列表中，不能重复添加"
    );
    assert_eq!(
        TopicError::InOtherList.message(false, "fan"),
        "上传主题 'fan' 已存在于订阅主题列表中，不能重复添加"
    );
}

#[test]
fn removing_topics_keeps_lists_apart() {
    let mut m = manager("k", &["a", "b"], &["c"]);
    m.remove_subscribe_topic(0);
    assert_eq!(m.add_subscribe_topic("a"), Ok(true));
    assert_eq!(m.add_publish_topic("a"), Err(TopicError::InOtherList));
    m.remove_publish_topic(0);
    assert_eq!(m.add_subscribe_topic("c"), Ok(true));
    assert_eq!(m.subscribe_topics, vec!["b".to_string(), "a".to_string(), "c".to_string()]);
}
