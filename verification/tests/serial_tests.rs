use serial_monitor::serial::{port_base_name, scan_ports, PortInfo};

fn port(name: &str, ids: Option<(u16, u16)>) -> PortInfo {
    PortInfo { port_name: name.to_string(), usb_ids: ids }
}

#[test]
fn ch340_ports_are_marked() {
    let ports = vec![
        port("COM1", None),
        port("COM3", Some((0x1A86, 0x7523))),
        port("COM4", Some((0x4348, 0x5523))),
        port("COM5", Some((0x0403, 0x6001))),
    ];
    let scan = scan_ports(&ports, Some("COM1".to_string()));
    assert_eq!(
        scan.available_ports,
        vec![
            "COM1".to_string(),
            "COM3\t(CH340)".to_string(),
            "COM4\t(CH340)".to_string(),
            "COM5".to_string()
        ]
    );
}

#[test]
fn ch340_preferred_over_other_selection() {
    let ports = vec![port("COM1", None), port("COM3", Some((0x1A86, 0x7523)))];
    let scan = scan_ports(&ports, Some("COM1".to_string()));
    assert_eq!(scan.selected_port, Some("COM3\t(CH340)".to_string()));
    let scan = scan_ports(&ports, None);
    assert_eq!(scan.selected_port, Some("COM3\t(CH340)".to_string()));
}

#[test]
fn selection_kept_without_ch340() {
    let ports = vec![port("COM1", None), port("COM2", None)];
    let scan = scan_ports(&ports, Some("COM2".to_string()));
    assert_eq!(scan.selected_port, Some("COM2".to_string()));
    let scan = scan_ports(&ports, None);
    assert_eq!(scan.selected_port, None);
}

#[test]
fn selection_matched_by_base_name() {
    let ports = vec![port("COM7", None)];
    let scan = scan_ports(&ports, Some("COM7\t(CH340)".to_string()));
    assert_eq!(scan.selected_port, Some("COM7".to_string()));
}

#[test]
fn missing_selection_kept() {
    let ports = vec![port("COM1", None)];
    let scan = scan_ports(&ports, Some("COM9".to_string()));
    assert_eq!(scan.selected_port, Some("COM9".to_string()));
    let scan = scan_ports(&Vec::new(), Some("COM9".to_string()));
    assert!(scan.available_ports.is_empty());
    assert_eq!(scan.selected_port, Some("COM9".to_string()));
}

#[test]
fn base_names() {
    assert_eq!(port_base_name("COM3\t(CH340)"), "COM3");
    assert_eq!(port_base_name("/dev/ttyUSB0"), "/dev/ttyUSB0");
    assert_eq!(port_base_name(""), "");
}
