use serial_monitor::data::{get_epoch_ms, Packet, SerialDirection};
use serial_monitor::serial::{
    clear_serial_settings, contains_name, ConnectionManager, ConnectionState, DataBits, Device,
    Disconnect, FlowControl, Level, Parity, SerialDevices, Step, StopBits,
};

fn device(name: &str, baud_rate: u32) -> Device {
    let mut device = Device::default();
    device.name = name.to_string();
    device.baud_rate = baud_rate;
    device
}

fn ports(names: &[&str]) -> Vec<String> {
    names.iter().map(|n| n.to_string()).collect()
}

fn connected(name: &str, at: u128) -> ConnectionManager {
    let mut manager = ConnectionManager::new();
    assert_eq!(manager.poll(&ports(&[name]), &device(name, 115_200)), Step::Open { restore: false });
    manager.opened(at);
    manager
}

#[test]
fn default_device() {
    let device = Device::default();
    assert_eq!(device.name, "");
    assert_eq!(device.baud_rate, 9600);
    assert_eq!(device.data_bits, DataBits::Eight);
    assert_eq!(device.flow_control, FlowControl::Off);
    assert_eq!(device.parity, Parity::Off);
    assert_eq!(device.stop_bits, StopBits::One);
    assert_eq!(device.timeout_ms, 0);
}

#[test]
fn waits_until_the_device_is_there() {
    let mut manager = ConnectionManager::new();
    assert_eq!(manager.state(), ConnectionState::Disconnected);
    assert_eq!(manager.poll(&ports(&["COM1"]), &device("COM3", 9600)), Step::Wait);
    assert_eq!(manager.poll(&ports(&[]), &device("", 9600)), Step::Wait);
    assert_eq!(manager.state(), ConnectionState::Disconnected);
    assert_eq!(
        manager.poll(&ports(&["COM1", "COM3"]), &device("COM3", 57_600)),
        Step::Open { restore: false }
    );
    assert_eq!(manager.state(), ConnectionState::Connecting);
    assert_eq!(manager.device().name, "COM3");
    assert_eq!(manager.device().baud_rate, 57_600);
    manager.opened(1000);
    assert_eq!(manager.state(), ConnectionState::Connected);
    assert_eq!(manager.poll(&ports(&["COM1", "COM3"]), &device("COM3", 57_600)), Step::Transfer);
}

#[test]
fn failed_open_goes_back_to_disconnected() {
    let mut manager = ConnectionManager::new();
    manager.poll(&ports(&["COM3"]), &device("COM3", 9600));
    manager.open_failed();
    assert_eq!(manager.state(), ConnectionState::Disconnected);
    assert_eq!(
        manager.poll(&ports(&["COM3"]), &device("COM3", 9600)),
        Step::Open { restore: false }
    );
}

#[test]
fn disconnect_classification() {
    let mut manager = connected("COM3", 0);
    let step = manager.poll(&ports(&["COM1"]), &device("COM3", 115_200));
    assert_eq!(step, Step::Close(Disconnect::Lost));
    assert_eq!(manager.state(), ConnectionState::Disconnected);
    let notice = Disconnect::Lost.notice("COM3");
    assert_eq!(notice.level, Level::Error);
    assert_eq!(notice.text, "Device has disconnected from serial port: COM3");

    let mut manager = connected("COM3", 0);
    let step = manager.poll(&ports(&["COM1", "COM3"]), &device("", 115_200));
    assert_eq!(step, Step::Close(Disconnect::Requested));
    assert_eq!(manager.state(), ConnectionState::Disconnected);
    let notice = Disconnect::Requested.notice("COM3");
    assert_eq!(notice.level, Level::Info);
    assert_eq!(notice.text, "Disconnected from serial port: COM3");
}

#[test]
fn request_comes_before_loss() {
    let mut manager = connected("COM3", 0);
    assert_eq!(
        manager.poll(&ports(&[]), &device("COM4", 9600)),
        Step::Close(Disconnect::Requested)
    );
}

#[test]
fn lost_device_is_taken_up_again() {
    let mut manager = connected("COM3", 0);
    manager.poll(&ports(&[]), &device("COM3", 115_200));
    assert_eq!(manager.poll(&ports(&["COM1"]), &device("", 9600)), Step::Wait);
    assert_eq!(manager.poll(&ports(&["COM3"]), &device("", 9600)), Step::Open { restore: true });
    assert_eq!(manager.device().name, "COM3");
    assert_eq!(manager.device().baud_rate, 115_200);
}

#[test]
fn after_a_request_nothing_is_taken_up_again() {
    let mut manager = connected("COM3", 0);
    manager.poll(&ports(&["COM3"]), &device("", 9600));
    assert_eq!(manager.poll(&ports(&["COM3"]), &device("", 9600)), Step::Wait);
}

#[test]
fn failed_read_loses_the_connection() {
    let mut manager = connected("COM3", 0);
    manager.received(b"half a line", 1, 1);
    assert_eq!(manager.read_failed(), Disconnect::Lost);
    assert_eq!(manager.state(), ConnectionState::Disconnected);
    assert_eq!(manager.poll(&ports(&["COM3"]), &device("", 9600)), Step::Open { restore: true });
    manager.opened(50);
    let packets = manager.received(b"x\r\n", 51, 51);
    assert_eq!(packets[0].payload, "x");
}

#[test]
fn received_lines_become_packets() {
    let mut manager = connected("COM3", 1000);
    let packets = manager.received(b"1,2\r\n3,", 1250, 1_700_000_000_000);
    assert_eq!(packets.len(), 1);
    assert_eq!(packets[0].payload, "1,2");
    assert_eq!(packets[0].relative_time, 250);
    assert_eq!(packets[0].absolute_time, 1_700_000_000_000);
    assert_eq!(packets[0].direction, SerialDirection::Receive);
    let packets = manager.received(b"4\r\n\r\n", 1300, 1_700_000_000_050);
    assert_eq!(packets.len(), 2);
    assert_eq!(packets[0].payload, "3,4");
    assert_eq!(packets[0].relative_time, 300);
    assert_eq!(packets[1].payload, "");
}

#[test]
fn lines_that_are_no_text_are_dropped() {
    let mut manager = connected("COM3", 0);
    let packets = manager.received(b"ok\r\n\xff\xfe\r\ngr\xc3\xbc\xc3\x9f\r\n", 1, 1);
    let payloads: Vec<&str> = packets.iter().map(|p| p.payload.as_str()).collect();
    assert_eq!(payloads, vec!["ok", "grüß"]);
}

#[test]
fn sent_commands_become_packets() {
    let manager = connected("COM3", 1000);
    let packet = manager.sent("start".to_string(), 1500, 77);
    assert_eq!(packet.payload, "start");
    assert_eq!(packet.relative_time, 500);
    assert_eq!(packet.absolute_time, 77);
    assert_eq!(packet.direction, SerialDirection::Send);
}

#[test]
fn reconnect_time_origin_reset() {
    let mut manager = connected("COM3", 1_000);
    let first = manager.received(b"a\r\n", 61_000, 1);
    assert_eq!(first[0].relative_time, 60_000);
    manager.poll(&ports(&[]), &device("COM3", 115_200));
    assert_eq!(manager.state(), ConnectionState::Disconnected);
    manager.poll(&ports(&["COM3"]), &device("COM3", 115_200));
    manager.opened(70_000);
    assert_eq!(manager.relative_time(70_000), 0);
    let second = manager.received(b"b\r\n", 70_004, 2);
    assert_eq!(second[0].relative_time, 4);
    assert!(second[0].relative_time < first[0].relative_time);
}

#[test]
fn clock_that_went_back_gives_zero() {
    let manager = connected("COM3", 1_000);
    assert_eq!(manager.relative_time(900), 0);
}

#[test]
fn names_are_found_in_the_list() {
    let list = ports(&["a", "b"]);
    assert!(contains_name(&list, &"b".to_string()));
    assert!(!contains_name(&list, &"c".to_string()));
    assert!(!contains_name(&Vec::new(), &"".to_string()));
}

#[test]
fn default_packet() {
    let before = get_epoch_ms();
    let packet = Packet::default();
    assert_eq!(packet.relative_time, 0);
    assert_eq!(packet.direction, SerialDirection::Send);
    assert_eq!(packet.payload, "");
    assert!(packet.absolute_time >= before);
    assert!(before > 1_600_000_000_000);
    assert_eq!(packet.clone().payload, "");
}

#[test]
fn direction_labels() {
    assert_eq!(SerialDirection::Send.to_string(), "SEND");
    assert_eq!(SerialDirection::Receive.to_string(), "RECV");
}

#[test]
fn cleared_settings_hold_one_default_device() {
    let list = clear_serial_settings();
    assert_eq!(list.devices.len(), 1);
    assert_eq!(list.devices[0].name, "");
    assert_eq!(list.devices[0].baud_rate, 9600);
    assert_eq!(list.labels, vec![vec!["Column 0".to_string()]]);
    assert_eq!(list.highlight_labels, vec![vec!["".to_string()]]);
    assert_eq!(list.number_of_plots, vec![1]);
    assert_eq!(list.number_of_highlights, vec![1]);
}

#[test]
fn known_device_is_found_and_new_one_added() {
    let mut list = SerialDevices::default();
    assert_eq!(list.select(&"COM3".to_string()), 1);
    assert_eq!(list.devices.len(), 2);
    assert_eq!(list.devices[1].name, "COM3");
    assert_eq!(list.devices[1].baud_rate, 9600);
    assert_eq!(list.labels[1], vec!["Column 0"]);
    assert_eq!(list.number_of_plots, vec![1, 1]);
    list.devices[1].baud_rate = 115_200;
    assert_eq!(list.select(&"COM3".to_string()), 1);
    assert_eq!(list.devices.len(), 2);
    assert_eq!(list.devices[1].baud_rate, 115_200);
    assert_eq!(list.select(&"".to_string()), 0);
    assert_eq!(list.select(&"COM4".to_string()), 2);
    assert_eq!(list.highlight_labels.len(), 3);
}
