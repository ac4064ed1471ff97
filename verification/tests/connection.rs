use glove_host::connection::{
    labels_of, list_ports, Connection, ConnectionError, PortDescriptor, PortKind, READ_TIMEOUT_MS,
};

fn open(connection: &mut Connection) {
    connection.prepare_open("/dev/ttyUSB0", 115_200).unwrap();
    connection.complete_open("/dev/ttyUSB0", Ok(())).unwrap();
}

#[test]
fn starts_disconnected() {
    let connection = Connection::new();
    assert!(!connection.is_connected());
    assert!(!connection.is_reading());
}

#[test]
fn open_connects_and_starts_reading() {
    let mut connection = Connection::new();
    let request = connection.prepare_open("/dev/ttyUSB0", 115_200).unwrap();
    assert_eq!(request.port_name, "/dev/ttyUSB0");
    assert_eq!(request.baud_rate, 115_200);
    assert_eq!(request.timeout_ms, READ_TIMEOUT_MS);
    assert_eq!(request.timeout_ms, 100);
    assert!(connection.complete_open("/dev/ttyUSB0", Ok(())).is_ok());
    assert!(connection.is_connected());
    assert!(connection.is_reading());
}

#[test]
fn open_is_rejected_while_connected() {
    let mut connection = Connection::new();
    open(&mut connection);
    let again = connection.prepare_open("/dev/ttyUSB1", 9600);
    assert!(matches!(again, Err(ConnectionError::AlreadyConnected)));
    assert_eq!(again.unwrap_err().message(), "Already connected to a port");
    let late = connection.complete_open("/dev/ttyUSB1", Ok(()));
    assert!(matches!(late, Err(ConnectionError::AlreadyConnected)));
    assert!(connection.is_connected());
}

#[test]
fn failed_open_reports_reason_and_changes_nothing() {
    let mut connection = Connection::new();
    let result = connection.complete_open("COM7", Err("access denied".to_string()));
    match result {
        Err(error) => {
            assert_eq!(error.message(), "Failed to open port COM7: access denied");
            assert!(matches!(error, ConnectionError::DeviceOpen { .. }));
        }
        Ok(()) => panic!("open should have failed"),
    }
    assert!(!connection.is_connected());
    assert!(!connection.is_reading());
}

#[test]
fn pause_and_resume_are_idempotent() {
    let mut connection = Connection::new();
    open(&mut connection);
    connection.pause();
    assert!(connection.is_connected());
    assert!(!connection.is_reading());
    connection.pause();
    assert!(connection.is_connected());
    assert!(!connection.is_reading());
    connection.resume();
    assert!(connection.is_reading());
    connection.resume();
    assert!(connection.is_reading());
    assert!(connection.is_connected());
}

#[test]
fn pause_and_resume_do_nothing_when_disconnected() {
    let mut connection = Connection::new();
    connection.resume();
    assert!(!connection.is_connected());
    assert!(!connection.is_reading());
    connection.pause();
    assert!(!connection.is_connected());
    assert!(!connection.is_reading());
}

#[test]
fn close_is_idempotent() {
    let mut connection = Connection::new();
    assert!(!connection.close());
    assert!(!connection.is_connected());
    open(&mut connection);
    assert!(connection.close());
    assert!(!connection.is_connected());
    assert!(!connection.is_reading());
    assert!(!connection.close());
    assert!(!connection.is_connected());
    assert!(!connection.is_reading());
}

#[test]
fn reopen_after_close() {
    let mut connection = Connection::new();
    open(&mut connection);
    connection.pause();
    connection.close();
    open(&mut connection);
    assert!(connection.is_connected());
    assert!(connection.is_reading());
}

fn port(name: &str, kind: PortKind, usb_product: Option<&str>) -> PortDescriptor {
    PortDescriptor {
        name: name.to_string(),
        kind,
        usb_product: usb_product.map(|product| product.to_string()),
    }
}

#[test]
fn listing_hands_back_the_descriptors() {
    let ports = vec![
        port("COM3", PortKind::Usb, Some("Arduino Uno")),
        port("COM4", PortKind::Usb, None),
        port("COM1", PortKind::Other, None),
    ];
    let listed = list_ports(Ok(ports.clone())).unwrap();
    assert_eq!(listed, ports);
    assert_eq!(listed.len(), 3);
    assert_eq!(listed[0].name, "COM3");
    assert_eq!(listed[0].kind, PortKind::Usb);
    assert_eq!(listed[0].usb_product.as_deref(), Some("Arduino Uno"));
    assert_eq!(listed[1].name, "COM4");
    assert_eq!(listed[1].kind, PortKind::Usb);
    assert_eq!(listed[1].usb_product, None);
    assert_eq!(listed[2].name, "COM1");
    assert_eq!(listed[2].kind, PortKind::Other);
    assert_eq!(listed[2].usb_product, None);
}

#[test]
fn listing_keeps_apart_what_labels_confuse() {
    let without_product = vec![port("COM4", PortKind::Usb, None)];
    let named_unknown = vec![port("COM4", PortKind::Usb, Some("Unknown"))];
    assert_eq!(labels_of(&without_product), labels_of(&named_unknown));
    assert_ne!(
        list_ports(Ok(without_product)).unwrap(),
        list_ports(Ok(named_unknown)).unwrap()
    );
    let other = vec![port("A (USB: B)", PortKind::Other, None)];
    let usb = vec![port("A", PortKind::Usb, Some("B"))];
    assert_eq!(labels_of(&other), labels_of(&usb));
    assert_ne!(list_ports(Ok(other)).unwrap(), list_ports(Ok(usb)).unwrap());
}

#[test]
fn listing_keeps_order_and_count() {
    let ports: Vec<PortDescriptor> = (0..20)
        .map(|i| {
            let name = format!("/dev/ttyUSB{}", 19 - i);
            if i % 3 == 0 {
                port(&name, PortKind::Other, None)
            } else {
                port(&name, PortKind::Usb, Some("Glove"))
            }
        })
        .collect();
    assert_eq!(list_ports(Ok(ports.clone())).unwrap(), ports);
    assert!(list_ports(Ok(Vec::new())).unwrap().is_empty());
}

#[test]
fn ports_are_labelled() {
    let ports = vec![
        port("/dev/ttyACM0", PortKind::Usb, Some("Arduino Nano")),
        port("/dev/ttyUSB3", PortKind::Usb, None),
        port("/dev/ttyS0", PortKind::Other, None),
        port("COM1", PortKind::Other, Some("ignored")),
    ];
    assert_eq!(
        labels_of(&ports),
        vec!["/dev/ttyACM0 (USB: Arduino Nano)", "/dev/ttyUSB3 (USB: Unknown)", "/dev/ttyS0", "COM1"]
    );
    assert_eq!(ports[0].label(), "/dev/ttyACM0 (USB: Arduino Nano)");
    assert!(labels_of(&Vec::new()).is_empty());
}

#[test]
fn failed_enumeration_is_reported() {
    match list_ports(Err("permission denied".to_string())) {
        Err(error) => {
            assert!(matches!(error, ConnectionError::Enumeration { .. }));
            assert_eq!(error.message(), "Failed to list ports: permission denied");
        }
        Ok(_) => panic!("enumeration should have failed"),
    }
}
