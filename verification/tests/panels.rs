use serial_commander::link::{LinkAction, LinkEvent, SerialLink};
use serial_commander::message::{FromSerial, ToSerial};
use serial_commander::panel::{App, Frequency, PortInfo, PortKind, MAX_BAUD, MIN_BAUD};

fn port(name: &str, kind: PortKind) -> PortInfo {
    PortInfo { name: name.to_string(), kind }
}

fn usb(name: &str, manufacturer: Option<&str>, product: Option<&str>) -> PortInfo {
    let kind = PortKind::Usb {
        manufacturer: manufacturer.map(|s| s.to_string()),
        product: product.map(|s| s.to_string()),
    };
    port(name, kind)
}

fn three() -> App {
    App::new(Ok(vec![
        usb("COM3", Some("ACME"), None),
        port("COM9", PortKind::Unknown),
        port("COM1", PortKind::Pci),
        port("COM7", PortKind::Bluetooth),
    ]))
}

fn status(text: &str) -> FromSerial {
    FromSerial::Status(text.to_string())
}

fn entered(v: f32) -> Result<Frequency, String> {
    Ok(Frequency { bits: v.to_bits(), shown: v.to_string() })
}

#[test]
fn a_new_panel() {
    let app = three();
    assert_eq!(app.status_line(), "Status: Found 3 ports");
    assert_eq!(app.baud(), 115_200);
    assert_eq!(app.selected_port(), 0);
    assert_eq!(app.number_text(), "");
    assert_eq!(app.rx_count_line(), "RX count: 0");
    assert_eq!(app.period_line(), "Period value: 0");
    assert_eq!(app.value_b_line(), "Value B: 0x0");
    assert!(app.open_enabled());
    assert!(!app.close_enabled());
    assert_eq!((MIN_BAUD, MAX_BAUD), (1200, 2_000_000));
}

#[test]
fn ports_are_offered_with_what_is_known_of_them() {
    let app = three();
    let names: Vec<(&str, &str)> =
        app.ports().iter().map(|p| (p.name.as_str(), p.full_name.as_str())).collect();
    assert_eq!(
        names,
        vec![
            ("COM3", "COM3 ACME No product"),
            ("COM1", "COM1 (PCI)"),
            ("COM7", "COM7 (Bluetooth)"),
        ]
    );
    let app = App::new(Ok(vec![usb("A", None, Some("P"))]));
    assert_eq!(app.ports()[0].full_name, "A No manufacturer P");
}

#[test]
fn a_scan_keeps_the_choice_where_it_can() {
    let mut app = three();
    app.select_port(2);
    assert_eq!(app.selected_name().map(|s| s.as_str()), Some("COM7 (Bluetooth)"));
    app.refresh_ports(Ok(vec![
        port("A", PortKind::Pci),
        port("B", PortKind::Pci),
        port("C", PortKind::Pci),
    ]));
    assert_eq!(app.selected_port(), 2);
    app.refresh_ports(Ok(vec![port("A", PortKind::Pci)]));
    assert_eq!(app.selected_port(), 0);
    app.refresh_ports(Ok(vec![]));
    assert_eq!(app.selected_name(), None);
    assert_eq!(app.status_line(), "Status: Found 0 ports");
}

#[test]
fn a_failed_scan_leaves_no_ports_and_keeps_the_choice() {
    let mut app = three();
    app.select_port(2);
    app.refresh_ports(Err("denied".to_string()));
    assert_eq!(app.status_line(), "Status: Port scan error: denied");
    assert!(app.ports().is_empty());
    assert_eq!(app.selected_port(), 2);
    assert!(app.open_selected().is_none());
    assert_eq!(app.status_line(), "Status: No ports. Click Refresh.");
}

#[test]
fn the_chosen_port_is_opened() {
    let mut app = three();
    app.select_port(1);
    app.set_baud(9600);
    match app.open_selected() {
        Some(ToSerial::Open { port, baud }) => {
            assert_eq!(port, "COM1");
            assert_eq!(baud, 9600);
        }
        other => panic!("{other:?}"),
    }
    assert_eq!(app.status_line(), "Status: Found 3 ports");
}

#[test]
fn closing_is_asked_for() {
    assert!(matches!(three().close_port(), ToSerial::Close));
}

#[test]
fn a_frequency_is_sent_as_a_period() {
    let mut app = three();
    match app.send_number(entered(24.5)) {
        Some(ToSerial::RxPair { a, b }) => assert_eq!((a, b), (4082, 0)),
        other => panic!("{other:?}"),
    }
    assert_eq!(app.status_line(), "Status: Found 3 ports");
    match app.send_number(entered(f32::NAN)) {
        Some(ToSerial::RxPair { a, b }) => assert_eq!((a, b), (0, 0)),
        other => panic!("{other:?}"),
    }
}

#[test]
fn a_wrong_frequency_is_not_sent() {
    let mut app = three();
    assert!(app.send_number(entered(14.5)).is_none());
    assert_eq!(
        app.status_line(),
        "Status: Invalid value, must be with-in 15.0 to 80.0 KHz: 14.5"
    );
    assert!(app.send_number(entered(81.0)).is_none());
    assert_eq!(
        app.status_line(),
        "Status: Invalid value, must be with-in 15.0 to 80.0 KHz: 81"
    );
    assert!(app.send_number(Err("invalid float literal".to_string())).is_none());
    assert_eq!(app.status_line(), "Status: Invalid value: invalid float literal");
}

#[test]
fn reports_are_taken_over_in_order() {
    let mut app = three();
    let reports = vec![
        status("Opened COM3 @ 115200"),
        FromSerial::RxPair { a: 1, b: 2 },
        FromSerial::RxPair { a: 4082, b: 0xBEEF },
        status("Read error: x"),
    ];
    assert!(app.accepts(&reports));
    app.poll_incoming(reports);
    assert_eq!(app.status_line(), "Status: Read error: x");
    assert_eq!(app.rx_count_line(), "RX count: 2");
    assert_eq!(app.period_line(), "Period value: 4082");
    assert_eq!(app.value_b_line(), "Value B: 0xBEEF");
    assert!(app.close_enabled());
    app.receive(status("Closed"));
    assert!(app.open_enabled());
    app.receive(status("Cl"));
    assert!(app.open_enabled());
}

#[test]
fn a_failed_opening_reads_like_an_open_port() {
    let mut app = three();
    app.receive(status("Open failed (COM3): no such device"));
    assert!(app.close_enabled());
}

#[test]
fn a_status_that_cannot_be_split_is_not_accepted() {
    let app = three();
    assert!(!app.accepts(&vec![status("abc\u{e9}")]));
    assert!(app.accepts(&vec![]));
}

#[test]
fn sending_needs_an_open_port_and_a_click_or_enter() {
    let mut app = three();
    assert!(!app.send_requested(true, true, true));
    app.receive(status("Opened COM3 @ 115200"));
    assert!(app.send_requested(true, false, false));
    assert!(app.send_requested(false, true, true));
    assert!(!app.send_requested(false, true, false));
    assert!(!app.send_requested(false, false, true));
}

#[test]
fn fonts_are_set_once_and_reports_looked_for_every_ten_milliseconds() {
    let mut app = three();
    let first = app.begin_display(9);
    assert!(first.set_fonts && !first.poll);
    let second = app.begin_display(10);
    assert!(!second.set_fonts && second.poll);
}

#[test]
fn the_text_is_kept() {
    let mut app = three();
    app.set_number_text("24.5".to_string());
    assert_eq!(app.number_text(), "24.5");
}

#[test]
fn the_panel_follows_the_link() {
    let mut link = SerialLink::new();
    let mut app = three();
    let name = "COM3".to_string();
    let events = vec![
        (LinkEvent::Opened { port: name.clone(), baud: 9600, error: None }, true),
        (LinkEvent::Written { error: Some("e".to_string()) }, true),
        (LinkEvent::Opened { port: name, baud: 9600, error: Some("e".to_string()) }, true),
        (LinkEvent::ReadFailed("e".to_string()), true),
        (LinkEvent::Request(ToSerial::Close), false),
        (LinkEvent::Request(ToSerial::RxPair { a: 1, b: 2 }), false),
    ];
    for (event, open) in events {
        let mut reports: Vec<FromSerial> = vec![];
        for action in link.step(event) {
            if let LinkAction::Report(report) = action {
                reports.push(report);
            }
        }
        assert!(app.accepts(&reports));
        app.poll_incoming(reports);
        assert_eq!(app.close_enabled(), open);
    }
}
