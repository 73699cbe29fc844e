use serial_commander::frame::build_frame;
use serial_commander::link::{LinkAction, LinkEvent, SerialLink};
use serial_commander::message::{FromSerial, ToSerial};

fn shown(actions: Vec<LinkAction>) -> Vec<String> {
    actions.iter().map(|action| format!("{action:?}")).collect()
}

fn status(text: &str) -> String {
    format!("{:?}", LinkAction::Report(FromSerial::Status(text.to_string())))
}

fn pair(a: u32, b: u32) -> String {
    format!("{:?}", LinkAction::Report(FromSerial::RxPair { a, b }))
}

fn opened() -> SerialLink {
    let mut link = SerialLink::new();
    link.step(LinkEvent::Opened { port: "COM3".to_string(), baud: 115200, error: None });
    link
}

fn frame(a: u32, b: u32) -> Vec<u8> {
    build_frame(&ToSerial::RxPair { a, b }.to_payload().unwrap()).to_vec()
}

#[test]
fn opening_is_asked_for_and_reported() {
    let mut link = SerialLink::new();
    let actions = link.step(LinkEvent::Request(ToSerial::Open { port: "COM3".to_string(), baud: 9600 }));
    assert_eq!(
        shown(actions),
        vec![format!(
            "{:?}",
            LinkAction::OpenPort { port: "COM3".to_string(), baud: 9600, timeout_ms: 20 }
        )]
    );
    let actions = link.step(LinkEvent::Opened { port: "COM3".to_string(), baud: 9600, error: None });
    assert_eq!(shown(actions), vec![status("Opened COM3 @ 9600")]);
    let actions = link.step(LinkEvent::Opened {
        port: "COM4".to_string(),
        baud: 9600,
        error: Some("no such device".to_string()),
    });
    assert_eq!(shown(actions), vec![status("Open failed (COM4): no such device")]);
}

#[test]
fn closing_closes_and_is_reported() {
    let mut link = opened();
    let actions = link.step(LinkEvent::Request(ToSerial::Close));
    assert_eq!(shown(actions), vec!["ClosePort".to_string(), status("Closed")]);
    assert_eq!(shown(link.step(LinkEvent::Idle)), vec!["Rest(20)", "Rest(1)"]);
}

#[test]
fn a_failed_opening_keeps_the_open_port() {
    let mut link = opened();
    link.step(LinkEvent::Opened { port: "X".to_string(), baud: 1, error: Some("e".to_string()) });
    assert_eq!(shown(link.step(LinkEvent::Idle)), vec!["Read { size: 256 }", "Rest(1)"]);
}

#[test]
fn a_pair_is_written_and_flushed() {
    let mut link = opened();
    let actions = link.step(LinkEvent::Request(ToSerial::RxPair { a: 4082, b: 0 }));
    assert_eq!(actions.len(), 1);
    match &actions[0] {
        LinkAction::Write(bytes) => assert_eq!(bytes.to_vec(), frame(4082, 0)),
        other => panic!("{other:?}"),
    }
    assert_eq!(shown(link.step(LinkEvent::Written { error: None })), vec!["Flush"]);
    assert!(link.step(LinkEvent::Flushed { error: None }).is_empty());
    assert_eq!(
        shown(link.step(LinkEvent::Written { error: Some("gone".to_string()) })),
        vec![status("Write failed: gone")]
    );
    assert_eq!(
        shown(link.step(LinkEvent::Flushed { error: Some("gone".to_string()) })),
        vec![status("Flush failed: gone")]
    );
}

#[test]
fn without_a_port_nothing_is_sent() {
    let mut link = SerialLink::new();
    let actions = link.step(LinkEvent::Request(ToSerial::RxPair { a: 1, b: 2 }));
    assert_eq!(shown(actions), vec![status("Send failed: port not open")]);
}

#[test]
fn reads_without_bytes_change_nothing() {
    let mut link = opened();
    assert!(link.step(LinkEvent::TimedOut).is_empty());
    assert!(link.step(LinkEvent::Received(vec![])).is_empty());
    assert_eq!(
        shown(link.step(LinkEvent::ReadFailed("unplugged".to_string()))),
        vec![status("Read error: unplugged")]
    );
}

#[test]
fn frames_are_reported_however_they_arrive() {
    let mut bytes = vec![1, 2, 0xA5];
    bytes.extend(frame(1, 2));
    bytes.extend(frame(3, 4));
    let mut link = opened();
    assert_eq!(
        shown(link.step(LinkEvent::Received(bytes.clone()))),
        vec![pair(1, 2), pair(3, 4)]
    );
    let mut link = opened();
    let mut reports: Vec<String> = vec![];
    for byte in bytes {
        reports.extend(shown(link.step(LinkEvent::Received(vec![byte]))));
    }
    assert_eq!(reports, vec![pair(1, 2), pair(3, 4)]);
}

#[test]
fn bytes_are_kept_while_the_port_is_opened_again() {
    let mut link = opened();
    let bytes = frame(5, 6);
    assert!(link.step(LinkEvent::Received(bytes[..7].to_vec())).is_empty());
    link.step(LinkEvent::Request(ToSerial::Close));
    link.step(LinkEvent::Opened { port: "COM3".to_string(), baud: 9600, error: None });
    assert_eq!(shown(link.step(LinkEvent::Received(bytes[7..].to_vec()))), vec![pair(5, 6)]);
}

#[test]
fn much_noise_is_not_too_much() {
    let mut link = opened();
    assert!(link.step(LinkEvent::Received(vec![0xA5; 70000])).is_empty());
    assert!(link.step(LinkEvent::Received([0xA5, 0x5A].repeat(40000))).is_empty());
}

#[test]
fn what_one_link_sends_the_other_reports() {
    let mut sender = opened();
    let mut receiver = opened();
    receiver.step(LinkEvent::Received(vec![0xA5, 0x5A, 1]));
    for (a, b) in [(0, 0), (4082, 0), (u32::MAX, 0x5AA55AA5)] {
        for action in sender.step(LinkEvent::Request(ToSerial::RxPair { a, b })) {
            if let LinkAction::Write(bytes) = action {
                assert_eq!(shown(receiver.step(LinkEvent::Received(bytes.to_vec()))), vec![pair(a, b)]);
            }
        }
    }
}
