use serial_commander::frame::{build_frame, try_extract_frame, TwoU32, FRAME_LEN};
use serial_commander::message::ToSerial;
use serial_commander::stream::extract_frames;

fn frame(a: u32, b: u32) -> Vec<u8> {
    let payload = ToSerial::RxPair { a, b }.to_payload().unwrap();
    build_frame(&payload).to_vec()
}

#[test]
fn a_frame_has_these_bytes() {
    assert_eq!(
        frame(4082, 0),
        vec![0xA5, 0x5A, 0xF2, 0x0F, 0, 0, 0, 0, 0, 0, 0x0D, 0x55]
    );
    assert_eq!(
        frame(0xDEADBEEF, 0x01020304),
        vec![0xA5, 0x5A, 0xEF, 0xBE, 0xAD, 0xDE, 4, 3, 2, 1, 0x0B, 0xC6]
    );
    assert_eq!(FRAME_LEN, 12);
}

#[test]
fn only_a_pair_has_a_payload() {
    assert_eq!(
        ToSerial::RxPair { a: 0x04030201, b: 0x08070605 }.to_payload(),
        Some([1, 2, 3, 4, 5, 6, 7, 8])
    );
    assert_eq!(ToSerial::Close.to_payload(), None);
    let open = ToSerial::Open { port: "COM3".to_string(), baud: 9600 };
    assert_eq!(open.to_payload(), None);
}

#[test]
fn a_frame_is_read_back_and_what_follows_stays() {
    let mut rx = frame(1, 2);
    rx.extend_from_slice(&[9, 8, 7]);
    assert_eq!(try_extract_frame(&mut rx), Some(TwoU32 { a: 1, b: 2 }));
    assert_eq!(rx, vec![9, 8, 7]);
}

#[test]
fn fewer_bytes_than_a_frame_are_kept() {
    let mut rx = vec![1, 2, 3];
    assert_eq!(try_extract_frame(&mut rx), None);
    assert_eq!(rx, vec![1, 2, 3]);
    let mut none: Vec<u8> = vec![];
    assert_eq!(try_extract_frame(&mut none), None);
    assert_eq!(none, Vec::<u8>::new());
}

#[test]
fn without_sync_bytes_only_the_last_byte_is_kept() {
    let mut rx: Vec<u8> = (1..=20).collect();
    assert_eq!(try_extract_frame(&mut rx), None);
    assert_eq!(rx, vec![20]);
    let mut rx = vec![0u8; 15];
    rx.push(0xA5);
    assert_eq!(try_extract_frame(&mut rx), None);
    assert_eq!(rx, vec![0xA5]);
}

#[test]
fn the_start_of_a_frame_is_kept() {
    let mut rx = vec![0u8; 10];
    rx.extend_from_slice(&[0xA5, 0x5A, 1]);
    assert_eq!(try_extract_frame(&mut rx), None);
    assert_eq!(rx, vec![0xA5, 0x5A, 1]);
}

#[test]
fn after_a_wrong_checksum_one_byte_is_dropped() {
    let mut rx = frame(1, 2);
    rx[11] ^= 1;
    let tail = rx[1..].to_vec();
    assert_eq!(try_extract_frame(&mut rx), None);
    assert_eq!(rx, tail);
}

#[test]
fn a_frame_inside_a_false_one_is_found() {
    let mut rx = vec![0xA5, 0x5A, 0, 1];
    rx.extend_from_slice(&frame(7, 8));
    assert_eq!(try_extract_frame(&mut rx), Some(TwoU32 { a: 7, b: 8 }));
    assert_eq!(rx, Vec::<u8>::new());
}

#[test]
fn noise_before_a_frame_is_skipped() {
    let mut rx = vec![0, 0x5A, 0xFF, 0xA5];
    rx.extend_from_slice(&frame(3, 4));
    rx.push(1);
    assert_eq!(try_extract_frame(&mut rx), Some(TwoU32 { a: 3, b: 4 }));
    assert_eq!(rx, vec![1]);
}

#[test]
fn any_one_damaged_byte_is_noticed() {
    for i in 0..FRAME_LEN {
        for flip in 1..=255u8 {
            let mut rx = frame(0xDEADBEEF, 0x01020304);
            rx[i] ^= flip;
            assert_eq!(try_extract_frame(&mut rx), None);
        }
    }
}

#[test]
fn two_damaged_neighbours_before_the_checksum_are_noticed() {
    for first in 1..=255u8 {
        for second in 1..=255u8 {
            let mut rx = frame(4082, 0);
            rx[5] ^= first;
            rx[6] ^= second;
            assert_eq!(try_extract_frame(&mut rx), None);
        }
    }
}

#[test]
fn all_frames_come_out_in_order() {
    let mut rx: Vec<u8> = vec![];
    for i in 0..5u32 {
        rx.extend_from_slice(&frame(i, i * i));
    }
    rx.push(0xA5);
    let pairs = extract_frames(&mut rx);
    let expected: Vec<TwoU32> = (0..5u32).map(|i| TwoU32 { a: i, b: i * i }).collect();
    assert_eq!(pairs, expected);
    assert_eq!(rx, vec![0xA5]);
}

#[test]
fn cuts_between_reads_make_no_difference() {
    let mut all: Vec<u8> = vec![0xA5, 0xA5, 0x5A, 3];
    all.extend_from_slice(&frame(10, 20));
    all.extend_from_slice(&[0; 14]);
    all.extend_from_slice(&frame(30, 40));
    let mut whole = all.clone();
    let expected = extract_frames(&mut whole);
    assert_eq!(expected, vec![TwoU32 { a: 10, b: 20 }, TwoU32 { a: 30, b: 40 }]);
    for cut in 0..=all.len() {
        let mut rx = all[..cut].to_vec();
        let mut pairs = extract_frames(&mut rx);
        assert!(rx.len() < FRAME_LEN);
        rx.extend_from_slice(&all[cut..]);
        pairs.extend(extract_frames(&mut rx));
        assert_eq!(pairs, expected);
    }
}

#[test]
fn a_frame_is_determined_by_its_numbers() {
    let bytes = vec![0xA5, 0x5A, 1, 0, 0, 0, 2, 0, 0, 0, 0x74, 0xB7];
    let mut rx = bytes.clone();
    let pair = try_extract_frame(&mut rx).unwrap();
    assert_eq!(frame(pair.a, pair.b), bytes);
}
