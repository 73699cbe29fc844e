use serial_commander::crc::crc16_ccitt_false;

#[test]
fn checksum_of_the_standard_check_string() {
    assert_eq!(crc16_ccitt_false(b"123456789"), 0x29B1);
}

#[test]
fn checksum_of_nothing_is_the_initial_register() {
    assert_eq!(crc16_ccitt_false(&[]), 0xFFFF);
}
