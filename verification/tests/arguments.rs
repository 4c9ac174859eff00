use stencil_matcher::config::{from_hex_str, str_to_endian, Endian};

#[test]
fn endian_names() {
    assert_eq!(str_to_endian("little"), Ok(Endian::Little));
    assert_eq!(str_to_endian("big"), Ok(Endian::Big));
    assert_eq!(str_to_endian("Big"), Err("Not a known endian?".to_string()));
    assert_eq!(str_to_endian(""), Err("Not a known endian?".to_string()));
    assert_eq!(str_to_endian("big "), Err("Not a known endian?".to_string()));
}

#[test]
fn hexadecimal_numbers() {
    assert_eq!(from_hex_str("80000400"), Ok(0x8000_0400));
    assert_eq!(from_hex_str("0"), Ok(0));
    assert_eq!(from_hex_str("ff"), Ok(255));
    assert_eq!(from_hex_str("+fF"), Ok(255));
    assert_eq!(from_hex_str("FFFFFFFF"), Ok(u32::MAX));
    assert_eq!(from_hex_str("0000000000000000000001"), Ok(1));
    assert_eq!(from_hex_str("abcdef"), Ok(0xABCDEF));
    assert_eq!(from_hex_str("ABCDEF09"), Ok(0xABCD_EF09));
}

#[test]
fn what_is_no_hexadecimal_number() {
    let refused = Err("Invalid hex number specified".to_string());
    for text in
        ["", "+", "-1", "0x10", "100000000", "FFFFFFFFF", "g", "12 ", " 12", "++1", "1_0", "\u{e9}", "\u{ff11}"]
    {
        assert_eq!(from_hex_str(text), refused);
    }
}

#[test]
fn hexadecimal_numbers_as_the_standard_library_reads_them() {
    let samples = [
        "", "+", "-", "0", "+0", "-0", "7f", "7F", "+7f", "deadbeef", "DEADBEEF", "1deadbeef",
        "ffffffff", "100000000", "0ffffffff", "00", "+00ff", "x", "0x", "f f", "f\n", "\u{ff10}",
        "ab\u{e9}", "4294967295", "99999999", "fffffffff0",
    ];
    for text in samples {
        assert_eq!(from_hex_str(text).ok(), u32::from_str_radix(text, 16).ok());
    }
}
