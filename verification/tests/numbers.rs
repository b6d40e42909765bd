use comicinfo::decimal::{decimal_string, parse_i16, parse_u8, push_decimal};

#[test]
fn decimal_string_has_no_padding() {
    assert_eq!(decimal_string(0), "0");
    assert_eq!(decimal_string(7), "7");
    assert_eq!(decimal_string(10), "10");
    assert_eq!(decimal_string(177013), "177013");
    assert_eq!(decimal_string(u32::MAX), "4294967295");
}

#[test]
fn push_decimal_appends() {
    let mut s = String::from("g/");
    push_decimal(&mut s, 42);
    assert_eq!(s, "g/42");
}

#[test]
fn parse_i16_reads_what_std_reads() {
    let samples = [
        "", "+", "-", "0", "-0", "+0", "0000", "2023", "+10000", "-0001", "32767", "32768",
        "-32768", "-32769", "+32767", "000000000000000000000032767", "99999999999999999999999",
        "12a", "a12", " 12", "12 ", "1_2", "--1", "+-1", "１２", "é", "0x10",
    ];
    for text in samples {
        assert_eq!(parse_i16(text), text.parse::<i16>().ok(), "{:?}", text);
    }
}

#[test]
fn parse_u8_reads_what_std_reads() {
    let samples = [
        "", "+", "-", "0", "-0", "+0", "01", "12", "31", "255", "256", "+255", "-1", "0000255",
        "99999999999999999999999", "1a", " 1", "é",
    ];
    for text in samples {
        assert_eq!(parse_u8(text), text.parse::<u8>().ok(), "{:?}", text);
    }
}
