use kdft::parse::{parse_ewf2_case_data, parse_header_text};
use kdft::text::{decode_utf16, parse_u64, push_decimal, push_hexadecimal, split_chars, split_lines};
use kdft::types::EwfMetadata;

fn chars(s: &str) -> Vec<char> {
    s.chars().collect()
}

#[test]
fn numbers_are_read_as_decimal() {
    assert_eq!(parse_u64(&chars("0")), Some(0));
    assert_eq!(parse_u64(&chars("+007")), Some(7));
    assert_eq!(parse_u64(&chars("18446744073709551615")), Some(u64::MAX));
    assert_eq!(parse_u64(&chars("18446744073709551616")), None);
    assert_eq!(parse_u64(&chars("99999999999999999999999")), None);
    for bad in ["", "+", "-1", "1 ", "1a", "++1"] {
        assert_eq!(parse_u64(&chars(bad)), None);
        assert!(bad.parse::<u64>().is_err());
    }
}

#[test]
fn numbers_are_written_and_read_back() {
    for n in [0u64, 9, 10, 4096, 1_000_000, u64::MAX] {
        let mut s = String::new();
        push_decimal(&mut s, n);
        assert_eq!(s, n.to_string());
        assert_eq!(parse_u64(&chars(&s)), Some(n));
        let mut h = String::from("at ");
        push_hexadecimal(&mut h, n);
        assert_eq!(h, format!("at {n:#x}"));
    }
}

#[test]
fn text_splits_as_std_does() {
    for s in ["", "a", "a\n", "a\nb", "a\r\nb\r\n", "\n\n", "x\r", "x\r\ny\r", "a\r\r\nb"] {
        let lines: Vec<String> = split_lines(&chars(s)).iter().map(|l| l.iter().collect()).collect();
        assert_eq!(lines, s.lines().map(str::to_string).collect::<Vec<_>>());
        let parts: Vec<String> = split_chars(&chars(s), '\n').iter().map(|l| l.iter().collect()).collect();
        assert_eq!(parts, s.split('\n').map(str::to_string).collect::<Vec<_>>());
    }
}

#[test]
fn utf16_leaves_out_what_is_no_character() {
    let units: Vec<u16> = vec![0x41, 0xd83d, 0xde00, 0xdc00, 0xd800, 0x42, 0xd800, 0xd83d, 0xde01, 0xdbff];
    let mut raw: Vec<u8> = units.iter().flat_map(|u| u.to_le_bytes()).collect();
    raw.push(0x43);
    let expected: String = char::decode_utf16(units).filter_map(Result::ok).collect();
    assert_eq!(decode_utf16(&raw).iter().collect::<String>(), expected);
    assert_eq!(expected, "A\u{1F600}B\u{1F601}");
}

#[test]
fn the_last_column_of_a_field_counts() {
    let mut meta = EwfMetadata::default();
    meta.notes = Some("kept".to_string());
    parse_header_text("1\nmain\nc\te\tc\tt\nfirst\tme\tsecond\t", &mut meta);
    assert_eq!(meta.case_number.as_deref(), Some("second"));
    assert_eq!(meta.examiner.as_deref(), Some("me"));
    assert_eq!(meta.notes.as_deref(), Some("kept"));

    let raw: Vec<u8> = "1\nmain\nnt\tde\tad\tsd\tov\nn\td\ta\ts\to"
        .encode_utf16()
        .flat_map(u16::to_le_bytes)
        .collect();
    parse_ewf2_case_data(&raw, &mut meta);
    assert_eq!(meta.notes.as_deref(), Some("n"));
    assert_eq!(meta.description.as_deref(), Some("d"));
    assert_eq!(meta.acquiry_date.as_deref(), Some("a"));
    assert_eq!(meta.system_date.as_deref(), Some("s"));
    assert_eq!(meta.os_version.as_deref(), Some("o"));
    assert_eq!(meta.case_number.as_deref(), Some("second"));
}
