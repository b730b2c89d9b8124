use zenoh_mcp::hex::hex_preview;

#[test]
fn hex_preview_of_empty_payload() {
    assert_eq!(hex_preview(&[]), "");
}

#[test]
fn hex_preview_is_lower_case_two_digits_per_byte() {
    assert_eq!(hex_preview(&[0x00, 0xff, 0x1a, 0x9c, 0x05]), "00ff1a9c05");
}

#[test]
fn hex_preview_of_exactly_48_bytes_has_no_ellipsis() {
    let raw: Vec<u8> = (0u8..48).collect();
    let s = hex_preview(&raw);
    assert_eq!(s.chars().count(), 96);
    assert!(!s.ends_with('\u{2026}'));
    assert!(s.starts_with("000102"));
    assert!(s.ends_with("2f"));
}

#[test]
fn hex_preview_of_long_payload_is_cut_at_48_bytes() {
    let raw: Vec<u8> = (0u8..200).collect();
    let s = hex_preview(&raw);
    assert_eq!(s.chars().count(), 97);
    assert!(s.ends_with("2f\u{2026}"));
}

#[test]
fn hex_preview_reads_back() {
    let raw: Vec<u8> = vec![0xde, 0xad, 0xbe, 0xef, 0x00, 0x7f];
    let s = hex_preview(&raw);
    let back: Vec<u8> = (0..s.len() / 2)
        .map(|i| u8::from_str_radix(&s[2 * i..2 * i + 2], 16).unwrap())
        .collect();
    assert_eq!(back, raw);
}
