use path_editor_core::system::decode_utf16_preserving;

#[test]
fn decodes_plain_and_paired_units() {
    let units: Vec<u16> = "C:\\Tools\\中文".encode_utf16().collect();
    assert_eq!(decode_utf16_preserving(&units), "C:\\Tools\\中文");
    assert_eq!(decode_utf16_preserving(&[0xD83D, 0xDE00]), "😀");
    assert_eq!(decode_utf16_preserving(&[]), "");
}

#[test]
fn unpaired_surrogates_are_escaped_not_dropped() {
    assert_eq!(decode_utf16_preserving(&[0x41, 0xD800, 0x42]), "A\\u{D800}B");
    assert_eq!(decode_utf16_preserving(&[0xDC00]), "\\u{DC00}");
    assert_eq!(decode_utf16_preserving(&[0xDBFF, 0xDBFF, 0xDFFF]), "\\u{DBFF}\u{10FFFF}");
    assert_eq!(decode_utf16_preserving(&[0xDE00, 0xD83D]), "\\u{DE00}\\u{D83D}");
}
