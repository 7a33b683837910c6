use py_spy::utf8::decode_utf8;

fn text(s: &str) -> Vec<u32> {
    s.chars().map(|c| c as u32).collect()
}

#[test]
fn decodes_every_sequence_length() {
    let s = "aé€😀";
    assert_eq!(decode_utf8(&s.as_bytes().to_vec()), Some(text(s)));
    assert_eq!(decode_utf8(&vec![]), Some(vec![]));
    assert_eq!(decode_utf8(&vec![0xf4, 0x8f, 0xbf, 0xbf]), Some(vec![0x10ffff]));
}

#[test]
fn rejects_malformed_sequences() {
    // overlong, surrogate, above U+10FFFF, stray continuation, truncated
    assert_eq!(decode_utf8(&vec![0xc1, 0xbf]), None);
    assert_eq!(decode_utf8(&vec![0xe0, 0x80, 0x80]), None);
    assert_eq!(decode_utf8(&vec![0xed, 0xa0, 0x80]), None);
    assert_eq!(decode_utf8(&vec![0xf4, 0x90, 0x80, 0x80]), None);
    assert_eq!(decode_utf8(&vec![0x80]), None);
    assert_eq!(decode_utf8(&vec![0x61, 0xe2, 0x82]), None);
}
