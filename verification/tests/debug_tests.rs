use ffi_util::cstring::BoundedCString;

/// The debug form as the formatter writes it, chunk by chunk.
fn expected(slice: &[u8]) -> String {
    let mut f = String::from("\"");
    for chunk in slice.utf8_chunks() {
        for c in chunk.valid().chars() {
            match c {
                '\x01'..='\x7f' => f.push_str(&format!("{}", (c as u8).escape_ascii())),
                _ => f.push_str(&format!("{}", c.escape_debug())),
            }
        }
        f.push_str(&format!("{}", chunk.invalid().escape_ascii()));
    }
    f.push('"');
    f
}

#[test]
fn debug_string_escapes_quotes_and_controls() {
    let s: BoundedCString<8> = BoundedCString::from_bytes(b"a\"b\n\t\\").unwrap();
    assert_eq!(s.debug_string(), "\"a\\\"b\\n\\t\\\\\"");
}

#[test]
fn debug_string_keeps_unicode_and_escapes_bad_bytes() {
    let s: BoundedCString<8> = BoundedCString::from_str("é").unwrap();
    assert_eq!(s.debug_string(), "\"é\"");
    let b: BoundedCString<8> = BoundedCString::from_bytes(&[0x61, 0xff, 0x7f]).unwrap();
    assert_eq!(b.debug_string(), "\"a\\xff\\x7f\"");
    let empty: BoundedCString<4> = BoundedCString::zeroed();
    assert_eq!(empty.debug_string(), "\"\"");
}

#[test]
fn debug_string_matches_chunkwise_formatting() {
    let mut cases: Vec<Vec<u8>> = Vec::new();
    for a in 1..=255u8 {
        cases.push(vec![a]);
        for b in 1..=255u8 {
            cases.push(vec![a, b]);
        }
    }
    let extra: [&[u8]; 12] = [
        &[0xe2, 0x82, 0x41],
        &[0xe2, 0x82, 0xac],
        &[0xed, 0xa0, 0x80],
        &[0xef, 0xbf, 0xbf],
        &[0xf0, 0x9f, 0x98, 0x80],
        &[0xf4, 0x90, 0x80, 0x80],
        &[0xf4, 0x8f, 0xbf, 0xbf],
        &[0xf0, 0x80, 0x80, 0x80],
        &[0xe0, 0x80, 0x80],
        &[0xf0, 0x9f, 0x98],
        &[0xc3, 0xa9, 0xc3],
        &[0x80, 0xe2, 0x82, 0xac],
    ];
    for e in extra.iter() {
        cases.push(e.to_vec());
    }
    for case in cases {
        let s: BoundedCString<4> = BoundedCString::from_bytes(&case).unwrap();
        assert_eq!(s.debug_string(), expected(&case), "bytes {:?}", case);
    }
}
