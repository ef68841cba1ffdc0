use ffi_util::cstring::BoundedCString;

#[test]
fn from_str_keeps_a_string_that_fits() {
    let s: BoundedCString<8> = BoundedCString::from_str("hello").unwrap();
    assert_eq!(s.to_bytes(), b"hello");
    assert_eq!(s.to_bytes_with_nul(), Some(&b"hello\0"[..]));
    assert_eq!(s.try_to_str().unwrap(), "hello");
    assert!(s == *"hello");
}

#[test]
fn from_str_rejects_a_string_that_does_not_fit() {
    let s: Option<BoundedCString<3>> = BoundedCString::from_str("hello");
    assert!(s.is_none());
    let exact: BoundedCString<5> = BoundedCString::from_str("hello").unwrap();
    assert_eq!(exact.to_bytes(), b"hello");
    assert_eq!(exact.to_bytes_with_nul(), None);
    let cut: BoundedCString<4> = BoundedCString::from_bytes(b"abcd\0").unwrap();
    assert_eq!(cut.to_bytes(), b"abcd");
    assert!(BoundedCString::<4>::from_bytes(b"abcde\0").is_none());
}

#[test]
fn a_nul_byte_ends_the_string() {
    let s: BoundedCString<4> = BoundedCString::from_bytes(b"ab\0cdefg").unwrap();
    assert_eq!(s.to_bytes(), b"ab");
    assert_eq!(s.buffer(), b"ab\0\0");
}

#[test]
fn from_c_chars_reads_c_characters() {
    let s: BoundedCString<4> = BoundedCString::from_c_chars(&[104, 105]).unwrap();
    assert_eq!(s.to_bytes(), b"hi");
    assert_eq!(s.to_c_chars(), vec![104i8, 105]);
    assert_eq!(s.to_c_chars_mut(), vec![104i8, 105]);
    assert_eq!(s.to_c_chars_with_nul(), Some(vec![104i8, 105, 0]));
}

#[test]
fn truncating_constructors_cut_to_capacity() {
    let s: BoundedCString<3> = BoundedCString::from_bytes_truncate(b"abcdef");
    assert_eq!(s.to_bytes(), b"abc");
    assert_eq!(s.to_bytes_with_nul(), None);
    let c: BoundedCString<2> = BoundedCString::from_c_chars_truncate(&[-1, 66, 67]);
    assert_eq!(c.to_bytes(), &[255u8, 66]);
}

#[test]
fn from_str_truncate_keeps_whole_characters() {
    // 'é' takes two bytes; a cut after 2 bytes would split it.
    let s: BoundedCString<2> = BoundedCString::from_str_truncate("hé");
    assert_eq!(s.to_bytes(), b"h");
    assert_eq!(s.try_to_str().unwrap(), "h");
    let t: BoundedCString<3> = BoundedCString::from_str_truncate("hé");
    assert_eq!(t.try_to_str().unwrap(), "hé");
    let u: BoundedCString<8> = BoundedCString::from_str_truncate("ab");
    assert_eq!(u.buffer(), b"ab\0\0\0\0\0\0");
}

#[test]
fn from_cstr_truncate_reads_up_to_the_nul() {
    let s: BoundedCString<8> = BoundedCString::from_cstr_truncate(b"abc\0");
    assert_eq!(s.to_bytes(), b"abc");
    let t: BoundedCString<2> = BoundedCString::from_cstr_truncate(b"abc\0");
    assert_eq!(t.to_bytes(), b"ab");
    assert_eq!(t.to_bytes_with_nul(), None);
}

#[test]
fn zeroed_is_empty_and_all_zero() {
    let z: BoundedCString<4> = BoundedCString::zeroed();
    assert_eq!(z.to_bytes(), b"");
    assert_eq!(z.buffer(), &[0u8; 4]);
}

#[test]
fn mutable_views_write_into_the_buffer() {
    let mut s: BoundedCString<6> = BoundedCString::from_str("abc").unwrap();
    s.to_bytes_mut()[0] = b'x';
    assert_eq!(s.to_bytes(), b"xbc");
    s.to_bytes_with_nul_mut().unwrap()[3] = b'd';
    assert_eq!(s.to_bytes(), b"xbcd");
    s.buffer_mut()[1] = 0;
    assert_eq!(s.to_bytes(), b"x");
}

#[test]
fn invalid_utf8_is_reported_or_replaced() {
    let s: BoundedCString<4> = BoundedCString::from_bytes(&[0x61, 0xff]).unwrap();
    assert!(s.try_to_str().is_err());
    assert_eq!(s.to_str_lossy(), "a\u{fffd}");
    let ok: BoundedCString<4> = BoundedCString::from_bytes(b"ok").unwrap();
    assert_eq!(ok.to_str_lossy(), "ok");
    assert_eq!(ok.to_str_unchecked(), "ok");
}

#[test]
fn strings_compare_by_their_bytes_before_the_nul() {
    let a: BoundedCString<4> = BoundedCString::from_bytes(b"ab\0x").unwrap();
    let b: BoundedCString<8> = BoundedCString::from_str("ab").unwrap();
    let c: BoundedCString<4> = BoundedCString::from_str("ac").unwrap();
    assert!(a == b);
    assert!(a != c);
    assert!(a == *"ab");
    assert!(a != *"abc");
}

#[test]
fn guarantee_termination_ends_in_one_nul() {
    let s: BoundedCString<6> = BoundedCString::from_str("abc").unwrap();
    match s.guarantee_termination() {
        std::borrow::Cow::Borrowed(b) => assert_eq!(b, b"abc\0"),
        std::borrow::Cow::Owned(_) => panic!("expected borrowed bytes"),
    }
    let full: BoundedCString<3> = BoundedCString::from_str("abc").unwrap();
    match full.guarantee_termination() {
        std::borrow::Cow::Owned(v) => assert_eq!(v, b"abc\0".to_vec()),
        std::borrow::Cow::Borrowed(_) => panic!("expected owned bytes"),
    }
}
