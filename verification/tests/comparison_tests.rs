use ffi_util::cstring::BoundedCString;
use ffi_util::senti::Senti;
use std::cmp::Ordering;
use std::hash::Hasher;

#[test]
fn arrays_order_lexicographically_by_their_content() {
    let a: Senti<i8, 4> = Senti::from_array([1, 2, 0, 9]);
    let b: Senti<i8, 5> = Senti::from_array([1, 3, 0, 0, 0]);
    let c: Senti<i8, 3> = Senti::from_array([1, 2, 5]);
    assert_eq!(a.partial_cmp(&b), Some(Ordering::Less));
    assert_eq!(b.partial_cmp(&a), Some(Ordering::Greater));
    // A proper prefix comes first.
    assert_eq!(a.partial_cmp(&c), Some(Ordering::Less));
    assert_eq!(a.partial_cmp(&a), Some(Ordering::Equal));
    assert!(a < b);
    assert_eq!(a.partial_cmp(&[1, 2][..]), Some(Ordering::Equal));
    assert_eq!(a.partial_cmp(&[1, 1, 7][..]), Some(Ordering::Greater));
}

#[test]
fn strings_order_by_their_bytes() {
    let apple: BoundedCString<8> = BoundedCString::from_str("apple").unwrap();
    let apply: BoundedCString<6> = BoundedCString::from_str("apply").unwrap();
    let app: BoundedCString<4> = BoundedCString::from_str("app").unwrap();
    assert!(apple < apply);
    assert!(app < apple);
    assert_eq!(apple.partial_cmp(&apple), Some(Ordering::Equal));
    assert_eq!(apply.partial_cmp(&app), Some(Ordering::Greater));
}

#[test]
fn strings_order_as_signed_c_characters() {
    let high: BoundedCString<2> = BoundedCString::from_bytes(b"\x80").unwrap();
    let a: BoundedCString<2> = BoundedCString::from_str("a").unwrap();
    assert_eq!(high.partial_cmp(&a), Some(Ordering::Less));
    assert!(a > high);
}

fn hash_of<X: std::hash::Hash + ?Sized>(x: &X) -> u64 {
    let mut h = std::collections::hash_map::DefaultHasher::new();
    x.hash(&mut h);
    h.finish()
}

#[test]
fn equal_values_hash_alike() {
    let a: Senti<i8, 4> = Senti::from_array([1, 2, 0, 9]);
    let b: Senti<i8, 4> = Senti::from_array([1, 2, 0, 7]);
    assert_eq!(hash_of(&a), hash_of(&b));
    assert_eq!(hash_of(&a), hash_of(&[1i8, 2][..]));
    let s: BoundedCString<4> = BoundedCString::from_bytes(b"ab\0x").unwrap();
    let t: BoundedCString<4> = BoundedCString::from_bytes(b"ab\0y").unwrap();
    assert_eq!(hash_of(&s), hash_of(&t));
}
