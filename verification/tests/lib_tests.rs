use ffi_util::{
    are_bitwise_equal, bytes_to_c_char, c_char_to_byte_vec, c_char_to_bytes, Bool, CEnum,
    MaybeInvalid, ValidationError,
};

#[test]
fn bool_round_trips_through_its_c_form() {
    assert_eq!(Bool::new(true), Bool::True);
    assert_eq!(Bool::new(false), Bool::False);
    assert!(Bool::True.as_bool());
    assert!(!Bool::False.as_bool());
    assert_eq!(Bool::from(true), Bool::True);
    assert!(!bool::from(Bool::False));
    assert_eq!(Bool::default(), Bool::False);
    assert!(Bool::False < Bool::True);
}

#[test]
fn bool_c_values() {
    assert_eq!(Bool::False.into_value(), 0);
    assert_eq!(Bool::True.into_value(), 1);
    assert_eq!(Bool::try_from_c_int(0).unwrap(), Bool::False);
    assert_eq!(Bool::try_from_c_int(1).unwrap(), Bool::True);
    assert_eq!(Bool::convert_unchecked(1), Bool::True);
}

#[test]
fn invalid_c_value_is_rejected() {
    let e: Result<Bool, ValidationError<Bool>> = Bool::try_from_c_int(2);
    assert!(e.is_err());
    assert!(Bool::try_from_c_int(-1).is_err());
}

#[test]
fn maybe_invalid_gives_back_what_was_stored() {
    let m = MaybeInvalid::new(Bool::True);
    assert_eq!(m.get().unwrap(), Bool::True);
    assert_eq!(m.get_unchecked(), Bool::True);
    let n = MaybeInvalid::new(Bool::False);
    assert_eq!(n.get().unwrap(), Bool::False);
    assert!(m != n);
}

#[test]
fn bitwise_equality() {
    assert!(are_bitwise_equal(5i8, 5i8));
    assert!(!are_bitwise_equal(5u8, 6u8));
    assert!(are_bitwise_equal(-7i32, -7i32));
}

#[test]
fn c_chars_and_bytes_share_their_bits() {
    assert_eq!(c_char_to_bytes(&[-1, 0, 65]), vec![255u8, 0, 65]);
    assert_eq!(bytes_to_c_char(&[255, 128, 1]), vec![-1i8, -128, 1]);
    assert_eq!(c_char_to_byte_vec(vec![-128, 127]), vec![128u8, 127]);
}
