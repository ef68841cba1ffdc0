use ffi_util::c_char;
use ffi_util::senti::Senti;
use std::borrow::Cow;

#[test]
fn doesnt_explode() {
    let mut x: Senti<c_char, 8> = Senti::from_slice_truncate(&[1, 2, 3, 4, 5, 6, 7, 8, 0]);
    assert_eq!(x.to_slice(), [1, 2, 3, 4, 5, 6, 7, 8]);
    assert_eq!(x.to_slice_with_terminator(), None);
    assert_eq!(
        x.to_slice_with_terminator_or_full(),
        [1, 2, 3, 4, 5, 6, 7, 8]
    );
    assert_eq!(x.to_slice_mut(), [1, 2, 3, 4, 5, 6, 7, 8]);
    assert_eq!(
        x.to_slice_with_terminator_or_full_mut(),
        [1, 2, 3, 4, 5, 6, 7, 8]
    );
}

#[test]
fn empty_has_no_elements_and_a_full_buffer_of_sentinels() {
    let x: Senti<c_char, 4> = Senti::empty();
    assert_eq!(x.compute_len(), 0);
    assert_eq!(x.compute_terminated_len(), Some(1));
    assert_eq!(x.to_slice(), &[] as &[c_char]);
    assert_eq!(x.buffer(), &[0, 0, 0, 0]);
}

#[test]
fn from_slice_that_fits_is_filled_with_sentinels() {
    let x: Senti<c_char, 5> = Senti::from_slice(&[7, 8]).unwrap();
    assert_eq!(x.buffer(), &[7, 8, 0, 0, 0]);
    assert_eq!(x.to_slice(), [7, 8]);
    assert_eq!(x.compute_len(), 2);
}

#[test]
fn from_slice_longer_than_capacity_needs_an_early_sentinel() {
    let x: Senti<c_char, 4> = Senti::from_slice(&[1, 2, 0, 9, 9, 9]).unwrap();
    assert_eq!(x.buffer(), &[1, 2, 0, 0]);
    assert_eq!(x.to_slice(), [1, 2]);
    let none: Option<Senti<c_char, 4>> = Senti::from_slice(&[1, 2, 3, 4, 5]);
    assert!(none.is_none());
    // Cut at its sentinel, the slice holds exactly `N` elements: it fits,
    // with no room left for the terminator.
    let edge: Senti<c_char, 4> = Senti::from_slice(&[1, 2, 3, 4, 0]).unwrap();
    assert_eq!(edge.buffer(), &[1, 2, 3, 4]);
    assert_eq!(edge.to_slice(), [1, 2, 3, 4]);
    assert_eq!(edge.compute_terminated_len(), None);
    let late: Option<Senti<c_char, 4>> = Senti::from_slice(&[1, 2, 3, 4, 5, 0]);
    assert!(late.is_none());
}

#[test]
fn from_slice_of_exactly_capacity_has_no_terminator() {
    let x: Senti<c_char, 3> = Senti::from_slice(&[1, 2, 3]).unwrap();
    assert_eq!(x.compute_terminated_len(), None);
    assert_eq!(x.compute_len(), 3);
    assert_eq!(x.to_slice_with_terminator_or_full(), [1, 2, 3]);
}

#[test]
fn from_slice_truncate_cuts_to_capacity() {
    let x: Senti<c_char, 3> = Senti::from_slice_truncate(&[1, 2, 3, 4]);
    assert_eq!(x.buffer(), &[1, 2, 3]);
    let y: Senti<c_char, 5> = Senti::from_slice_truncate(&[1, 0, 3]);
    assert_eq!(y.buffer(), &[1, 0, 3, 0, 0]);
    assert_eq!(y.to_slice(), [1]);
}

#[test]
fn from_slice_unchecked_keeps_data_after_the_sentinel() {
    let x: Senti<c_char, 4> = Senti::from_slice_unchecked(&[5, 0, 6]);
    assert_eq!(x.buffer(), &[5, 0, 6, 0]);
    assert_eq!(x.to_slice(), [5]);
}

#[test]
fn from_ptr_stops_after_the_sentinel() {
    let x: Senti<c_char, 6> = Senti::from_ptr(&[4, 5, 0, 7, 7, 7, 7]);
    assert_eq!(x.buffer(), &[4, 5, 0, 0, 0, 0]);
    let y: Senti<c_char, 3> = Senti::from_ptr(&[4, 5, 6, 7]);
    assert_eq!(y.buffer(), &[4, 5, 6]);
}

#[test]
fn extend_or_truncate_keeps_the_length_where_it_fits() {
    let x: Senti<c_char, 4> = Senti::from_array([1, 2, 0, 9]);
    let same: Senti<c_char, 4> = x.extend_or_truncate();
    assert_eq!(same.buffer(), &[1, 2, 0, 9]);
    let bigger: Senti<c_char, 6> = x.extend_or_truncate();
    assert_eq!(bigger.buffer(), &[1, 2, 0, 9, 0, 0]);
    assert_eq!(bigger.to_slice(), [1, 2]);
    let smaller: Senti<c_char, 3> = x.extend_or_truncate();
    assert_eq!(smaller.buffer(), &[1, 2, 0]);
    let tiny: Senti<c_char, 1> = x.extend_or_truncate();
    assert_eq!(tiny.buffer(), &[1]);
    assert_eq!(tiny.compute_terminated_len(), None);
}

#[test]
fn slices_with_terminator() {
    let mut x: Senti<c_char, 5> = Senti::from_array([3, 4, 0, 5, 0]);
    assert_eq!(x.to_slice_with_terminator(), Some(&[3, 4, 0][..]));
    assert_eq!(x.to_slice_with_terminator_or_full(), [3, 4, 0]);
    let m = x.to_slice_with_terminator_mut().unwrap();
    m[2] = 9;
    assert_eq!(x.buffer(), &[3, 4, 9, 5, 0]);
    assert_eq!(x.to_slice(), [3, 4, 9, 5]);
    let full = x.to_slice_with_terminator_or_full_mut();
    assert_eq!(full, [3, 4, 9, 5, 0]);
}

#[test]
fn writes_through_to_slice_mut_land_in_the_buffer() {
    let mut x: Senti<c_char, 5> = Senti::from_array([3, 4, 0, 5, 6]);
    let s = x.to_slice_mut();
    s[0] = 0;
    assert_eq!(x.buffer(), &[0, 4, 0, 5, 6]);
    assert_eq!(x.compute_len(), 0);
}

#[test]
fn guarantee_termination_borrows_or_appends() {
    let x: Senti<c_char, 4> = Senti::from_array([1, 0, 2, 3]);
    match x.guarantee_termination() {
        Cow::Borrowed(b) => assert_eq!(b, [1, 0]),
        Cow::Owned(_) => panic!("expected a borrowed slice"),
    }
    let y: Senti<c_char, 3> = Senti::from_array([1, 2, 3]);
    match y.guarantee_termination() {
        Cow::Owned(v) => assert_eq!(v, vec![1, 2, 3, 0]),
        Cow::Borrowed(_) => panic!("expected an owned vector"),
    }
}

#[test]
fn buffer_mut_changes_the_array() {
    let mut x: Senti<c_char, 3> = Senti::empty();
    x.buffer_mut()[0] = 42;
    assert_eq!(x.to_slice(), [42]);
}

#[test]
fn equality_goes_by_elements_before_the_sentinel() {
    let a: Senti<c_char, 4> = Senti::from_array([1, 2, 0, 7]);
    let b: Senti<c_char, 6> = Senti::from_array([1, 2, 0, 9, 9, 9]);
    let c: Senti<c_char, 4> = Senti::from_array([1, 3, 0, 7]);
    assert!(a == b);
    assert!(a != c);
    assert!(a == [1, 2][..]);
    assert!(a != [1, 2, 0][..]);
    let x: Senti<c_char, 3> = Senti::from_array([1, 0, 5]);
    let y: Senti<c_char, 3> = Senti::from_array([1, 0, 7]);
    assert!(x == y);
}

#[test]
fn byte_arrays_terminate_at_zero() {
    let x: Senti<u8, 4> = Senti::from_slice(b"ab\0c").unwrap();
    assert_eq!(x.to_slice(), b"ab");
}

#[test]
fn iteration_covers_the_elements_before_the_sentinel() {
    let x: Senti<c_char, 5> = Senti::from_array([4, 5, 0, 6, 7]);
    let v: Vec<c_char> = (&x).into_iter().copied().collect();
    assert_eq!(v, vec![4, 5]);
    let mut n = 0;
    for _ in &x {
        n += 1;
    }
    assert_eq!(n, 2);
}
