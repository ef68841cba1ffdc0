//! Compile-time bounded, sentinel-terminated arrays, bounded C strings and
//! assorted helpers for writing FFI bindings.
use std::marker::PhantomData;
use vstd::prelude::*;
use vstd::std_specs::cmp::PartialEqSpecImpl;
use vstd::std_specs::convert::FromSpec;
use vstd::std_specs::convert::FromSpecImpl;

pub mod cstring;
pub mod debug;
pub mod order;
pub mod senti;

use crate::senti::BitwiseEq;

verus! {

/// The C `char` type, signed as on x86 and x86-64 targets. On some other
/// targets (such as AArch64 Linux) C's `char` is unsigned; this library fixes
/// it to `i8`.
#[allow(non_camel_case_types)]
pub type c_char = i8;

/// The C `int` type.
#[allow(non_camel_case_types)]
pub type c_int = i32;

/// A boolean value represented as a C-style enum (`False` is 0, `True` is 1).
#[derive(Clone, Copy, Debug, Hash, PartialEq, Eq, Structural, PartialOrd, Ord, Default)]
pub enum Bool {
    #[default]
    False,
    True,
}

impl Bool {
    /// Converts a `bool` into a [`Bool`].
    pub fn new(b: bool) -> (r: Self)
        ensures
            r == (if b { Bool::True } else { Bool::False }),
    {
        if b {
            Bool::True
        } else {
            Bool::False
        }
    }

    /// Converts the [`Bool`] back into a `bool`.
    pub fn as_bool(self) -> (r: bool)
        ensures
            r == (self == Bool::True),
    {
        matches!(self, Bool::True)
    }
}

/// [`Bool::new`] and [`Bool::as_bool`] are inverse to each other.
pub proof fn law_bool_round_trip(b: bool, x: Bool)
    ensures
        ((if b { Bool::True } else { Bool::False }) == Bool::True) == b,
        (if x == Bool::True { Bool::True } else { Bool::False }) == x,
{
}

impl From<bool> for Bool {
    fn from(value: bool) -> (r: Self) {
        Self::new(value)
    }
}

impl FromSpecImpl<bool> for Bool {
    open spec fn obeys_from_spec() -> bool {
        true
    }

    open spec fn from_spec(value: bool) -> Self {
        if value {
            Bool::True
        } else {
            Bool::False
        }
    }
}

impl From<Bool> for bool {
    fn from(value: Bool) -> (r: Self) {
        value.as_bool()
    }
}

impl FromSpecImpl<Bool> for bool {
    open spec fn obeys_from_spec() -> bool {
        true
    }

    open spec fn from_spec(value: Bool) -> Self {
        value == Bool::True
    }
}

/// Reserved bytes in a struct: padding for fields that may be added later.
///
/// All values of this type count as equal, so that it does not disturb the
/// equality of the structs that hold it.
#[derive(Clone, Copy)]
pub struct Reserved<const N: usize> {
    _reserved: [u8; N],
}

impl<const N: usize> PartialEq for Reserved<N> {
    fn eq(&self, other: &Self) -> (r: bool) {
        true
    }
}

impl<const N: usize> PartialEqSpecImpl for Reserved<N> {
    open spec fn obeys_eq_spec() -> bool {
        true
    }

    open spec fn eq_spec(&self, other: &Self) -> bool {
        true
    }
}

impl<const N: usize> Eq for Reserved<N> {
}

/// The error for a C integer that is no valid value of the enum `T`.
#[derive(Debug)]
pub struct ValidationError<T>(c_int, PhantomData<T>);

impl<T> Clone for ValidationError<T> {
    fn clone(&self) -> (r: Self) {
        ValidationError(self.0, PhantomData)
    }
}

impl<T> Copy for ValidationError<T> {
}

impl<T> ValidationError<T> {
    /// The rejected value.
    pub closed spec fn value(&self) -> c_int {
        self.0
    }

    /// An error for the rejected value `x`.
    pub fn new(x: c_int) -> (r: Self)
        ensures
            r.value() == x,
    {
        ValidationError(x, PhantomData)
    }
}

/// A C-style enum: each variant has a C integer value, distinct variants
/// have distinct values, and an integer can be checked against them.
pub trait CEnum: Sized + Copy {
    /// The C value of a variant.
    spec fn spec_value(self) -> c_int;

    /// Distinct variants have distinct values.
    proof fn lemma_value_injective(a: Self, b: Self)
        requires
            a.spec_value() == b.spec_value(),
        ensures
            a == b,
    ;

    /// The variant with value `x`, or an error carrying `x` if there is none.
    fn try_from_c_int(x: c_int) -> (r: Result<Self, ValidationError<Self>>)
        ensures
            match r {
                Ok(v) => v.spec_value() == x,
                Err(e) => e.value() == x && forall|v: Self| #[trigger] v.spec_value() != x,
            },
    ;

    /// The variant with value `x`, which must be a valid value.
    fn convert_unchecked(x: c_int) -> (r: Self)
        requires
            exists|v: Self| #[trigger] v.spec_value() == x,
        ensures
            r.spec_value() == x,
    ;

    /// The C value of this variant.
    fn into_value(self) -> (r: c_int)
        ensures
            r == self.spec_value(),
    ;
}

impl CEnum for Bool {
    open spec fn spec_value(self) -> c_int {
        match self {
            Bool::False => 0,
            Bool::True => 1,
        }
    }

    proof fn lemma_value_injective(a: Self, b: Self) {
    }

    fn try_from_c_int(x: c_int) -> (r: Result<Self, ValidationError<Self>>) {
        if x == 0 {
            Ok(Bool::False)
        } else if x == 1 {
            Ok(Bool::True)
        } else {
            proof {
                assert forall|v: Self| #[trigger] v.spec_value() != x by {
                    match v {
                        Bool::False => {},
                        Bool::True => {},
                    }
                }
            }
            Err(ValidationError::new(x))
        }
    }

    fn convert_unchecked(x: c_int) -> (r: Self) {
        if x == 0 {
            Bool::False
        } else {
            proof {
                let v = choose|v: Self| #[trigger] v.spec_value() == x;
                match v {
                    Bool::False => {},
                    Bool::True => {},
                }
            }
            Bool::True
        }
    }

    fn into_value(self) -> (r: c_int) {
        match self {
            Bool::False => 0,
            Bool::True => 1,
        }
    }
}

/// A C-style enum value that may hold an integer that is no valid variant,
/// for libraries that may add variants later or hand back garbage.
#[derive(Hash, PartialEq, Eq, PartialOrd, Ord)]
pub struct MaybeInvalid<T: CEnum>(pub(crate) c_int, pub(crate) PhantomData<T>);

impl<T: CEnum> Clone for MaybeInvalid<T> {
    fn clone(&self) -> (r: Self) {
        MaybeInvalid(self.0, PhantomData)
    }
}

impl<T: CEnum> Copy for MaybeInvalid<T> {
}

/// Whether `x` is the value of some variant of `T`.
pub open spec fn is_valid_value<T: CEnum>(x: c_int) -> bool {
    exists|v: T| #[trigger] v.spec_value() == x
}

/// The variant of `T` whose value is `x`, if there is one.
pub open spec fn variant_of<T: CEnum>(x: c_int) -> Option<T> {
    if is_valid_value::<T>(x) {
        Some(choose|v: T| #[trigger] v.spec_value() == x)
    } else {
        None
    }
}

/// A variant is the one variant that has its value, so storing it in a
/// [`MaybeInvalid`] and getting it back yields the same variant.
pub proof fn law_variant_of_value<T: CEnum>(v: T)
    ensures
        variant_of::<T>(v.spec_value()) == Some(v),
{
    assert(is_valid_value::<T>(v.spec_value()));
    let w = choose|w: T| #[trigger] w.spec_value() == v.spec_value();
    T::lemma_value_injective(v, w);
}

impl<T: CEnum> MaybeInvalid<T> {
    /// The raw C value.
    pub closed spec fn value(&self) -> c_int {
        self.0
    }

    /// The variant whose value is held, or an error carrying the value if no
    /// variant has it.
    pub fn get(self) -> (r: Result<T, ValidationError<T>>)
        ensures
            match variant_of::<T>(self.value()) {
                Some(v) => r == Ok::<T, ValidationError<T>>(v),
                None => r is Err && r->Err_0.value() == self.value(),
            },
    {
        let r = T::try_from_c_int(self.0);
        proof {
            if let Ok(w) = r {
                law_variant_of_value(w);
            }
        }
        r
    }

    /// The variant whose value is held, which the caller guarantees is valid.
    pub fn get_unchecked(self) -> (r: T)
        requires
            is_valid_value::<T>(self.value()),
        ensures
            r.spec_value() == self.value(),
            variant_of::<T>(self.value()) == Some(r),
    {
        let r = T::convert_unchecked(self.0);
        proof {
            law_variant_of_value(r);
        }
        r
    }

    /// Holds the value of `data`.
    pub fn new(data: T) -> (r: Self)
        ensures
            r.value() == data.spec_value(),
    {
        MaybeInvalid(data.into_value(), PhantomData)
    }
}

/// Whether two values have the same representation.
pub fn are_bitwise_equal<T: BitwiseEq>(x: T, y: T) -> (r: bool)
    ensures
        r == (x == y),
{
    x.bitwise_eq(&y)
}

/// The byte with the same bits as the C character `c`.
pub open spec fn byte_of(c: c_char) -> u8 {
    c as u8
}

/// The C character with the same bits as the byte `b`.
pub open spec fn c_char_of(b: u8) -> c_char {
    b as c_char
}

/// The bytes with the same bits as the C characters `s`.
pub open spec fn bytes_of(s: Seq<c_char>) -> Seq<u8> {
    s.map_values(|c: c_char| byte_of(c))
}

/// The C characters with the same bits as the bytes `s`.
pub open spec fn c_chars_of(s: Seq<u8>) -> Seq<c_char> {
    s.map_values(|b: u8| c_char_of(b))
}

/// Reinterpreting a byte as a C character and back gives the byte again,
/// and only the zero byte becomes the nul character.
pub proof fn lemma_byte_c_char(b: u8)
    ensures
        byte_of(c_char_of(b)) == b,
        (c_char_of(b) == 0) == (b == 0),
{
    assert((b as i8) as u8 == b) by (bit_vector);
    assert(((b as i8) == 0) == (b == 0)) by (bit_vector);
}

/// Reinterpreting a C character as a byte and back gives the character again,
/// and only the nul character becomes the zero byte.
pub proof fn lemma_c_char_byte(c: c_char)
    ensures
        c_char_of(byte_of(c)) == c,
        (byte_of(c) == 0) == (c == 0),
{
    assert((c as u8) as i8 == c) by (bit_vector);
    assert(((c as u8) == 0) == (c == 0)) by (bit_vector);
}

/// A C character becomes the byte with the same bits: a non-negative value
/// stays as it is, a negative one gains 256.
pub proof fn law_byte_of(c: c_char)
    ensures
        byte_of(c) as int == (if c < 0 { c + 256 } else { c as int }),
{
    if c < 0 {
        assert(c < 0 ==> (c as u8) as u16 == (c as i16 + 256) as u16) by (bit_vector);
    }
}

/// A byte becomes the C character with the same bits: a value below 128
/// stays as it is, a larger one loses 256.
pub proof fn law_c_char_of(b: u8)
    ensures
        c_char_of(b) as int == (if b < 128 { b as int } else { b - 256 }),
{
    if b >= 128 {
        assert(b >= 128 ==> (b as i8) as i16 == (b as i16) - 256) by (bit_vector);
    }
}

/// Converting C characters to bytes keeps their number and order, and each
/// byte has its character's bits.
pub proof fn law_bytes_of(s: Seq<c_char>)
    ensures
        bytes_of(s).len() == s.len(),
        forall|i: int|
            0 <= i < s.len() ==> #[trigger] bytes_of(s)[i] as int == (if s[i] < 0 {
                s[i] + 256
            } else {
                s[i] as int
            }),
{
    assert forall|i: int| 0 <= i < s.len() implies #[trigger] bytes_of(s)[i] as int == (if s[i]
        < 0 {
        s[i] + 256
    } else {
        s[i] as int
    }) by {
        law_byte_of(s[i]);
    }
}

/// Converting bytes to C characters keeps their number and order, and each
/// character has its byte's bits.
pub proof fn law_c_chars_of(s: Seq<u8>)
    ensures
        c_chars_of(s).len() == s.len(),
        forall|i: int|
            0 <= i < s.len() ==> #[trigger] c_chars_of(s)[i] as int == (if s[i] < 128 {
                s[i] as int
            } else {
                s[i] - 256
            }),
{
    assert forall|i: int| 0 <= i < s.len() implies #[trigger] c_chars_of(s)[i] as int == (if s[i]
        < 128 {
        s[i] as int
    } else {
        s[i] - 256
    }) by {
        law_c_char_of(s[i]);
    }
}

/// Converting a `bool` to a [`Bool`] gives `True` exactly for `true`, and
/// converting back and forth gives the value one started from.
pub proof fn law_bool_from(b: bool, x: Bool)
    ensures
        <Bool as FromSpec<bool>>::obeys_from_spec(),
        <bool as FromSpec<Bool>>::obeys_from_spec(),
        (<Bool as FromSpec<bool>>::from_spec(b) == Bool::True) == b,
        <bool as FromSpec<Bool>>::from_spec(x) == (x == Bool::True),
        <bool as FromSpec<Bool>>::from_spec(<Bool as FromSpec<bool>>::from_spec(b)) == b,
        <Bool as FromSpec<bool>>::from_spec(<bool as FromSpec<Bool>>::from_spec(x)) == x,
        <Bool as FromSpec<bool>>::from_spec(b).spec_value() == (if b { 1int } else { 0int }),
{
}

/// Reinterprets C characters as bytes. The bytes are copied, since safe code
/// cannot view one slice as the other.
pub fn c_char_to_bytes(x: &[c_char]) -> (r: Vec<u8>)
    ensures
        r@ == bytes_of(x@),
{
    let mut v: Vec<u8> = Vec::new();
    let mut i: usize = 0;
    while i < x.len()
        invariant
            i <= x@.len(),
            v@ == bytes_of(x@.take(i as int)),
        decreases x@.len() - i,
    {
        v.push(x[i] as u8);
        i += 1;
        assert(v@ =~= bytes_of(x@.take(i as int)));
    }
    assert(x@.take(x@.len() as int) =~= x@);
    v
}

/// Reinterprets bytes as C characters, copying them.
pub fn bytes_to_c_char(x: &[u8]) -> (r: Vec<c_char>)
    ensures
        r@ == c_chars_of(x@),
{
    let mut v: Vec<c_char> = Vec::new();
    let mut i: usize = 0;
    while i < x.len()
        invariant
            i <= x@.len(),
            v@ == c_chars_of(x@.take(i as int)),
        decreases x@.len() - i,
    {
        v.push(x[i] as c_char);
        i += 1;
        assert(v@ =~= c_chars_of(x@.take(i as int)));
    }
    assert(x@.take(x@.len() as int) =~= x@);
    v
}

/// Converts a vector of C characters into a vector of bytes.
pub fn c_char_to_byte_vec(x: Vec<c_char>) -> (r: Vec<u8>)
    ensures
        r@ == bytes_of(x@),
{
    c_char_to_bytes(x.as_slice())
}

} // verus!
