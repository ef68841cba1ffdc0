//! C strings bounded to a fixed number of bytes.
use std::borrow::Cow;
use std::hash::{Hash, Hasher};
use std::str::Utf8Error;
use vstd::prelude::*;
use vstd::std_specs::cmp::PartialEqSpec;
use vstd::std_specs::cmp::PartialEqSpecImpl;
use vstd::string::*;
use vstd::utf8::*;

use crate::senti::{
    content, content_len, filled, lemma_content_filled, lemma_content_len, min_spec, read_len,
    sentinels, slices_equal, spec_from_slice, terminated_len, Senti, Terminated, law_from_slice,
    lemma_content_no_sentinel, hash_slice,
};
use crate::{bytes_of, bytes_to_c_char, c_char, c_char_to_bytes, c_chars_of};

verus! {

/// The error `std::str::from_utf8` reports for bytes that are not UTF-8.
#[verifier::external_type_specification]
#[verifier::external_body]
pub struct ExUtf8Error(Utf8Error);

/// What `String::from_utf8_lossy` decodes from `bytes`: their characters,
/// with each invalid sequence replaced by U+FFFD.
pub uninterp spec fn utf8_lossy(bytes: Seq<u8>) -> Seq<char>;

/// Calls `std::str::from_utf8`, which succeeds exactly when `v` is valid
/// UTF-8 and then views the same bytes as a string.
#[verifier::external_body]
fn str_from_utf8(v: &[u8]) -> (r: Result<&str, Utf8Error>)
    ensures
        r is Ok <==> valid_utf8(v@),
        r is Ok ==> r.unwrap().spec_bytes() == v@,
{
    std::str::from_utf8(v)
}

/// Calls `String::from_utf8_lossy`. Its result is named by `utf8_lossy`;
/// on valid UTF-8 it is the decoded string itself.
#[verifier::external_body]
fn string_from_utf8_lossy(v: &[u8]) -> (r: Cow<'_, str>)
    ensures
        r@ == utf8_lossy(v@),
        valid_utf8(v@) ==> r@ == decode_utf8(v@),
{
    String::from_utf8_lossy(v)
}

/// The largest character boundary of `bytes` at or below `index`, or the
/// length of `bytes` if `index` is past its end.
pub open spec fn floor_char_boundary(bytes: Seq<u8>, index: int) -> int
    decreases index,
{
    if index >= bytes.len() {
        bytes.len() as int
    } else if index <= 0 {
        0
    } else if is_char_boundary(bytes, index) {
        index
    } else {
        floor_char_boundary(bytes, index - 1)
    }
}

/// The character boundary that [`BoundedCString::from_str_truncate`] cuts
/// at is the largest one at or below the index (clamped to the length).
pub proof fn law_floor_char_boundary(bytes: Seq<u8>, index: int)
    requires
        valid_utf8(bytes),
        0 <= index,
    ensures
        0 <= floor_char_boundary(bytes, index) <= bytes.len(),
        floor_char_boundary(bytes, index) <= index,
        is_char_boundary(bytes, floor_char_boundary(bytes, index)),
        forall|j: int|
            floor_char_boundary(bytes, index) < j <= index && j <= bytes.len()
                ==> !is_char_boundary(bytes, j),
    decreases index,
{
    is_char_boundary_start_end_of_seq(bytes);
    if index >= bytes.len() {
    } else if index <= 0 {
    } else if is_char_boundary(bytes, index) {
    } else {
        law_floor_char_boundary(bytes, index - 1);
    }
}

/// A byte string without nul bytes that fits is stored whole by
/// [`BoundedCString::from_bytes`] and read back whole by
/// [`BoundedCString::to_bytes`].
pub proof fn law_bytes_round_trip(bytes: Seq<u8>, n: nat)
    requires
        !bytes.contains(0),
        bytes.len() <= n,
    ensures
        spec_from_slice(bytes, n) is Some,
        content(spec_from_slice(bytes, n).unwrap()) == bytes,
{
    assert(<u8 as Terminated>::spec_sentinel() == 0);
    law_from_slice(bytes, n);
    lemma_content_no_sentinel(bytes);
}

/// A bounded C string equals a `str` exactly when it has as many bytes
/// before its nul as the `str` has UTF-8 bytes, and they agree one by one.
pub proof fn law_eq_str<const N: usize>(s: BoundedCString<N>, t: &str)
    ensures
        <BoundedCString<N> as PartialEqSpec<str>>::obeys_eq_spec(),
        PartialEqSpec::eq_spec(&s, t) <==> (content(s@).len() == t.spec_bytes().len() && forall|
            j: int,
        | 0 <= j < t.spec_bytes().len() ==> content(s@)[j] == t.spec_bytes()[j]),
{
    if content(s@).len() == t.spec_bytes().len() && forall|j: int|
        0 <= j < t.spec_bytes().len() ==> content(s@)[j] == t.spec_bytes()[j] {
        assert(content(s@) =~= t.spec_bytes());
    }
}

/// Two bounded C strings are equal exactly when they have the same number of
/// bytes before their nul and those bytes agree one by one, whatever follows.
pub proof fn law_eq_bounded_cstring<const N: usize, const M: usize>(
    s: BoundedCString<N>,
    t: BoundedCString<M>,
)
    ensures
        <BoundedCString<N> as PartialEqSpec<BoundedCString<M>>>::obeys_eq_spec(),
        PartialEqSpec::eq_spec(&s, &t) <==> (content(s@).len() == content(t@).len() && forall|
            j: int,
        | 0 <= j < content(t@).len() ==> content(s@)[j] == content(t@)[j]),
{
    if content(s@).len() == content(t@).len() && forall|j: int|
        0 <= j < content(t@).len() ==> content(s@)[j] == content(t@)[j] {
        assert(content(s@) =~= content(t@));
    }
}

/// A C string of at most `N` bytes, nul-terminated when it is shorter than
/// `N`.
#[derive(Clone, Copy)]
pub struct BoundedCString<const N: usize> {
    data: Senti<u8, N>,
}

impl<const N: usize> View for BoundedCString<N> {
    type V = Seq<u8>;

    /// The whole buffer of `N` bytes.
    closed spec fn view(&self) -> Seq<u8> {
        self.data@
    }
}

impl<const N: usize> BoundedCString<N> {
    /// The length of every buffer is `N`.
    pub proof fn lemma_len(&self)
        ensures
            self@.len() == N,
    {
        self.data.lemma_len();
    }

    /// Copies a byte string. A nul byte ends it early; a string longer than
    /// `N` is accepted when its bytes before the first nul fit in `N`, that
    /// is, when a nul byte stands within its first `N + 1` bytes.
    pub fn from_bytes(data: &[u8]) -> (r: Option<Self>)
        ensures
            r is Some <==> spec_from_slice(data@, N as nat) is Some,
            r is Some ==> r.unwrap()@ == spec_from_slice(data@, N as nat).unwrap(),
    {
        match Senti::from_slice(data) {
            Some(data) => Some(Self { data }),
            None => None,
        }
    }

    /// Copies the UTF-8 bytes of `data`, as [`BoundedCString::from_bytes`].
    pub fn from_str(data: &str) -> (r: Option<Self>)
        ensures
            r is Some <==> spec_from_slice(data.spec_bytes(), N as nat) is Some,
            r is Some ==> r.unwrap()@ == spec_from_slice(data.spec_bytes(), N as nat).unwrap(),
    {
        Self::from_bytes(data.as_bytes())
    }

    /// Copies C characters, as [`BoundedCString::from_bytes`].
    pub fn from_c_chars(data: &[c_char]) -> (r: Option<Self>)
        ensures
            r is Some <==> spec_from_slice(bytes_of(data@), N as nat) is Some,
            r is Some ==> r.unwrap()@ == spec_from_slice(bytes_of(data@), N as nat).unwrap(),
    {
        let bytes = c_char_to_bytes(data);
        Self::from_bytes(bytes.as_slice())
    }

    /// Copies at most the first `N` bytes of `data`; a nul byte ends the
    /// string early.
    pub fn from_bytes_truncate(data: &[u8]) -> (r: Self)
        ensures
            r@ == filled(data@.take(min_spec(data@.len(), N as nat) as int), N as nat),
    {
        Self { data: Senti::from_slice_truncate(data) }
    }

    /// Copies at most the first `N` C characters of `data`.
    pub fn from_c_chars_truncate(data: &[c_char]) -> (r: Self)
        ensures
            r@ == filled(
                bytes_of(data@).take(min_spec(data@.len(), N as nat) as int),
                N as nat,
            ),
    {
        let bytes = c_char_to_bytes(data);
        Self::from_bytes_truncate(bytes.as_slice())
    }

    /// Copies at most the first `N` bytes of `data`, cutting before a
    /// character that would not fit whole, so that the string stays valid
    /// UTF-8. A nul byte ends the string early.
    pub fn from_str_truncate(data: &str) -> (r: Self)
        ensures
            r@ == filled(
                data.spec_bytes().take(floor_char_boundary(data.spec_bytes(), N as int)),
                N as nat,
            ),
            valid_utf8(content(r@)),
    {
        let bytes = data.as_bytes();
        let ghost b = data.spec_bytes();
        proof {
            encode_utf8_valid_utf8(data@);
        }
        let mut cut: usize = if bytes.len() < N {
            bytes.len()
        } else {
            N
        };
        while !data.is_char_boundary(cut)
            invariant
                b == data.spec_bytes(),
                bytes@ == b,
                valid_utf8(b),
                cut <= b.len(),
                cut <= N,
                floor_char_boundary(b, cut as int) == floor_char_boundary(b, N as int),
            decreases cut,
        {
            proof {
                is_char_boundary_start_end_of_seq(b);
            }
            cut -= 1;
        }
        proof {
            is_char_boundary_start_end_of_seq(b);
            valid_utf8_split(b, cut as int);
        }
        let head = vstd::slice::slice_subrange(bytes, 0, cut);
        assert(head@ == b.take(cut as int));
        let r = Self { data: Senti::from_slice_unchecked(head) };
        proof {
            let t = b.take(cut as int);
            lemma_content_filled(t, N as nat);
            lemma_content_len(t);
            let c = content_len(t) as int;
            assert(t == b.subrange(0, cut as int));
            if c < t.len() {
                assert(t[c] == <u8 as Terminated>::spec_sentinel());
                assert(t[c] == 0);
                is_char_boundary_iff_not_is_continuation_byte(t, c);
                valid_utf8_split(t, c);
            } else {
                assert(t.take(c) =~= t);
            }
        }
        r
    }

    /// Copies the bytes of a C string given with its nul terminator, up to
    /// and including the nul or up to `N` bytes, whichever comes first. The
    /// bytes read must lie within `data`: it holds a nul or at least `N` bytes.
    pub fn from_cstr_truncate(data: &[u8]) -> (r: Self)
        requires
            N <= data@.len() || content_len(data@) < data@.len(),
        ensures
            r@ == filled(data@.take(read_len(data@, N as nat) as int), N as nat),
    {
        Self { data: Senti::from_ptr(data) }
    }

    /// The string without its nul terminator, as C characters.
    pub fn to_c_chars(&self) -> (r: Vec<c_char>)
        ensures
            r@ == c_chars_of(content(self@)),
    {
        bytes_to_c_char(self.data.to_slice())
    }

    /// The string without its nul terminator, as C characters.
    pub fn to_c_chars_mut(&self) -> (r: Vec<c_char>)
        ensures
            r@ == c_chars_of(content(self@)),
    {
        self.to_c_chars()
    }

    /// The string without its nul terminator.
    pub fn to_bytes(&self) -> (r: &[u8])
        ensures
            r@ == content(self@),
    {
        self.data.to_slice()
    }

    /// The string without its nul terminator, exclusively.
    pub fn to_bytes_mut(&mut self) -> (r: &mut [u8])
        ensures
            r@ == content(old(self)@),
            final(self)@ == final(r)@ + old(self)@.skip(content_len(old(self)@) as int),
    {
        self.data.to_slice_mut()
    }

    /// The string with its nul terminator, or `None` if the buffer holds no
    /// nul byte.
    pub fn to_bytes_with_nul(&self) -> (r: Option<&[u8]>)
        ensures
            r is Some <==> terminated_len(self@) is Some,
            r is Some ==> r.unwrap()@ == self@.take(terminated_len(self@).unwrap() as int),
    {
        self.data.to_slice_with_terminator()
    }

    /// The string with its nul terminator, exclusively, or `None` if the
    /// buffer holds no nul byte.
    pub fn to_bytes_with_nul_mut(&mut self) -> (r: Option<&mut [u8]>)
        ensures
            r is Some <==> terminated_len(old(self)@) is Some,
            r is Some ==> r.unwrap()@ == old(self)@.take(terminated_len(old(self)@).unwrap() as int)
                && final(self)@ == final(r.unwrap())@ + old(self)@.skip(
                terminated_len(old(self)@).unwrap() as int,
            ),
            r is None ==> final(self)@ == old(self)@,
    {
        self.data.to_slice_with_terminator_mut()
    }

    /// The string with its nul terminator as C characters, or `None` if the
    /// buffer holds no nul byte.
    pub fn to_c_chars_with_nul(&self) -> (r: Option<Vec<c_char>>)
        ensures
            r is Some <==> terminated_len(self@) is Some,
            r is Some ==> r.unwrap()@ == c_chars_of(
                self@.take(terminated_len(self@).unwrap() as int),
            ),
    {
        match self.data.to_slice_with_terminator() {
            Some(s) => Some(bytes_to_c_char(s)),
            None => None,
        }
    }

    /// The string with exactly one nul byte, at its end: borrowed when the
    /// buffer holds a nul byte, else an owned copy of the whole buffer with a
    /// nul byte appended.
    pub fn guarantee_termination(&self) -> (r: Cow<'_, [u8]>)
        ensures
            match r {
                Cow::Borrowed(b) => terminated_len(self@) is Some && b@ == self@.take(
                    terminated_len(self@).unwrap() as int,
                ),
                Cow::Owned(v) => terminated_len(self@) is None && v@ == self@.push(0u8),
            },
            match r {
                Cow::Borrowed(b) => b@.last() == 0 && b@.drop_last() == content(self@),
                Cow::Owned(v) => v@.last() == 0 && v@.drop_last() == content(self@),
            },
    {
        assert(<u8 as Terminated>::spec_sentinel() == 0);
        self.data.guarantee_termination()
    }

    /// An empty string whose buffer is all zero bytes.
    pub fn zeroed() -> (r: Self)
        ensures
            r@ == sentinels::<u8>(N as nat),
            forall|i: int| 0 <= i < N ==> r@[i] == 0,
    {
        let r = Self { data: Senti::empty() };
        assert(<u8 as Terminated>::spec_sentinel() == 0);
        r
    }

    /// The whole buffer.
    pub fn buffer(&self) -> (r: &[u8; N])
        ensures
            r@ == self@,
    {
        self.data.buffer()
    }

    /// The whole buffer, exclusively.
    pub fn buffer_mut(&mut self) -> (r: &mut [u8; N])
        ensures
            r@ == old(self)@,
            final(self)@ == final(r)@,
    {
        self.data.buffer_mut()
    }

    /// The string as `&str`, or an error if it is not valid UTF-8.
    pub fn try_to_str(&self) -> (r: Result<&str, Utf8Error>)
        ensures
            r is Ok <==> valid_utf8(content(self@)),
            r is Ok ==> r.unwrap().spec_bytes() == content(self@),
    {
        str_from_utf8(self.to_bytes())
    }

    /// The string as `&str`; the caller guarantees that it is valid UTF-8.
    pub fn to_str_unchecked(&self) -> (r: &str)
        requires
            valid_utf8(content(self@)),
        ensures
            r.spec_bytes() == content(self@),
    {
        match str_from_utf8(self.to_bytes()) {
            Ok(s) => s,
            Err(_) => {
                assert(false);
                ""
            },
        }
    }

    /// The string decoded as UTF-8, with invalid sequences replaced by U+FFFD.
    pub fn to_str_lossy(&self) -> (r: Cow<'_, str>)
        ensures
            r@ == utf8_lossy(content(self@)),
            valid_utf8(content(self@)) ==> r@ == decode_utf8(content(self@)),
    {
        string_from_utf8_lossy(self.to_bytes())
    }
}

impl<const N: usize, const M: usize> PartialEq<BoundedCString<M>> for BoundedCString<N> {
    /// Two strings are equal when their bytes before the nul terminator are.
    fn eq(&self, other: &BoundedCString<M>) -> (r: bool) {
        slices_equal(self.to_bytes(), other.to_bytes())
    }
}

impl<const N: usize, const M: usize> PartialEqSpecImpl<BoundedCString<M>> for BoundedCString<N> {
    open spec fn obeys_eq_spec() -> bool {
        true
    }

    open spec fn eq_spec(&self, other: &BoundedCString<M>) -> bool {
        content(self@) == content(other@)
    }
}

impl<const N: usize> Eq for BoundedCString<N> {
}

impl<const N: usize> PartialEq<str> for BoundedCString<N> {
    /// A string equals a `str` when its bytes before the nul terminator are
    /// the UTF-8 bytes of the `str`.
    fn eq(&self, other: &str) -> (r: bool) {
        slices_equal(self.to_bytes(), other.as_bytes())
    }
}

impl<const N: usize> PartialEqSpecImpl<str> for BoundedCString<N> {
    open spec fn obeys_eq_spec() -> bool {
        true
    }

    open spec fn eq_spec(&self, other: &str) -> bool {
        content(self@) == other.spec_bytes()
    }
}

impl<const N: usize> Hash for BoundedCString<N> {
    /// Hashes the bytes before the nul terminator, as equality compares them.
    fn hash<H: Hasher>(&self, state: &mut H) {
        hash_slice(self.to_bytes(), state)
    }
}

} // verus!
