//! Sentinel-terminated arrays of bounded capacity.
use std::borrow::Cow;
use std::hash::{Hash, Hasher};
use vstd::prelude::*;
use vstd::std_specs::cmp::PartialEqSpec;
use vstd::std_specs::cmp::PartialEqSpecImpl;
use vstd::std_specs::iter::IteratorSpec;

verus! {

/// Types whose values can be compared bit for bit.
pub trait BitwiseEq: Copy {
    /// Whether the two values have the same representation.
    fn bitwise_eq(&self, other: &Self) -> (r: bool)
        ensures
            r == (*self == *other),
    ;
}

/// A type with a sentinel value, used to terminate an array.
pub trait Terminated: BitwiseEq {
    /// The sentinel value.
    spec fn spec_sentinel() -> Self;

    /// Returns the sentinel value.
    fn sentinel() -> (r: Self)
        ensures
            r == Self::spec_sentinel(),
    ;
}

impl BitwiseEq for i8 {
    fn bitwise_eq(&self, other: &Self) -> (r: bool) {
        *self == *other
    }
}

impl BitwiseEq for u8 {
    fn bitwise_eq(&self, other: &Self) -> (r: bool) {
        *self == *other
    }
}

impl BitwiseEq for i16 {
    fn bitwise_eq(&self, other: &Self) -> (r: bool) {
        *self == *other
    }
}

impl BitwiseEq for u16 {
    fn bitwise_eq(&self, other: &Self) -> (r: bool) {
        *self == *other
    }
}

impl BitwiseEq for i32 {
    fn bitwise_eq(&self, other: &Self) -> (r: bool) {
        *self == *other
    }
}

impl BitwiseEq for u32 {
    fn bitwise_eq(&self, other: &Self) -> (r: bool) {
        *self == *other
    }
}

impl BitwiseEq for i64 {
    fn bitwise_eq(&self, other: &Self) -> (r: bool) {
        *self == *other
    }
}

impl BitwiseEq for u64 {
    fn bitwise_eq(&self, other: &Self) -> (r: bool) {
        *self == *other
    }
}

impl BitwiseEq for i128 {
    fn bitwise_eq(&self, other: &Self) -> (r: bool) {
        *self == *other
    }
}

impl BitwiseEq for u128 {
    fn bitwise_eq(&self, other: &Self) -> (r: bool) {
        *self == *other
    }
}

impl BitwiseEq for isize {
    fn bitwise_eq(&self, other: &Self) -> (r: bool) {
        *self == *other
    }
}

impl BitwiseEq for usize {
    fn bitwise_eq(&self, other: &Self) -> (r: bool) {
        *self == *other
    }
}

impl BitwiseEq for bool {
    fn bitwise_eq(&self, other: &Self) -> (r: bool) {
        *self == *other
    }
}

impl BitwiseEq for char {
    fn bitwise_eq(&self, other: &Self) -> (r: bool) {
        *self == *other
    }
}


/// C strings end in a nul character.
impl Terminated for i8 {
    open spec fn spec_sentinel() -> Self {
        0
    }

    fn sentinel() -> (r: Self) {
        0
    }
}

/// Byte strings end in a nul byte.
impl Terminated for u8 {
    open spec fn spec_sentinel() -> Self {
        0
    }

    fn sentinel() -> (r: Self) {
        0
    }
}

/// Index of the first sentinel in `s`, if there is one.
pub open spec fn first_sentinel<T: Terminated>(s: Seq<T>) -> Option<int> {
    s.index_of_first(T::spec_sentinel())
}

/// Length of `s` up to and including its first sentinel, if it has one.
pub open spec fn terminated_len<T: Terminated>(s: Seq<T>) -> Option<nat> {
    match first_sentinel(s) {
        Some(i) => Some((i + 1) as nat),
        None => None,
    }
}

/// Number of elements before the first sentinel (all of them if there is none).
pub open spec fn content_len<T: Terminated>(s: Seq<T>) -> nat {
    match first_sentinel(s) {
        Some(i) => i as nat,
        None => s.len(),
    }
}

/// The elements before the first sentinel.
pub open spec fn content<T: Terminated>(s: Seq<T>) -> Seq<T> {
    s.take(content_len(s) as int)
}

/// Length of `s` up to and including its first sentinel, or all of `s`.
pub open spec fn terminated_or_full_len<T: Terminated>(s: Seq<T>) -> nat {
    match terminated_len(s) {
        Some(l) => l,
        None => s.len(),
    }
}

/// `n` sentinels.
pub open spec fn sentinels<T: Terminated>(n: nat) -> Seq<T> {
    Seq::new(n, |i: int| T::spec_sentinel())
}

/// `s` followed by as many sentinels as it takes to reach length `n`.
pub open spec fn filled<T: Terminated>(s: Seq<T>, n: nat) -> Seq<T> {
    s + sentinels::<T>((n - s.len()) as nat)
}

/// Characterises the first sentinel by the position `i` where a scan stops.
pub proof fn lemma_first_sentinel_at<T: Terminated>(s: Seq<T>, i: int)
    requires
        0 <= i <= s.len(),
        forall|j: int| 0 <= j < i ==> s[j] != T::spec_sentinel(),
        i < s.len() ==> s[i] == T::spec_sentinel(),
    ensures
        content_len(s) == i,
        i < s.len() ==> first_sentinel(s) == Some(i) && terminated_len(s) == Some((i + 1) as nat),
        i == s.len() ==> first_sentinel(s) is None && terminated_len(s) is None,
        terminated_or_full_len(s) == (if i < s.len() { i + 1 } else { i }),
{
    s.index_of_first_ensures(T::spec_sentinel());
    match s.index_of_first(T::spec_sentinel()) {
        Some(k) => {
            if k < i {
                assert(s[k] != T::spec_sentinel());
            } else if k > i {
                assert(s[i] == T::spec_sentinel());
            }
        },
        None => {
            if i < s.len() {
                assert(s.contains(T::spec_sentinel())) by {
                    assert(s[i] == T::spec_sentinel());
                }
            }
        },
    }
}

/// The basic facts about where the first sentinel of `s` stands.
pub proof fn lemma_content_len<T: Terminated>(s: Seq<T>)
    ensures
        content_len(s) <= s.len(),
        forall|j: int| 0 <= j < content_len(s) ==> s[j] != T::spec_sentinel(),
        content_len(s) < s.len() ==> s[content_len(s) as int] == T::spec_sentinel(),
        content_len(s) < s.len() <==> terminated_len(s) is Some,
        content_len(s) < s.len() ==> terminated_len(s) == Some(content_len(s) + 1),
        terminated_or_full_len(s) <= s.len(),
        !content(s).contains(T::spec_sentinel()),
{
    s.index_of_first_ensures(T::spec_sentinel());
    let c = content(s);
    assert forall|j: int| 0 <= j < c.len() implies c[j] != T::spec_sentinel() by {
        assert(c[j] == s[j]);
    }
}

/// A prefix that stops at or after the first sentinel has the same content.
pub proof fn lemma_content_prefix<T: Terminated>(s: Seq<T>, k: int)
    requires
        content_len(s) <= k <= s.len(),
    ensures
        content(s.take(k)) == content(s),
        content_len(s.take(k)) == content_len(s),
{
    lemma_content_len(s);
    let t = s.take(k);
    let c = content_len(s) as int;
    lemma_first_sentinel_at(t, c);
    assert(t.take(c) =~= s.take(c));
}

/// A prefix that stops before the first sentinel is all content.
pub proof fn lemma_content_short_prefix<T: Terminated>(s: Seq<T>, k: int)
    requires
        0 <= k <= content_len(s),
        k <= s.len(),
    ensures
        content(s.take(k)) == s.take(k),
        content_len(s.take(k)) == k,
{
    lemma_content_len(s);
    let t = s.take(k);
    lemma_first_sentinel_at(t, k);
    assert(t.take(k) =~= t);
}

/// Filling with sentinels does not change the content.
pub proof fn lemma_content_filled<T: Terminated>(s: Seq<T>, n: nat)
    requires
        s.len() <= n,
    ensures
        filled(s, n).len() == n,
        filled(s, n).take(s.len() as int) == s,
        content(filled(s, n)) == content(s),
        content_len(filled(s, n)) == content_len(s),
{
    let f = filled(s, n);
    lemma_content_len(s);
    assert(f.take(s.len() as int) =~= s);
    let c = content_len(s) as int;
    assert forall|j: int| 0 <= j < c implies f[j] != T::spec_sentinel() by {
        assert(f[j] == s[j]);
    }
    if c < n {
        assert(f[c] == T::spec_sentinel());
    }
    lemma_first_sentinel_at(f, c);
    assert(f.take(c) =~= s.take(c));
}

/// Taking a prefix of `s` keeps the content up to the prefix's length.
pub proof fn lemma_content_take<T: Terminated>(s: Seq<T>, k: int)
    requires
        0 <= k,
    ensures
        content(s.take(min_spec(s.len(), k as nat) as int)) == content(s).take(
            min_spec(content_len(s), k as nat) as int,
        ),
{
    lemma_content_len(s);
    let m = min_spec(s.len(), k as nat) as int;
    if content_len(s) <= m {
        lemma_content_prefix(s, m);
        assert(content(s).take(content_len(s) as int) =~= content(s));
    } else {
        lemma_content_short_prefix(s, m);
        assert(content(s).take(m) =~= s.take(m));
    }
}

/// A sequence without sentinel is all content.
pub proof fn lemma_content_no_sentinel<T: Terminated>(s: Seq<T>)
    requires
        !s.contains(T::spec_sentinel()),
    ensures
        content(s) == s,
        content_len(s) == s.len(),
{
    lemma_first_sentinel_at(s, s.len() as int);
    assert(s.take(s.len() as int) =~= s);
}

/// A sentinel at index `i` bounds the content length by `i`.
pub proof fn lemma_content_len_at_most<T: Terminated>(s: Seq<T>, i: int)
    requires
        0 <= i < s.len(),
        s[i] == T::spec_sentinel(),
    ensures
        content_len(s) <= i,
{
    lemma_content_len(s);
}

/// The smaller of two naturals.
pub open spec fn min_spec(x: nat, y: nat) -> nat {
    if x < y { x } else { y }
}

/// What [`Senti::from_slice`] makes of `s` for capacity `n`: the whole of `s`
/// when it fits; else, when the elements before its first sentinel fit, those
/// elements followed by the sentinel if there is room for it; the rest filled
/// with sentinels. Nothing when the elements before the sentinel do not fit.
pub open spec fn spec_from_slice<T: Terminated>(s: Seq<T>, n: nat) -> Option<Seq<T>> {
    if s.len() <= n {
        Some(filled(s, n))
    } else if content_len(s) <= n {
        Some(filled(s.take(read_len(s, n) as int), n))
    } else {
        None
    }
}

/// How many elements [`Senti::from_ptr`] reads from `s` for capacity `n`.
pub open spec fn read_len<T: Terminated>(s: Seq<T>, n: nat) -> nat {
    min_spec(content_len(s) + 1, n)
}

/// What [`Senti::from_ptr`] makes of `s` keeps the content of `s`, cut to `n`.
pub proof fn lemma_read_content<T: Terminated>(s: Seq<T>, n: nat)
    requires
        n <= s.len() || content_len(s) < s.len(),
    ensures
        read_len(s, n) <= s.len(),
        read_len(s, n) <= n,
        content(filled(s.take(read_len(s, n) as int), n)) == content(s).take(
            min_spec(content_len(s), n) as int,
        ),
{
    lemma_content_len(s);
    let k = read_len(s, n) as int;
    lemma_content_take(s, k);
    lemma_content_filled(s.take(k), n);
}

/// [`Senti::from_slice`] succeeds exactly when the slice fits, or its elements
/// before the first sentinel fit; the array it makes holds the same elements
/// before its first sentinel as the slice.
pub proof fn law_from_slice<T: Terminated>(s: Seq<T>, n: nat)
    ensures
        spec_from_slice(s, n) is Some <==> (s.len() <= n || content_len(s) <= n),
        spec_from_slice(s, n) is Some ==> spec_from_slice(s, n).unwrap().len() == n
            && content(spec_from_slice(s, n).unwrap()) == content(s),
{
    lemma_content_len(s);
    if s.len() <= n {
        lemma_content_filled(s, n);
    } else if content_len(s) <= n {
        lemma_read_content(s, n);
        lemma_content_filled(s.take(read_len(s, n) as int), n);
        assert(content(s).take(content_len(s) as int) =~= content(s));
    }
}

/// The content of a prefix is the content cut to the prefix's length.
pub proof fn lemma_content_len_take<T: Terminated>(s: Seq<T>, k: int)
    requires
        0 <= k <= s.len(),
    ensures
        content_len(s.take(k)) == min_spec(content_len(s), k as nat),
{
    lemma_content_len(s);
    if content_len(s) <= k {
        lemma_content_prefix(s, k);
    } else {
        lemma_content_short_prefix(s, k);
    }
}

/// Filling keeps the given elements in place and puts sentinels after them,
/// up to the capacity.
pub proof fn law_filled<T: Terminated>(s: Seq<T>, n: nat)
    requires
        s.len() <= n,
    ensures
        filled(s, n).len() == n,
        forall|i: int| 0 <= i < s.len() ==> #[trigger] filled(s, n)[i] == s[i],
        forall|i: int| s.len() <= i < n ==> #[trigger] filled(s, n)[i] == T::spec_sentinel(),
        sentinels::<T>(n).len() == n,
        forall|i: int| 0 <= i < n ==> #[trigger] sentinels::<T>(n)[i] == T::spec_sentinel(),
{
}

/// What [`Senti::from_slice`] stores: a slice that fits is copied whole,
/// past its sentinels too; a longer one is copied up to and including its
/// first sentinel, or up to the capacity when the elements before that
/// sentinel fill it exactly. The rest of the buffer holds sentinels.
pub proof fn law_from_slice_copies<T: Terminated>(s: Seq<T>, n: nat)
    ensures
        s.len() <= n ==> {
            let r = spec_from_slice(s, n).unwrap();
            &&& forall|i: int| 0 <= i < s.len() ==> #[trigger] r[i] == s[i]
            &&& forall|i: int| s.len() <= i < n ==> #[trigger] r[i] == T::spec_sentinel()
        },
        s.len() > n && content_len(s) < n ==> {
            let r = spec_from_slice(s, n).unwrap();
            &&& forall|i: int| 0 <= i <= content_len(s) ==> #[trigger] r[i] == s[i]
            &&& r[content_len(s) as int] == T::spec_sentinel()
            &&& forall|i: int| content_len(s) < i < n ==> #[trigger] r[i] == T::spec_sentinel()
        },
        s.len() > n && content_len(s) == n ==> spec_from_slice(s, n).unwrap() == s.take(n as int),
{
    lemma_content_len(s);
    if s.len() <= n {
        law_filled(s, n);
    } else if content_len(s) <= n {
        let k = read_len(s, n) as int;
        law_filled(s.take(k), n);
        if content_len(s) == n {
            assert(filled(s.take(k), n) =~= s.take(n as int));
        }
    }
}

/// Writing only to the elements before the first sentinel (as through
/// [`Senti::to_slice_mut`]) cannot lengthen the array.
pub proof fn law_write_before_sentinel<T: Terminated>(before: Seq<T>, after: Seq<T>)
    requires
        after.len() == before.len(),
        after.skip(content_len(before) as int) == before.skip(content_len(before) as int),
    ensures
        content_len(after) <= content_len(before),
{
    lemma_content_len(before);
    let c = content_len(before) as int;
    if c < before.len() {
        assert(after[c] == after.skip(c)[0]);
        assert(before[c] == before.skip(c)[0]);
        lemma_content_len_at_most(after, c);
    } else {
        lemma_content_len(after);
    }
}

/// An array of up to `N` elements of type `T`, ended by a sentinel when it
/// holds fewer than `N`. If `len < N`, the element at index `len` is the
/// sentinel. Equality and search for the sentinel go by bitwise comparison.
#[derive(Clone, Copy)]
pub struct Senti<T: Copy, const N: usize> {
    buf: [T; N],
}

impl<T: Copy, const N: usize> View for Senti<T, N> {
    type V = Seq<T>;

    /// The whole buffer, including what follows the first sentinel.
    closed spec fn view(&self) -> Seq<T> {
        self.buf@
    }
}

fn min(x: usize, y: usize) -> (r: usize)
    ensures
        r == if x < y { x } else { y },
{
    if x < y {
        x
    } else {
        y
    }
}

/// Length of `s[..limit]` up to and including its first sentinel.
fn terminated_len_in<T: Terminated>(s: &[T], limit: usize) -> (r: Option<usize>)
    requires
        limit <= s@.len(),
    ensures
        match r {
            Some(l) => terminated_len(s@.take(limit as int)) == Some(l as nat),
            None => terminated_len(s@.take(limit as int)) is None,
        },
{
    let ghost t = s@.take(limit as int);
    let mut i: usize = 0;
    while i < limit
        invariant
            i <= limit <= s@.len(),
            t == s@.take(limit as int),
            forall|j: int| 0 <= j < i ==> t[j] != T::spec_sentinel(),
        decreases limit - i,
    {
        if s[i].bitwise_eq(&T::sentinel()) {
            proof {
                lemma_first_sentinel_at(t, i as int);
            }
            return Some(i + 1);
        }
        i += 1;
    }
    proof {
        lemma_first_sentinel_at(t, i as int);
    }
    None
}

impl<T: Terminated, const N: usize> Senti<T, N> {
    /// An empty array whose buffer holds `N` sentinels.
    pub fn empty() -> (r: Self)
        ensures
            r@ == sentinels::<T>(N as nat),
            content_len(r@) == 0,
    {
        let buf = [T::sentinel(); N];
        let r = Senti { buf };
        assert(r@ =~= sentinels::<T>(N as nat));
        proof {
            lemma_first_sentinel_at(r@, 0);
        }
        r
    }

    /// Copies `slice` into a new buffer and fills the rest with sentinels.
    /// The caller must ensure that `slice.len() <= N`.
    pub fn from_slice_unchecked(slice: &[T]) -> (r: Self)
        requires
            slice@.len() <= N,
        ensures
            r@ == filled(slice@, N as nat),
            content(r@) == content(slice@),
    {
        proof {
            lemma_content_filled(slice@, N as nat);
        }
        let mut buf = [T::sentinel(); N];
        let mut i: usize = 0;
        while i < slice.len()
            invariant
                slice@.len() <= N,
                i <= slice@.len(),
                buf@.len() == N,
                forall|j: int| 0 <= j < i ==> buf@[j] == slice@[j],
                forall|j: int| i <= j < N ==> buf@[j] == T::spec_sentinel(),
            decreases slice@.len() - i,
        {
            buf[i] = slice[i];
            i += 1;
        }
        let r = Senti { buf };
        assert(r@ =~= filled(slice@, N as nat));
        r
    }

    /// The length of every buffer is `N`.
    pub proof fn lemma_len(&self)
        ensures
            self@.len() == N,
    {
    }

    /// Copies `slice` into a new array. A slice longer than `N` is accepted
    /// when its elements before the first sentinel fit, that is, when a
    /// sentinel stands within its first `N + 1` elements; then those elements
    /// are copied, followed by the sentinel if there is room for it.
    /// Otherwise returns `None`.
    pub fn from_slice(slice: &[T]) -> (r: Option<Self>)
        ensures
            r is Some <==> spec_from_slice(slice@, N as nat) is Some,
            r is Some ==> r.unwrap()@ == spec_from_slice(slice@, N as nat).unwrap(),
    {
        if slice.len() <= N {
            Some(Self::from_slice_unchecked(slice))
        } else {
            proof {
                lemma_content_len(slice@.take(N + 1));
                lemma_content_len_take(slice@, N + 1);
            }
            match terminated_len_in(slice, N + 1) {
                Some(tl) => {
                    let cut = min(tl, N);
                    let head = vstd::slice::slice_subrange(slice, 0, cut);
                    assert(head@ == slice@.take(cut as int));
                    Some(Self::from_slice_unchecked(head))
                },
                None => None,
            }
        }
    }

    /// Copies the first `min(slice.len(), N)` elements of `slice` into a new
    /// array whose remaining elements are sentinels.
    pub fn from_slice_truncate(slice: &[T]) -> (r: Self)
        ensures
            r@ == filled(slice@.take(min_spec(slice@.len(), N as nat) as int), N as nat),
            content(r@) == content(slice@).take(min_spec(content_len(slice@), N as nat) as int),
    {
        proof {
            lemma_content_take(slice@, N as int);
        }
        let n = min(slice.len(), N);
        let head = vstd::slice::slice_subrange(slice, 0, n);
        assert(head@ == slice@.take(n as int));
        Self::from_slice_unchecked(head)
    }

    /// Reads an array from the start of `src`, copying elements until the
    /// first sentinel (which is copied too) or until `N` elements have been
    /// copied. The rest of the buffer holds sentinels. The reads must stay
    /// within `src`: either it holds a sentinel or at least `N` elements.
    pub fn from_ptr(src: &[T]) -> (r: Self)
        requires
            N <= src@.len() || content_len(src@) < src@.len(),
        ensures
            r@ == filled(src@.take(read_len(src@, N as nat) as int), N as nat),
            content(r@) == content(src@).take(min_spec(content_len(src@), N as nat) as int),
    {
        proof {
            lemma_read_content(src@, N as nat);
        }
        let mut buf = [T::sentinel(); N];
        let mut i: usize = 0;
        proof {
            lemma_content_len(src@);
        }
        while i < N
            invariant
                N <= src@.len() || content_len(src@) < src@.len(),
                content_len(src@) <= src@.len(),
                i <= N,
                i <= content_len(src@),
                buf@.len() == N,
                forall|j: int| 0 <= j < i ==> buf@[j] == src@[j],
                forall|j: int| i <= j < N ==> buf@[j] == T::spec_sentinel(),
                forall|j: int| 0 <= j < content_len(src@) ==> src@[j] != T::spec_sentinel(),
                content_len(src@) < src@.len() ==> src@[content_len(src@) as int] == T::spec_sentinel(),
            decreases N - i,
        {
            let elem = src[i];
            buf[i] = elem;
            if elem.bitwise_eq(&T::sentinel()) {
                assert(i == content_len(src@));
                let r = Senti { buf };
                assert(r@ =~= filled(src@.take(read_len(src@, N as nat) as int), N as nat));
                proof {
                    lemma_read_content(src@, N as nat);
                }
                return r;
            }
            i += 1;
        }
        let r = Senti { buf };
        assert(r@ =~= filled(src@.take(read_len(src@, N as nat) as int), N as nat));
        r
    }

    /// Length up to and including the first sentinel, if the buffer holds one.
    pub fn compute_terminated_len(&self) -> (r: Option<usize>)
        ensures
            match r {
                Some(l) => terminated_len(self@) == Some(l as nat),
                None => terminated_len(self@) is None,
            },
    {
        let s = self.buf.as_slice();
        assert(s@.take(N as int) =~= self@);
        terminated_len_in(s, N)
    }

    /// The length of the array: the index of the first sentinel, or `N`.
    pub fn compute_len(&self) -> (r: usize)
        ensures
            r == content_len(self@),
            r <= N,
    {
        proof {
            lemma_content_len(self@);
        }
        if let Some(len) = self.compute_terminated_len() {
            len - 1
        } else {
            N
        }
    }

    fn terminated_or_full(&self) -> (r: usize)
        ensures
            r == terminated_or_full_len(self@),
            r <= N,
    {
        proof {
            lemma_content_len(self@);
        }
        if let Some(len) = self.compute_terminated_len() {
            len
        } else {
            N
        }
    }

    fn slice_up_to(&self, len: usize) -> (r: &[T])
        requires
            len <= N,
        ensures
            r@ == self@.take(len as int),
    {
        vstd::slice::slice_subrange(self.buf.as_slice(), 0, len)
    }

    fn slice_up_to_mut(&mut self, len: usize) -> (r: &mut [T])
        requires
            len <= N,
        ensures
            r@ == old(self)@.take(len as int),
            final(self)@ == final(r)@ + old(self)@.skip(len as int),
    {
        let whole: &mut [T] = &mut self.buf;
        let (head, _tail) = whole.split_at_mut(len);
        head
    }

    /// The elements up to and including the first sentinel, or `None` if the
    /// buffer holds no sentinel.
    pub fn to_slice_with_terminator(&self) -> (r: Option<&[T]>)
        ensures
            r is Some <==> terminated_len(self@) is Some,
            r is Some ==> r.unwrap()@ == self@.take(terminated_len(self@).unwrap() as int),
            r is Some ==> r.unwrap()@.len() >= 1 && r.unwrap()@.last() == T::spec_sentinel()
                && r.unwrap()@.drop_last() == content(self@),
    {
        if let Some(len) = self.compute_terminated_len() {
            proof {
                lemma_content_len(self@);
            }
            let r = self.slice_up_to(len);
            assert(r@.drop_last() =~= content(self@));
            Some(r)
        } else {
            None
        }
    }

    /// The elements up to and including the first sentinel, or the whole
    /// buffer if it holds no sentinel.
    pub fn to_slice_with_terminator_or_full(&self) -> (r: &[T])
        ensures
            r@ == self@.take(terminated_or_full_len(self@) as int),
            N > 0 ==> r@.len() >= 1,
    {
        proof {
            lemma_content_len(self@);
        }
        let len = self.terminated_or_full();
        self.slice_up_to(len)
    }

    /// Like [`Senti::to_slice_with_terminator`], but exclusive: writes through
    /// the returned slice land in the buffer.
    pub fn to_slice_with_terminator_mut(&mut self) -> (r: Option<&mut [T]>)
        ensures
            r is Some <==> terminated_len(old(self)@) is Some,
            r is Some ==> r.unwrap()@ == old(self)@.take(terminated_len(old(self)@).unwrap() as int)
                && final(self)@ == final(r.unwrap())@ + old(self)@.skip(
                terminated_len(old(self)@).unwrap() as int,
            ),
            r is None ==> final(self)@ == old(self)@,
    {
        if let Some(len) = self.compute_terminated_len() {
            proof {
                lemma_content_len(self@);
            }
            Some(self.slice_up_to_mut(len))
        } else {
            None
        }
    }

    /// Like [`Senti::to_slice_with_terminator_or_full`], but exclusive.
    pub fn to_slice_with_terminator_or_full_mut(&mut self) -> (r: &mut [T])
        ensures
            r@ == old(self)@.take(terminated_or_full_len(old(self)@) as int),
            final(self)@ == final(r)@ + old(self)@.skip(terminated_or_full_len(old(self)@) as int),
    {
        let len = self.terminated_or_full();
        self.slice_up_to_mut(len)
    }

    /// The elements before the first sentinel; the slice holds no sentinel.
    pub fn to_slice(&self) -> (r: &[T])
        ensures
            r@ == content(self@),
            !r@.contains(T::spec_sentinel()),
    {
        proof {
            lemma_content_len(self@);
        }
        let len = self.compute_len();
        self.slice_up_to(len)
    }

    /// The elements before the first sentinel, exclusively.
    pub fn to_slice_mut(&mut self) -> (r: &mut [T])
        ensures
            r@ == content(old(self)@),
            final(self)@ == final(r)@ + old(self)@.skip(content_len(old(self)@) as int),
    {
        let len = self.compute_len();
        self.slice_up_to_mut(len)
    }

    /// A copy of the array with capacity `M`, keeping its length where it
    /// fits. With `M < N` the copy stops after the first sentinel or after `M`
    /// elements; with `M > N` the whole buffer is copied and a sentinel follows
    /// it. Positions that nothing was copied to hold sentinels.
    pub fn extend_or_truncate<const M: usize>(self) -> (r: Senti<T, M>)
        ensures
            M == N ==> r@ == self@,
            M < N ==> r@ == filled(self@.take(read_len(self@, M as nat) as int), M as nat),
            M > N ==> r@ == filled(self@, M as nat),
            content(r@) == content(self@).take(min_spec(content_len(self@), M as nat) as int),
            M < content_len(self@) ==> !r@.contains(T::spec_sentinel()),
    {
        proof {
            lemma_content_len(self@);
        }
        let src = self.buf.as_slice();
        if M < N {
            let r = Senti::<T, M>::from_ptr(src);
            proof {
                let s = self@;
                let k = read_len(s, M as nat) as int;
                lemma_content_filled(s.take(k), M as nat);
                if content_len(s) < M {
                    lemma_content_prefix(s, k);
                    assert(content(s).take(content_len(s) as int) =~= content(s));
                } else {
                    lemma_content_short_prefix(s, k);
                    assert(content(s).take(M as int) =~= s.take(k));
                    assert(filled(s.take(k), M as nat) =~= s.take(k));
                    assert forall|j: int| 0 <= j < r@.len() implies r@[j] != T::spec_sentinel() by {
                        assert(r@[j] == s[j]);
                    }
                }
            }
            r
        } else {
            let r = Senti::<T, M>::from_slice_unchecked(src);
            proof {
                let s = self@;
                lemma_content_filled(s, M as nat);
                assert(content(s).take(content_len(s) as int) =~= content(s));
                if M == N {
                    assert(filled(s, M as nat) =~= s);
                }
            }
            r
        }
    }

    /// The elements up to and including the first sentinel, borrowed; or, if
    /// the buffer holds no sentinel, an owned copy of the whole buffer with a
    /// sentinel appended. Either way the result ends in exactly one sentinel.
    pub fn guarantee_termination(&self) -> (r: Cow<'_, [T]>)
        ensures
            match r {
                Cow::Borrowed(b) => terminated_len(self@) is Some && b@ == self@.take(
                    terminated_len(self@).unwrap() as int,
                ),
                Cow::Owned(v) => terminated_len(self@) is None && v@ == self@.push(T::spec_sentinel()),
            },
            match r {
                Cow::Borrowed(b) => b@.last() == T::spec_sentinel() && b@.drop_last() == content(
                    self@,
                ),
                Cow::Owned(v) => v@.last() == T::spec_sentinel() && v@.drop_last() == content(
                    self@,
                ),
            },
    {
        proof {
            lemma_content_len(self@);
            if terminated_len(self@) is Some {
                assert(self@.take(terminated_or_full_len(self@) as int).drop_last() =~= content(
                    self@,
                ));
            } else {
                assert(self@.push(T::spec_sentinel()).drop_last() =~= self@);
                assert(self@.take(self@.len() as int) =~= self@);
            }
        }
        if let Some(len) = self.compute_terminated_len() {
            proof {
                lemma_content_len(self@);
            }
            Cow::Borrowed(self.slice_up_to(len))
        } else {
            let mut v: Vec<T> = Vec::new();
            let mut i: usize = 0;
            while i < N
                invariant
                    i <= N,
                    self@.len() == N,
                    v@ == self@.take(i as int),
                decreases N - i,
            {
                v.push(self.buf[i]);
                i += 1;
                assert(v@ =~= self@.take(i as int));
            }
            v.push(T::sentinel());
            assert(self@.take(N as int) =~= self@);
            Cow::Owned(v)
        }
    }
}

impl<T: Copy, const N: usize> Senti<T, N> {
    /// An array holding `array`; it ends at the first sentinel, if any.
    pub fn from_array(array: [T; N]) -> (r: Senti<T, N>)
        ensures
            r@ == array@,
    {
        Senti { buf: array }
    }

    /// The whole buffer, including what follows the first sentinel.
    pub fn buffer(&self) -> (r: &[T; N])
        ensures
            r@ == self@,
    {
        &self.buf
    }

    /// The whole buffer, exclusively. Every state of the buffer is a valid
    /// array: one with no sentinel simply holds `N` elements.
    pub fn buffer_mut(&mut self) -> (r: &mut [T; N])
        ensures
            r@ == old(self)@,
            final(self)@ == final(r)@,
    {
        &mut self.buf
    }
}

pub(crate) fn slices_equal<T: BitwiseEq>(a: &[T], b: &[T]) -> (r: bool)
    ensures
        r == (a@ == b@),
{
    if a.len() != b.len() {
        return false;
    }
    let mut i: usize = 0;
    while i < a.len()
        invariant
            a@.len() == b@.len(),
            i <= a@.len(),
            forall|j: int| 0 <= j < i ==> a@[j] == b@[j],
        decreases a@.len() - i,
    {
        if !a[i].bitwise_eq(&b[i]) {
            return false;
        }
        i += 1;
    }
    assert(a@ =~= b@);
    true
}

/// Whether `a` and `b` have the same length and their elements compare equal
/// pairwise, as slices compare.
pub open spec fn seqs_eq<T: PartialEq<U>, U>(a: Seq<T>, b: Seq<U>) -> bool {
    a.len() == b.len() && forall|i: int| 0 <= i < a.len() ==> #[trigger] a[i].eq_spec(&b[i])
}

fn slices_eq<T: PartialEq<U>, U>(a: &[T], b: &[U]) -> (r: bool)
    ensures
        <T as PartialEqSpec<U>>::obeys_eq_spec() ==> r == seqs_eq(a@, b@),
{
    if a.len() != b.len() {
        return false;
    }
    let mut i: usize = 0;
    while i < a.len()
        invariant
            a@.len() == b@.len(),
            i <= a@.len(),
            <T as PartialEqSpec<U>>::obeys_eq_spec() ==> forall|j: int|
                0 <= j < i ==> #[trigger] a@[j].eq_spec(&b@[j]),
        decreases a@.len() - i,
    {
        if !a[i].eq(&b[i]) {
            return false;
        }
        i += 1;
    }
    true
}

impl<T, U, const N: usize, const M: usize> PartialEq<Senti<U, M>> for Senti<T, N> where T: Terminated + PartialEq<U>, U: Terminated {
    /// Two arrays are equal when their elements before the first sentinel are.
    fn eq(&self, other: &Senti<U, M>) -> (r: bool) {
        slices_eq(self.to_slice(), other.to_slice())
    }
}

impl<T, U, const N: usize, const M: usize> PartialEqSpecImpl<Senti<U, M>> for Senti<T, N> where T: Terminated + PartialEq<U>, U: Terminated {
    open spec fn obeys_eq_spec() -> bool {
        <T as PartialEqSpec<U>>::obeys_eq_spec()
    }

    open spec fn eq_spec(&self, other: &Senti<U, M>) -> bool {
        seqs_eq(content(self@), content(other@))
    }
}

impl<T: Terminated + Eq, const N: usize> Eq for Senti<T, N> {
}

impl<T, U, const N: usize> PartialEq<[U]> for Senti<T, N> where T: Terminated + PartialEq<U> {
    /// An array equals a slice when its elements before the first sentinel do.
    fn eq(&self, other: &[U]) -> (r: bool) {
        slices_eq(self.to_slice(), other)
    }
}

impl<T, U, const N: usize> PartialEqSpecImpl<[U]> for Senti<T, N> where T: Terminated + PartialEq<U> {
    open spec fn obeys_eq_spec() -> bool {
        <T as PartialEqSpec<U>>::obeys_eq_spec()
    }

    open spec fn eq_spec(&self, other: &[U]) -> bool {
        seqs_eq(content(self@), other@)
    }
}

/// Two arrays compare equal exactly when their elements before the first
/// sentinel compare equal pairwise, as their `to_slice` views do; what
/// follows the first sentinel plays no part. This holds whenever the element
/// type's equality follows its specification.
pub proof fn law_eq_by_elements<T, U, const N: usize, const M: usize>(
    a: Senti<T, N>,
    b: Senti<U, M>,
)
    where T: Terminated + PartialEq<U>, U: Terminated
    requires
        <T as PartialEqSpec<U>>::obeys_eq_spec(),
    ensures
        <Senti<T, N> as PartialEqSpec<Senti<U, M>>>::obeys_eq_spec(),
        PartialEqSpec::eq_spec(&a, &b) == seqs_eq(content(a@), content(b@)),
{
}

/// For element types whose equality is plain equality (the integer types
/// among them), two arrays are equal exactly when their contents are.
pub proof fn law_eq_by_content<T, const N: usize, const M: usize>(a: Senti<T, N>, b: Senti<T, M>)
    where T: Terminated + PartialEq
    requires
        vstd::laws_eq::obeys_concrete_eq::<T>(),
    ensures
        <Senti<T, N> as PartialEqSpec<Senti<T, M>>>::obeys_eq_spec(),
        PartialEqSpec::eq_spec(&a, &b) == (content(a@) == content(b@)),
{
    reveal(vstd::laws_eq::obeys_concrete_eq);
    let x = content(a@);
    let y = content(b@);
    if seqs_eq(x, y) {
        assert forall|i: int| 0 <= i < x.len() implies x[i] == y[i] by {
            assert(x[i].eq_spec(&y[i]));
        }
        assert(x =~= y);
    }
    if x == y {
        assert forall|i: int| 0 <= i < x.len() implies #[trigger] x[i].eq_spec(&y[i]) by {
            assert(x[i] == y[i]);
        }
    }
}

/// Calls `Hash::hash` on a slice, feeding its length and elements to
/// `state`. Nothing is stated of the hasher's state afterwards.
#[verifier::external_body]
pub(crate) fn hash_slice<T: Hash, H: Hasher>(s: &[T], state: &mut H) {
    s.hash(state)
}

impl<T: Terminated + Hash, const N: usize> Hash for Senti<T, N> {
    /// Hashes the elements before the first sentinel, as equality compares
    /// them.
    fn hash<H: Hasher>(&self, state: &mut H) {
        hash_slice(self.to_slice(), state)
    }
}

impl<'a, T: Terminated, const N: usize> IntoIterator for &'a Senti<T, N> {
    type IntoIter = std::slice::Iter<'a, T>;

    type Item = &'a T;

    /// Iterates over the elements before the first sentinel.
    fn into_iter(self) -> (r: std::slice::Iter<'a, T>)
        ensures
            r.remaining() == content(self@).as_ref(),
    {
        self.to_slice().iter()
    }
}

} // verus!
