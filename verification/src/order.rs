//! Lexicographic ordering of sentinel-terminated arrays and bounded strings.
use std::cmp::Ordering;
use vstd::prelude::*;
use vstd::std_specs::cmp::PartialOrdSpec;
use vstd::std_specs::cmp::PartialOrdSpecImpl;

use crate::cstring::BoundedCString;
use crate::senti::{content, Senti, Terminated};
use crate::{bytes_to_c_char, c_char_of, c_chars_of};

verus! {

/// How two lengths compare.
pub open spec fn length_order(x: nat, y: nat) -> Option<Ordering> {
    if x < y {
        Some(Ordering::Less)
    } else if x == y {
        Some(Ordering::Equal)
    } else {
        Some(Ordering::Greater)
    }
}

/// Whether index `k` of both `a` and `b` holds elements that do not compare
/// `Equal`.
pub open spec fn differs_at<T: PartialOrd<U>, U>(a: Seq<T>, b: Seq<U>, k: int) -> bool {
    0 <= k < a.len() && k < b.len() && a[k].partial_cmp_spec(&b[k]) != Some(Ordering::Equal)
}

/// Lexicographic comparison, as slices compare: the first element comparison
/// that is not `Equal` decides; if there is none, the lengths do.
pub open spec fn lex_order<T: PartialOrd<U>, U>(a: Seq<T>, b: Seq<U>) -> Option<Ordering> {
    if exists|k: int| #[trigger] differs_at(a, b, k) {
        let k = choose|k: int|
            #[trigger] differs_at(a, b, k) && forall|j: int| 0 <= j < k ==> !differs_at(a, b, j);
        a[k].partial_cmp_spec(&b[k])
    } else {
        length_order(a.len(), b.len())
    }
}

/// Lexicographic order is decided by the first position where the elements
/// do not compare `Equal`: the comparison there is the result.
pub proof fn law_lex_first_difference<T: PartialOrd<U>, U>(a: Seq<T>, b: Seq<U>, k: int)
    requires
        0 <= k < a.len(),
        k < b.len(),
        forall|j: int| 0 <= j < k ==> #[trigger] a[j].partial_cmp_spec(&b[j]) == Some(Ordering::Equal),
        a[k].partial_cmp_spec(&b[k]) != Some(Ordering::Equal),
    ensures
        lex_order(a, b) == a[k].partial_cmp_spec(&b[k]),
{
    assert(differs_at(a, b, k));
    let m = choose|m: int|
        #[trigger] differs_at(a, b, m) && forall|j: int| 0 <= j < m ==> !differs_at(a, b, j);
    if m < k {
        assert(a[m].partial_cmp_spec(&b[m]) == Some(Ordering::Equal));
    }
    if m > k {
        assert(!differs_at(a, b, k));
    }
}

/// When every common position compares `Equal`, the shorter sequence comes
/// first and sequences of equal length compare `Equal`.
pub proof fn law_lex_common_prefix<T: PartialOrd<U>, U>(a: Seq<T>, b: Seq<U>)
    requires
        forall|j: int|
            0 <= j < a.len() && j < b.len() ==> #[trigger] a[j].partial_cmp_spec(&b[j]) == Some(
                Ordering::Equal,
            ),
    ensures
        a.len() < b.len() ==> lex_order(a, b) == Some(Ordering::Less),
        a.len() == b.len() ==> lex_order(a, b) == Some(Ordering::Equal),
        a.len() > b.len() ==> lex_order(a, b) == Some(Ordering::Greater),
{
    assert forall|k: int| !differs_at(a, b, k) by {
        if 0 <= k < a.len() && k < b.len() {
            assert(a[k].partial_cmp_spec(&b[k]) == Some(Ordering::Equal));
        }
    }
}

/// Arrays order by the first position, before either one's first sentinel,
/// whose elements do not compare `Equal`; if there is none, the array with
/// fewer elements before its sentinel comes first.
pub proof fn law_senti_order<T, U, const N: usize, const M: usize>(a: Senti<T, N>, b: Senti<U, M>, k: int)
    where T: Terminated + PartialOrd<U>, U: Terminated
    ensures
        ({
            let x = content(a@);
            let y = content(b@);
            &&& (0 <= k < x.len() && k < y.len() && (forall|j: int|
                0 <= j < k ==> #[trigger] x[j].partial_cmp_spec(&y[j]) == Some(Ordering::Equal))
                && x[k].partial_cmp_spec(&y[k]) != Some(Ordering::Equal))
                ==> PartialOrdSpec::partial_cmp_spec(&a, &b) == x[k].partial_cmp_spec(&y[k])
            &&& ((forall|j: int|
                0 <= j < x.len() && j < y.len() ==> #[trigger] x[j].partial_cmp_spec(&y[j])
                    == Some(Ordering::Equal)) && x.len() < y.len())
                ==> PartialOrdSpec::partial_cmp_spec(&a, &b) == Some(Ordering::Less)
        }),
{
    let x = content(a@);
    let y = content(b@);
    if 0 <= k < x.len() && k < y.len() && (forall|j: int|
        0 <= j < k ==> #[trigger] x[j].partial_cmp_spec(&y[j]) == Some(Ordering::Equal))
        && x[k].partial_cmp_spec(&y[k]) != Some(Ordering::Equal) {
        law_lex_first_difference(x, y, k);
    }
    if (forall|j: int|
        0 <= j < x.len() && j < y.len() ==> #[trigger] x[j].partial_cmp_spec(&y[j]) == Some(
            Ordering::Equal,
        )) {
        law_lex_common_prefix(x, y);
    }
}

/// Bounded C strings order by their first differing character before the nul,
/// compared as signed C characters; a proper prefix comes first.
pub proof fn law_bounded_cstring_order<const N: usize, const M: usize>(
    a: BoundedCString<N>,
    b: BoundedCString<M>,
    k: int,
)
    ensures
        ({
            let x = content(a@);
            let y = content(b@);
            &&& (0 <= k < x.len() && k < y.len() && (forall|j: int| 0 <= j < k ==> x[j] == y[j])
                && c_char_of(x[k]) < c_char_of(y[k])) ==> PartialOrdSpec::partial_cmp_spec(&a, &b)
                == Some(Ordering::Less)
            &&& (0 <= k < x.len() && k < y.len() && (forall|j: int| 0 <= j < k ==> x[j] == y[j])
                && c_char_of(x[k]) > c_char_of(y[k])) ==> PartialOrdSpec::partial_cmp_spec(&a, &b)
                == Some(Ordering::Greater)
            &&& (x.len() < y.len() && forall|j: int| 0 <= j < x.len() ==> x[j] == y[j])
                ==> PartialOrdSpec::partial_cmp_spec(&a, &b) == Some(Ordering::Less)
            &&& x == y ==> PartialOrdSpec::partial_cmp_spec(&a, &b) == Some(Ordering::Equal)
        }),
{
    let x = content(a@);
    let y = content(b@);
    let cx = c_chars_of(x);
    let cy = c_chars_of(y);
    if 0 <= k < x.len() && k < y.len() && (forall|j: int| 0 <= j < k ==> x[j] == y[j]) && c_char_of(
        x[k],
    ) != c_char_of(y[k]) {
        assert forall|j: int| 0 <= j < k implies #[trigger] PartialOrdSpec::partial_cmp_spec(
            &cx[j],
            &cy[j],
        ) == Some(Ordering::Equal) by {
            assert(x[j] == y[j]);
        }
        law_lex_first_difference(cx, cy, k);
    }
    if x.len() <= y.len() && forall|j: int| 0 <= j < x.len() ==> x[j] == y[j] {
        assert forall|j: int| 0 <= j < cx.len() && j < cy.len() implies #[trigger] PartialOrdSpec::partial_cmp_spec(
            &cx[j],
            &cy[j],
        ) == Some(Ordering::Equal) by {
            assert(x[j] == y[j]);
        }
        law_lex_common_prefix(cx, cy);
    }
}

fn slices_partial_order<T: PartialOrd<U>, U>(a: &[T], b: &[U]) -> (r: Option<Ordering>)
    ensures
        T::obeys_partial_cmp_spec() ==> r == lex_order(a@, b@),
{
    let mut i: usize = 0;
    let ghost mut at: int = 0;
    while i < a.len() && i < b.len()
        invariant
            at == i,
            i <= a@.len(),
            i <= b@.len(),
            T::obeys_partial_cmp_spec() ==> forall|j: int| 0 <= j < i ==> !differs_at(a@, b@, j),
        decreases a@.len() - i,
    {
        let c = a[i].partial_cmp(&b[i]);
        match c {
            Some(Ordering::Equal) => {},
            _ => {
                proof {
                    if T::obeys_partial_cmp_spec() {
                        assert(differs_at(a@, b@, at));
                        let k = choose|k: int|
                            #[trigger] differs_at(a@, b@, k) && forall|j: int|
                                0 <= j < k ==> !differs_at(a@, b@, j);
                        assert(k == i);
                    }
                }
                return c;
            },
        }
        i += 1;
        proof {
            at = at + 1;
        }
    }
    proof {
        if T::obeys_partial_cmp_spec() {
            assert forall|k: int| !differs_at(a@, b@, k) by {
                if 0 <= k < a@.len() && k < b@.len() {
                    assert(k < i);
                }
            }
        }
    }
    if a.len() < b.len() {
        Some(Ordering::Less)
    } else if a.len() == b.len() {
        Some(Ordering::Equal)
    } else {
        Some(Ordering::Greater)
    }
}

impl<T, U, const N: usize, const M: usize> PartialOrd<Senti<U, M>> for Senti<T, N> where T: Terminated + PartialOrd<U>, U: Terminated {
    /// Compares the elements before the first sentinel lexicographically.
    fn partial_cmp(&self, other: &Senti<U, M>) -> (r: Option<Ordering>) {
        slices_partial_order(self.to_slice(), other.to_slice())
    }
}

impl<T, U, const N: usize, const M: usize> PartialOrdSpecImpl<Senti<U, M>> for Senti<T, N> where T: Terminated + PartialOrd<U>, U: Terminated {
    open spec fn obeys_partial_cmp_spec() -> bool {
        T::obeys_partial_cmp_spec()
    }

    open spec fn partial_cmp_spec(&self, other: &Senti<U, M>) -> Option<Ordering> {
        lex_order(content(self@), content(other@))
    }
}

impl<T, U, const N: usize> PartialOrd<[U]> for Senti<T, N> where T: Terminated + PartialOrd<U> {
    /// Compares the elements before the first sentinel with the slice
    /// lexicographically.
    fn partial_cmp(&self, other: &[U]) -> (r: Option<Ordering>) {
        slices_partial_order(self.to_slice(), other)
    }
}

impl<T, U, const N: usize> PartialOrdSpecImpl<[U]> for Senti<T, N> where T: Terminated + PartialOrd<U> {
    open spec fn obeys_partial_cmp_spec() -> bool {
        T::obeys_partial_cmp_spec()
    }

    open spec fn partial_cmp_spec(&self, other: &[U]) -> Option<Ordering> {
        lex_order(content(self@), other@)
    }
}

impl<const N: usize, const M: usize> PartialOrd<BoundedCString<M>> for BoundedCString<N> {
    /// Compares the characters before the nul terminator lexicographically,
    /// as C characters (`c_char`) compare.
    fn partial_cmp(&self, other: &BoundedCString<M>) -> (r: Option<Ordering>) {
        let a = bytes_to_c_char(self.to_bytes());
        let b = bytes_to_c_char(other.to_bytes());
        slices_partial_order(a.as_slice(), b.as_slice())
    }
}

impl<const N: usize, const M: usize> PartialOrdSpecImpl<BoundedCString<M>> for BoundedCString<N> {
    open spec fn obeys_partial_cmp_spec() -> bool {
        true
    }

    open spec fn partial_cmp_spec(&self, other: &BoundedCString<M>) -> Option<Ordering> {
        lex_order(c_chars_of(content(self@)), c_chars_of(content(other@)))
    }
}

} // verus!
