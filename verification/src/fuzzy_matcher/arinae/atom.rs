//! Byte and char atoms: case-aware equality and first/last occurrence search.
use vstd::prelude::*;

use crate::text::{byte_lower, byte_upper, char_is_lowercase, eq_lowercase, spec_byte_lower, spec_byte_upper};
use crate::text::{spec_eq_lowercase, unicode_is_lowercase};

verus! {

/// Calls `memchr::memchr`.
/// Claimed, as its documentation states: the index of the first occurrence
/// of `needle` in `haystack`, `None` when there is none.
#[verifier::external_body]
pub(crate) fn memchr_first(needle: u8, haystack: &[u8]) -> (r: Option<usize>)
    ensures
        match r {
            Some(i) => i < haystack@.len() && haystack@[i as int] == needle && forall|k: int|
                0 <= k < i ==> #[trigger] haystack@[k] != needle,
            None => forall|k: int| 0 <= k < haystack@.len() ==> #[trigger] haystack@[k] != needle,
        },
{
    memchr::memchr(needle, haystack)
}

/// Calls `memchr::memrchr`.
/// Claimed, as its documentation states: the index of the last occurrence
/// of `needle` in `haystack`, `None` when there is none.
#[verifier::external_body]
fn memchr_last(needle: u8, haystack: &[u8]) -> (r: Option<usize>)
    ensures
        match r {
            Some(i) => i < haystack@.len() && haystack@[i as int] == needle && forall|k: int|
                i < k < haystack@.len() ==> #[trigger] haystack@[k] != needle,
            None => forall|k: int| 0 <= k < haystack@.len() ==> #[trigger] haystack@[k] != needle,
        },
{
    memchr::memrchr(needle, haystack)
}

/// A unit of text the matcher compares: a byte of an ASCII string or a char.
pub trait Atom: Sized + Copy {
    /// Equality of two atoms, ignoring case unless `respect_case`.
    spec fn spec_eq(self, other: Self, respect_case: bool) -> bool;

    spec fn spec_is_lowercase(self) -> bool;

    fn eq(self, other: Self, respect_case: bool) -> (r: bool)
        ensures
            r == self.spec_eq(other, respect_case),
    ;

    fn eq_ignore_case(self, other: Self) -> (r: bool)
        ensures
            r == self.spec_eq(other, false),
    ;

    fn is_lowercase(self) -> (r: bool)
        ensures
            r == self.spec_is_lowercase(),
    ;

    /// Return the index of the first occurrence of `self` in `haystack`,
    /// or `None` if not found.
    fn find_first_in(self, haystack: &[Self], respect_case: bool) -> (r: Option<usize>)
        ensures
            match r {
                Some(i) => i < haystack@.len() && self.spec_eq(haystack@[i as int], respect_case) && forall|k: int|
                    0 <= k < i ==> !self.spec_eq(#[trigger] haystack@[k], respect_case),
                None => forall|k: int| 0 <= k < haystack@.len() ==> !self.spec_eq(#[trigger] haystack@[k], respect_case),
            },
    {
        let mut i: usize = 0;
        while i < haystack.len()
            invariant
                i <= haystack@.len(),
                forall|k: int| 0 <= k < i ==> !self.spec_eq(#[trigger] haystack@[k], respect_case),
            decreases haystack@.len() - i,
        {
            if self.eq(haystack[i], respect_case) {
                return Some(i);
            }
            i += 1;
        }
        None
    }

    /// Return the index of the last occurrence of `self` in `haystack`,
    /// or `None` if not found.
    fn find_last_in(self, haystack: &[Self], respect_case: bool) -> (r: Option<usize>)
        ensures
            match r {
                Some(i) => i < haystack@.len() && self.spec_eq(haystack@[i as int], respect_case) && forall|k: int|
                    i < k < haystack@.len() ==> !self.spec_eq(#[trigger] haystack@[k], respect_case),
                None => forall|k: int| 0 <= k < haystack@.len() ==> !self.spec_eq(#[trigger] haystack@[k], respect_case),
            },
    {
        let mut e: usize = haystack.len();
        while e > 0
            invariant
                e <= haystack@.len(),
                forall|k: int| e <= k < haystack@.len() ==> !self.spec_eq(#[trigger] haystack@[k], respect_case),
            decreases e,
        {
            if self.eq(haystack[e - 1], respect_case) {
                return Some(e - 1);
            }
            e -= 1;
        }
        None
    }
}

/// A byte equals another ignoring case exactly when it is the other's
/// lowercase or uppercase form.
proof fn lemma_byte_case_variants(b: u8, x: u8)
    ensures
        (spec_byte_lower(b) == spec_byte_lower(x)) == (x == spec_byte_lower(b) || x == spec_byte_upper(b)),
{
}

impl Atom for u8 {
    open spec fn spec_eq(self, other: Self, respect_case: bool) -> bool {
        if respect_case {
            self == other
        } else {
            spec_byte_lower(self) == spec_byte_lower(other)
        }
    }

    open spec fn spec_is_lowercase(self) -> bool {
        97 <= self <= 122
    }

    fn eq(self, other: Self, respect_case: bool) -> (r: bool) {
        if respect_case {
            self == other
        } else {
            self.eq_ignore_case(other)
        }
    }

    fn eq_ignore_case(self, b: Self) -> (r: bool) {
        byte_lower(self) == byte_lower(b)
    }

    fn is_lowercase(self) -> (r: bool) {
        97 <= self && self <= 122
    }

    /// Case-sensitive search uses SIMD-backed `memchr`; case-insensitive
    /// searches for each case variant and takes the earliest.
    fn find_first_in(self, haystack: &[Self], respect_case: bool) -> (r: Option<usize>) {
        proof {
            assert forall|x: u8| #[trigger] self.spec_eq(x, false) == (x == spec_byte_lower(self) || x
                == spec_byte_upper(self)) by {
                lemma_byte_case_variants(self, x);
            }
        }
        if respect_case {
            memchr_first(self, haystack)
        } else {
            let lo = byte_lower(self);
            let hi = byte_upper(self);
            if lo == hi {
                memchr_first(lo, haystack)
            } else {
                let p_lo = memchr_first(lo, haystack);
                let p_hi = memchr_first(hi, haystack);
                match (p_lo, p_hi) {
                    (None, x) => x,
                    (x, None) => x,
                    (Some(a), Some(b)) => Some(if a <= b { a } else { b }),
                }
            }
        }
    }

    /// Case-sensitive backward search uses SIMD-backed `memrchr`;
    /// case-insensitive takes the rightmost of both case variants.
    fn find_last_in(self, haystack: &[Self], respect_case: bool) -> (r: Option<usize>) {
        proof {
            assert forall|x: u8| #[trigger] self.spec_eq(x, false) == (x == spec_byte_lower(self) || x
                == spec_byte_upper(self)) by {
                lemma_byte_case_variants(self, x);
            }
        }
        if respect_case {
            memchr_last(self, haystack)
        } else {
            let lo = byte_lower(self);
            let hi = byte_upper(self);
            if lo == hi {
                memchr_last(lo, haystack)
            } else {
                let p_lo = memchr_last(lo, haystack);
                let p_hi = memchr_last(hi, haystack);
                match (p_lo, p_hi) {
                    (None, x) => x,
                    (x, None) => x,
                    (Some(a), Some(b)) => Some(if a >= b { a } else { b }),
                }
            }
        }
    }
}

impl Atom for char {
    open spec fn spec_eq(self, other: Self, respect_case: bool) -> bool {
        if respect_case {
            self == other
        } else {
            spec_eq_lowercase(self, other)
        }
    }

    open spec fn spec_is_lowercase(self) -> bool {
        unicode_is_lowercase(self)
    }

    fn eq(self, other: Self, respect_case: bool) -> (r: bool) {
        if respect_case {
            self == other
        } else {
            self.eq_ignore_case(other)
        }
    }

    fn eq_ignore_case(self, b: Self) -> (r: bool) {
        eq_lowercase(self, b)
    }

    fn is_lowercase(self) -> (r: bool) {
        char_is_lowercase(self)
    }
}

} // verus!
