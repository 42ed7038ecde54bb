//! Bounded slice view.

use vstd::prelude::*;
use vstd::slice::slice_index_get;
use vstd::std_specs::cmp::PartialEqSpec;

use crate::const_checks::{AssertGe, Pair};
use crate::BVec;
use crate::LengthExceeded;

verus! {

/// Bounded [`slice`] view.
///
/// A zero-copy wrapper around a native slice, guaranteed to not be longer
/// than `MAX` elements: every well-formed value satisfies
/// [`wf`](BSlice::wf), and every constructor either proves the bound during
/// verification or checks it at run time.
#[derive(Debug, Hash)]
pub struct BSlice<'a, T, const MAX: usize> {
    s: &'a [T],
}

impl<'a, T, const MAX: usize> View for BSlice<'a, T, MAX> {
    type V = Seq<T>;

    closed spec fn view(&self) -> Seq<T> {
        self.s@
    }
}

impl<'a, T, const MAX: usize> Clone for BSlice<'a, T, MAX> {
    fn clone(&self) -> (r: Self)
        ensures
            r == *self,
    {
        BSlice { s: self.s }
    }
}

impl<'a, T, const MAX: usize> Copy for BSlice<'a, T, MAX> {

}

impl<'a, T, const MAX: usize> BSlice<'a, T, MAX> {
    /// Well-formedness: the viewed data never exceeds `MAX` elements.
    pub open spec fn wf(&self) -> bool {
        self@.len() <= MAX
    }

    /// Creates a `BSlice<T, MAX>` from a slice without any runtime check.
    ///
    /// The caller must prove that the slice is not longer than `MAX`
    /// elements; the conversion itself is free.
    pub fn from_slice_unchecked(s: &'a [T]) -> (r: Self)
        requires
            s@.len() <= MAX,
        ensures
            r@ == s@,
            r.wf(),
    {
        BSlice { s }
    }

    /// Creates a `BSlice<T, MAX>` from a slice, performing a runtime check.
    ///
    /// Succeeds exactly when the slice holds at most `MAX` elements, and then
    /// views the same data; otherwise reports the offending length.
    pub fn from_slice(s: &'a [T]) -> (r: Result<Self, LengthExceeded>)
        ensures
            s@.len() <= MAX ==> (r matches Ok(b) && b@ == s@ && b.wf()),
            s@.len() > MAX ==> (r matches Err(e) && e.length == s@.len() && e.maximum == MAX),
    {
        let len = s.len();
        if len > MAX {
            Err(LengthExceeded { length: len, maximum: MAX })
        } else {
            Ok(BSlice { s })
        }
    }

    /// Constructs a `BSlice<T, MAX>` from a `&[T; N]`, with the bound `N <=
    /// MAX` discharged during verification rather than at run time.
    pub fn from_array<const N: usize>(v: &'a [T; N]) -> (r: Self)
        requires
            Pair::<MAX, N>::valid(),
        ensures
            r@ == v@,
            r.wf(),
    {
        BSlice { s: v.as_slice() }
    }

    /// Gives the underlying native slice.
    pub fn as_slice(&self) -> (r: &'a [T])
        ensures
            r@ == self@,
    {
        self.s
    }

    /// The number of viewed elements.
    pub fn len(&self) -> (n: usize)
        ensures
            n == self@.len(),
    {
        self.s.len()
    }

    /// True when no elements are viewed.
    pub fn is_empty(&self) -> (r: bool)
        ensures
            r == (self@.len() == 0),
    {
        self.s.is_empty()
    }

    /// The element at position `i`.
    pub fn index(&self, i: usize) -> (r: &'a T)
        requires
            i < self@.len(),
        ensures
            *r == self@[i as int],
    {
        slice_index_get(self.s, i)
    }

    /// The element at position `i`, or `None` when out of range.
    pub fn get(&self, i: usize) -> (r: Option<&'a T>)
        ensures
            i < self@.len() ==> (r matches Some(v) && *v == self@[i as int]),
            i >= self@.len() ==> r is None,
    {
        if i < self.s.len() {
            Some(slice_index_get(self.s, i))
        } else {
            None
        }
    }

    /// The first element, or `None` when empty.
    pub fn first(&self) -> (r: Option<&'a T>)
        ensures
            self@.len() > 0 ==> (r matches Some(v) && *v == self@[0]),
            self@.len() == 0 ==> r is None,
    {
        let s: &'a [T] = self.s;
        s.first()
    }

    /// The last element, or `None` when empty.
    pub fn last(&self) -> (r: Option<&'a T>)
        ensures
            self@.len() > 0 ==> (r matches Some(v) && *v == self@.last()),
            self@.len() == 0 ==> r is None,
    {
        let s: &'a [T] = self.s;
        s.last()
    }

    /// The sub-view of positions `from..to`.
    ///
    /// A sub-range of a bounded view can never exceed its parent's length,
    /// so it stays within the same `MAX` with no runtime check.
    pub fn subslice(&self, from: usize, to: usize) -> (r: Self)
        requires
            self.wf(),
            from <= to <= self@.len(),
        ensures
            r@ == self@.subrange(from as int, to as int),
            r.wf(),
    {
        let s: &'a [T] = self.s;
        BSlice { s: &s[from..to] }
    }

    /// The sub-view of positions `from..`; bound-safe with no runtime check.
    pub fn subslice_from(&self, from: usize) -> (r: Self)
        requires
            self.wf(),
            from <= self@.len(),
        ensures
            r@ == self@.subrange(from as int, self@.len() as int),
            r.wf(),
    {
        self.subslice(from, self.len())
    }

    /// The sub-view of positions `..to`; bound-safe with no runtime check.
    pub fn subslice_to(&self, to: usize) -> (r: Self)
        requires
            self.wf(),
            to <= self@.len(),
        ensures
            r@ == self@.subrange(0, to as int),
            r.wf(),
    {
        self.subslice(0, to)
    }

    /// Divides the view in two at `mid`; both halves keep the bound with no
    /// runtime check.
    pub fn split_at(&self, mid: usize) -> (r: (Self, Self))
        requires
            self.wf(),
            mid <= self@.len(),
        ensures
            r.0@ == self@.subrange(0, mid as int),
            r.1@ == self@.subrange(mid as int, self@.len() as int),
            r.0.wf(),
            r.1.wf(),
    {
        (self.subslice(0, mid), self.subslice(mid, self.len()))
    }

    /// Relaxes the `MAX` bound, converting to a type with a bigger one.
    ///
    /// This conversion is free and does not involve any runtime check: that
    /// the new `MAX` is at least the old one is proved during verification,
    /// and the operation is total.
    pub fn relax_max<const MAX2: usize>(&self) -> (r: BSlice<'a, T, MAX2>)
        requires
            self.wf(),
            Pair::<MAX2, MAX>::valid(),
        ensures
            r@ == self@,
            r.wf(),
    {
        BSlice { s: self.s }
    }

    /// Changes the `MAX` bound.
    ///
    /// This involves a runtime check whether the new bound is met: it
    /// succeeds exactly when the viewed data holds at most `MAX2` elements.
    pub fn change_max<const MAX2: usize>(&self) -> (r: Result<
        BSlice<'a, T, MAX2>,
        LengthExceeded,
    >)
        ensures
            self@.len() <= MAX2 ==> (r matches Ok(b) && b@ == self@ && b.wf()),
            self@.len() > MAX2 ==> (r matches Err(e) && e.length == self@.len()
                && e.maximum == MAX2),
    {
        BSlice::from_slice(self.s)
    }
}

impl<'a, T: Clone, const MAX: usize> BSlice<'a, T, MAX> {
    /// Clones the viewed data into an owned [`BVec`] with the same bound.
    pub fn to_owned(&self) -> (r: BVec<T, MAX>)
        requires
            self.wf(),
        ensures
            r@.len() == self@.len(),
            forall|i: int| 0 <= i < self@.len() ==> cloned(self@[i], #[trigger] r@[i]),
            r.wf(),
    {
        BVec::from_slice(self.s).unwrap()
    }

    /// Clones the viewed data into a plain `Vec<T>`.
    pub fn to_vec(&self) -> (r: Vec<T>)
        ensures
            r@.len() == self@.len(),
            forall|i: int| 0 <= i < self@.len() ==> cloned(self@[i], #[trigger] r@[i]),
    {
        let mut v: Vec<T> = Vec::new();
        v.extend_from_slice(self.s);
        v
    }
}

impl<'a, T, const MAX: usize> BSlice<'a, T, MAX> {
    /// The first element and the bounded view of the rest, or `None` when
    /// empty.
    pub fn split_first(&self) -> (r: Option<(&'a T, Self)>)
        requires
            self.wf(),
        ensures
            self@.len() > 0 ==> (r matches Some(p) && *p.0 == self@[0] && p.1@
                == self@.subrange(1, self@.len() as int) && p.1.wf()),
            self@.len() == 0 ==> r is None,
    {
        if self.s.len() == 0 {
            None
        } else {
            Some((self.index(0), self.subslice(1, self.len())))
        }
    }

    /// The last element and the bounded view of the rest, or `None` when
    /// empty.
    pub fn split_last(&self) -> (r: Option<(&'a T, Self)>)
        requires
            self.wf(),
        ensures
            self@.len() > 0 ==> (r matches Some(p) && *p.0 == self@.last() && p.1@
                == self@.subrange(0, self@.len() as int - 1) && p.1.wf()),
            self@.len() == 0 ==> r is None,
    {
        if self.s.len() == 0 {
            None
        } else {
            Some((self.index(self.len() - 1), self.subslice(0, self.len() - 1)))
        }
    }
}

impl<'a, T: PartialEq, const MAX: usize> BSlice<'a, T, MAX> {
    /// True when some viewed element equals `x` (exact whenever `T`'s
    /// equality obeys its specification).
    pub fn contains(&self, x: &T) -> (r: bool)
        ensures
            T::obeys_eq_spec() ==> (r <==> exists|i: int|
                0 <= i < self@.len() && #[trigger] self@[i].eq_spec(x)),
    {
        let mut i: usize = 0;
        while i < self.s.len()
            invariant
                i <= self@.len(),
                T::obeys_eq_spec() ==> forall|j: int|
                    0 <= j < i ==> !(#[trigger] self@[j].eq_spec(x)),
            decreases self@.len() - i,
        {
            if self.s[i].eq(x) {
                return true;
            }
            i += 1;
        }
        false
    }

    /// Compares the viewed data element by element with another bounded
    /// view, whatever its bound (exact whenever `T`'s equality obeys its
    /// specification).
    pub fn eq_bslice<const MAX2: usize>(&self, other: &BSlice<'_, T, MAX2>) -> (r: bool)
        ensures
            T::obeys_eq_spec() ==> r == (self@.len() == other@.len() && (forall|i: int|
                0 <= i < self@.len() ==> #[trigger] self@[i].eq_spec(&other@[i]))),
    {
        if self.s.len() != other.s.len() {
            return false;
        }
        let mut i: usize = 0;
        while i < self.s.len()
            invariant
                i <= self@.len(),
                self@.len() == other@.len(),
                T::obeys_eq_spec() ==> forall|j: int|
                    0 <= j < i ==> #[trigger] self@[j].eq_spec(&other@[j]),
            decreases self@.len() - i,
        {
            if !self.s[i].eq(&other.s[i]) {
                return false;
            }
            i += 1;
        }
        true
    }
}

} // verus!
