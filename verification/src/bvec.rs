//! Bounded vector.

use vstd::prelude::*;
use vstd::std_specs::cmp::PartialEqSpec;

use crate::const_checks::{AssertGe, Pair};
use crate::BSlice;
use crate::LengthExceeded;

verus! {

/// Bounded [`Vec`].
///
/// An owned, growable buffer guaranteed to not be longer than `MAX`
/// elements: every well-formed value satisfies [`wf`](BVec::wf), every
/// constructor establishes it, and every exposed mutation preserves it —
/// operations that could grow the buffer past `MAX` are not exposed at all.
#[derive(Debug, Hash)]
pub struct BVec<T, const MAX: usize> {
    s: Vec<T>,
}

impl<T, const MAX: usize> View for BVec<T, MAX> {
    type V = Seq<T>;

    closed spec fn view(&self) -> Seq<T> {
        self.s@
    }
}

impl<T, const MAX: usize> Default for BVec<T, MAX> {
    /// The empty bounded vector.
    fn default() -> (r: Self)
        ensures
            r@ == Seq::<T>::empty(),
            r.wf(),
    {
        BVec::new()
    }
}

impl<T: Clone, const MAX: usize> Clone for BVec<T, MAX> {
    /// Clones the buffer element by element; the length (and so the bound)
    /// is preserved exactly.
    fn clone(&self) -> (r: Self)
        ensures
            r@.len() == self@.len(),
            forall|i: int| 0 <= i < self@.len() ==> cloned(self@[i], #[trigger] r@[i]),
            self.wf() ==> r.wf(),
    {
        BVec { s: self.s.clone() }
    }
}

impl<T: PartialEq, const MAX: usize> PartialEq for BVec<T, MAX> {
    fn eq(&self, other: &Self) -> (r: bool) {
        self.s.eq(&other.s)
    }
}

impl<T: PartialEq, const MAX: usize> vstd::std_specs::cmp::PartialEqSpecImpl for BVec<T, MAX> {
    open spec fn obeys_eq_spec() -> bool {
        T::obeys_eq_spec()
    }

    open spec fn eq_spec(&self, other: &Self) -> bool {
        &&& self@.len() == other@.len()
        &&& forall|i: int| 0 <= i < self@.len() ==> self@[i].eq_spec(&other@[i])
    }
}

/// Relies on `Vec::capacity`: a vector's capacity is always at least its
/// length.
#[verifier::external_body]
fn vec_capacity<T>(v: &Vec<T>) -> (r: usize)
    ensures
        r >= v@.len(),
{
    v.capacity()
}

/// Relies on `Vec::reserve_exact`: reserving affects only capacity, never
/// the contents.
#[verifier::external_body]
fn vec_reserve_exact<T>(v: &mut Vec<T>, additional: usize)
    ensures
        final(v)@ == old(v)@,
{
    v.reserve_exact(additional)
}

/// Relies on `Vec::try_reserve_exact`: it affects only capacity, never the
/// contents, whether or not it succeeds.
#[verifier::external_body]
fn vec_try_reserve_exact<T>(v: &mut Vec<T>, additional: usize) -> (r: Result<
    (),
    std::collections::TryReserveError,
>)
    ensures
        final(v)@ == old(v)@,
{
    v.try_reserve_exact(additional)
}

/// Relies on `Vec::shrink_to`: shrinking affects only capacity, never the
/// contents.
#[verifier::external_body]
fn vec_shrink_to<T>(v: &mut Vec<T>, min_capacity: usize)
    ensures
        final(v)@ == old(v)@,
{
    v.shrink_to(min_capacity)
}

/// Relies on `Vec::shrink_to_fit`: shrinking affects only capacity, never
/// the contents.
#[verifier::external_body]
fn vec_shrink_to_fit<T>(v: &mut Vec<T>)
    ensures
        final(v)@ == old(v)@,
{
    v.shrink_to_fit()
}

/// Relies on `Vec::leak`: the leaked slice holds exactly the vector's
/// elements (for any chosen lifetime of the caller).
#[verifier::external_body]
fn vec_leak<'a, T>(v: Vec<T>) -> (r: &'a [T])
    ensures
        r@ == v@,
{
    v.leak()
}

impl<T, const MAX: usize> BVec<T, MAX> {
    /// Well-formedness: the owned buffer never exceeds `MAX` elements.
    pub open spec fn wf(&self) -> bool {
        self@.len() <= MAX
    }

    /// Creates a `BVec<T, MAX>` from a `Vec<T>` without any runtime check.
    ///
    /// The caller must prove that the vector is not longer than `MAX`
    /// elements; the conversion itself is free.
    pub fn from_vec_unchecked(s: Vec<T>) -> (r: Self)
        requires
            s@.len() <= MAX,
        ensures
            r@ == s@,
            r.wf(),
    {
        BVec { s }
    }

    /// Creates a `BVec<T, MAX>` from a `Vec<T>`, performing a runtime check.
    ///
    /// Succeeds exactly when the vector holds at most `MAX` elements, and
    /// then owns the same data; otherwise reports the offending length.
    pub fn from_vec(s: Vec<T>) -> (r: Result<Self, LengthExceeded>)
        ensures
            s@.len() <= MAX ==> (r matches Ok(b) && b@ == s@ && b.wf()),
            s@.len() > MAX ==> (r matches Err(e) && e.length == s@.len() && e.maximum == MAX),
    {
        let len = s.len();
        if len > MAX {
            Err(LengthExceeded { length: len, maximum: MAX })
        } else {
            Ok(BVec { s })
        }
    }

    /// Gives the inner [`Vec<T>`].
    pub fn into_inner(self) -> (r: Vec<T>)
        ensures
            r@ == self@,
    {
        self.s
    }

    /// Gives an immutable reference to the inner `Vec<T>`.
    pub fn as_vec(&self) -> (r: &Vec<T>)
        ensures
            r@ == self@,
    {
        &self.s
    }

    /// Borrows the owned buffer as a bounded view with the same bound.
    pub fn as_bslice(&self) -> (r: BSlice<'_, T, MAX>)
        requires
            self.wf(),
        ensures
            r@ == self@,
            r.wf(),
    {
        BSlice::from_slice_unchecked(self.s.as_slice())
    }

    /// Relaxes the `MAX` bound, converting to a type with a bigger one.
    ///
    /// This conversion is free and does not involve any runtime check: that
    /// the new `MAX` is at least the old one is proved during verification,
    /// and the operation is total.
    pub fn relax_max<const MAX2: usize>(self) -> (r: BVec<T, MAX2>)
        requires
            self.wf(),
            Pair::<MAX2, MAX>::valid(),
        ensures
            r@ == self@,
            r.wf(),
    {
        BVec { s: self.s }
    }

    /// Changes the `MAX` bound.
    ///
    /// This involves a runtime check whether the new bound is met: it
    /// succeeds exactly when the buffer holds at most `MAX2` elements.
    pub fn change_max<const MAX2: usize>(self) -> (r: Result<BVec<T, MAX2>, LengthExceeded>)
        ensures
            self@.len() <= MAX2 ==> (r matches Ok(b) && b@ == self@ && b.wf()),
            self@.len() > MAX2 ==> (r matches Err(e) && e.length == self@.len()
                && e.maximum == MAX2),
    {
        BVec::from_vec(self.s)
    }

    /// Constructs a new, empty `BVec<T, MAX>`.
    pub fn new() -> (r: Self)
        ensures
            r@ == Seq::<T>::empty(),
            r.wf(),
    {
        BVec { s: Vec::new() }
    }

    /// Constructs a new, empty `BVec<T, MAX>` with at least the specified
    /// capacity.
    pub fn with_capacity(capacity: usize) -> (r: Self)
        ensures
            r@ == Seq::<T>::empty(),
            r.wf(),
    {
        BVec { s: Vec::with_capacity(capacity) }
    }

    /// The total number of elements the buffer can hold without
    /// reallocating; at least [`len`](BVec::len).
    pub fn capacity(&self) -> (r: usize)
        ensures
            r >= self@.len(),
    {
        vec_capacity(&self.s)
    }

    /// The number of owned elements.
    pub fn len(&self) -> (n: usize)
        ensures
            n == self@.len(),
    {
        self.s.len()
    }

    /// True when the buffer is empty.
    pub fn is_empty(&self) -> (r: bool)
        ensures
            r == (self@.len() == 0),
    {
        self.s.is_empty()
    }

    /// The element at position `i`.
    pub fn index(&self, i: usize) -> (r: &T)
        requires
            i < self@.len(),
        ensures
            *r == self@[i as int],
    {
        &self.s[i]
    }

    /// Clears the buffer, removing all values.
    pub fn clear(&mut self)
        ensures
            final(self)@ == Seq::<T>::empty(),
            final(self).wf(),
    {
        self.s.clear()
    }

    /// Removes the last element and returns it, or `None` if the buffer is
    /// empty. Never increases the length, so the bound is preserved.
    pub fn pop(&mut self) -> (r: Option<T>)
        requires
            old(self).wf(),
        ensures
            old(self)@.len() > 0 ==> r == Some(old(self)@.last()) && final(self)@ == old(
                self,
            )@.drop_last(),
            old(self)@.len() == 0 ==> r is None && final(self)@ == old(self)@,
            final(self).wf(),
    {
        let r = self.s.pop();
        proof {
            if old(self)@.len() > 0 {
                assert(final(self)@ =~= old(self)@.drop_last());
            }
        }
        r
    }

    /// Removes and returns the element at position `idx`, shifting all
    /// elements after it to the left.
    pub fn remove(&mut self, idx: usize) -> (r: T)
        requires
            old(self).wf(),
            idx < old(self)@.len(),
        ensures
            r == old(self)@[idx as int],
            final(self)@ == old(self)@.remove(idx as int),
            final(self).wf(),
    {
        self.s.remove(idx)
    }

    /// Removes and returns the element at position `idx`, replacing it with
    /// the last element.
    pub fn swap_remove(&mut self, idx: usize) -> (r: T)
        requires
            old(self).wf(),
            idx < old(self)@.len(),
        ensures
            r == old(self)@[idx as int],
            final(self)@ == old(self)@.update(idx as int, old(self)@.last()).drop_last(),
            final(self).wf(),
    {
        self.s.swap_remove(idx)
    }

    /// Shortens the buffer, keeping the first `len` elements and dropping
    /// the rest; a no-op when `len` is not below the current length. The new
    /// length is the minimum of `len` and the old length, so the bound is
    /// preserved.
    pub fn truncate(&mut self, len: usize)
        requires
            old(self).wf(),
        ensures
            len <= old(self)@.len() ==> final(self)@ == old(self)@.subrange(0, len as int),
            len > old(self)@.len() ==> final(self)@ == old(self)@,
            final(self)@.len() == vstd::math::min(len as int, old(self)@.len() as int),
            final(self).wf(),
    {
        self.s.truncate(len)
    }

    /// Splits the buffer into two at the given index: `self` keeps
    /// positions `0..idx` and the returned buffer holds `idx..len`. Each
    /// half is no longer than the whole, so both keep the bound with no
    /// runtime check.
    pub fn split_off(&mut self, idx: usize) -> (r: BVec<T, MAX>)
        requires
            old(self).wf(),
            idx <= old(self)@.len(),
        ensures
            final(self)@ == old(self)@.subrange(0, idx as int),
            r@ == old(self)@.subrange(idx as int, old(self)@.len() as int),
            final(self).wf(),
            r.wf(),
    {
        BVec { s: self.s.split_off(idx) }
    }

    /// Reserves capacity for at least `additional` more elements; the
    /// contents are unchanged.
    pub fn reserve(&mut self, additional: usize)
        ensures
            final(self)@ == old(self)@,
    {
        self.s.reserve(additional)
    }

    /// Reserves the minimum capacity for at least `additional` more
    /// elements; the contents are unchanged.
    pub fn reserve_exact(&mut self, additional: usize)
        ensures
            final(self)@ == old(self)@,
    {
        vec_reserve_exact(&mut self.s, additional)
    }

    /// Tries to reserve capacity for at least `additional` more elements;
    /// the contents are unchanged whether or not allocation succeeds.
    pub fn try_reserve(&mut self, additional: usize) -> (r: Result<
        (),
        std::collections::TryReserveError,
    >)
        ensures
            final(self)@ == old(self)@,
    {
        self.s.try_reserve(additional)
    }

    /// Tries to reserve the minimum capacity for at least `additional` more
    /// elements; the contents are unchanged whether or not allocation
    /// succeeds.
    pub fn try_reserve_exact(&mut self, additional: usize) -> (r: Result<
        (),
        std::collections::TryReserveError,
    >)
        ensures
            final(self)@ == old(self)@,
    {
        vec_try_reserve_exact(&mut self.s, additional)
    }

    /// Shrinks the capacity with a lower bound; the contents are unchanged.
    pub fn shrink_to(&mut self, min_capacity: usize)
        ensures
            final(self)@ == old(self)@,
    {
        vec_shrink_to(&mut self.s, min_capacity)
    }

    /// Shrinks the capacity as much as possible; the contents are unchanged.
    pub fn shrink_to_fit(&mut self)
        ensures
            final(self)@ == old(self)@,
    {
        vec_shrink_to_fit(&mut self.s)
    }

    /// Consumes and leaks the buffer, returning a bounded view of the
    /// contents with an unbounded lifetime.
    pub fn leak<'a>(self) -> (r: BSlice<'a, T, MAX>)
        requires
            self.wf(),
        ensures
            r@ == self@,
            r.wf(),
    {
        BSlice::from_slice_unchecked(vec_leak(self.s))
    }
}

impl<T: Clone, const MAX: usize> BVec<T, MAX> {
    /// Creates a `BVec<T, MAX>` from a slice without a runtime check,
    /// cloning the elements into a new buffer.
    ///
    /// The caller must prove that the slice is not longer than `MAX`
    /// elements.
    pub fn from_slice_unchecked(s: &[T]) -> (r: Self)
        requires
            s@.len() <= MAX,
        ensures
            r@.len() == s@.len(),
            forall|i: int| 0 <= i < s@.len() ==> cloned(s@[i], #[trigger] r@[i]),
            r.wf(),
    {
        let mut v: Vec<T> = Vec::new();
        v.extend_from_slice(s);
        BVec { s: v }
    }

    /// Creates a `BVec<T, MAX>` from a slice, performing a runtime check and
    /// cloning the elements into a new buffer.
    ///
    /// Succeeds exactly when the slice holds at most `MAX` elements;
    /// otherwise reports the offending length.
    pub fn from_slice(s: &[T]) -> (r: Result<Self, LengthExceeded>)
        ensures
            s@.len() <= MAX ==> (r matches Ok(b) && b@.len() == s@.len() && (forall|i: int|
                0 <= i < s@.len() ==> cloned(s@[i], #[trigger] b@[i])) && b.wf()),
            s@.len() > MAX ==> (r matches Err(e) && e.length == s@.len() && e.maximum == MAX),
    {
        let len = s.len();
        if len > MAX {
            Err(LengthExceeded { length: len, maximum: MAX })
        } else {
            Ok(BVec::from_slice_unchecked(s))
        }
    }
}


/// True when `t` can be obtained from `s` by deleting elements, keeping the
/// order of what remains.
pub open spec fn subsequence_of<T>(t: Seq<T>, s: Seq<T>) -> bool
    decreases s.len(), t.len(),
{
    if t.len() == 0 {
        true
    } else if s.len() == 0 {
        false
    } else if t.last() == s.last() {
        subsequence_of(t.drop_last(), s.drop_last()) || subsequence_of(t, s.drop_last())
    } else {
        subsequence_of(t, s.drop_last())
    }
}

/// Extending a subsequence and its source by the same element keeps the
/// subsequence relation.
pub proof fn lemma_subsequence_push_both<T>(t: Seq<T>, s: Seq<T>, x: T)
    requires
        subsequence_of(t, s),
    ensures
        subsequence_of(t.push(x), s.push(x)),
{
    assert(t.push(x).drop_last() =~= t);
    assert(s.push(x).drop_last() =~= s);
}

/// Extending only the source keeps the subsequence relation.
pub proof fn lemma_subsequence_push_right<T>(t: Seq<T>, s: Seq<T>, x: T)
    requires
        subsequence_of(t, s),
    ensures
        subsequence_of(t, s.push(x)),
{
    if t.len() > 0 {
        assert(s.push(x).drop_last() =~= s);
    }
}

/// A subsequence is never longer than its source.
pub proof fn lemma_subsequence_len<T>(t: Seq<T>, s: Seq<T>)
    requires
        subsequence_of(t, s),
    ensures
        t.len() <= s.len(),
    decreases s.len(), t.len(),
{
    if t.len() == 0 {
    } else if t.last() == s.last() {
        if subsequence_of(t.drop_last(), s.drop_last()) {
            lemma_subsequence_len(t.drop_last(), s.drop_last());
        } else {
            lemma_subsequence_len(t, s.drop_last());
        }
    } else {
        lemma_subsequence_len(t, s.drop_last());
    }
}

impl<T, const MAX: usize> BVec<T, MAX> {
    /// The element at position `i`, or `None` when out of range.
    pub fn get(&self, i: usize) -> (r: Option<&T>)
        ensures
            i < self@.len() ==> (r matches Some(v) && *v == self@[i as int]),
            i >= self@.len() ==> r is None,
    {
        if i < self.s.len() {
            Some(&self.s[i])
        } else {
            None
        }
    }

    /// The first element, or `None` when empty.
    pub fn first(&self) -> (r: Option<&T>)
        ensures
            self@.len() > 0 ==> (r matches Some(v) && *v == self@[0]),
            self@.len() == 0 ==> r is None,
    {
        self.s.as_slice().first()
    }

    /// The last element, or `None` when empty.
    pub fn last(&self) -> (r: Option<&T>)
        ensures
            self@.len() > 0 ==> (r matches Some(v) && *v == self@.last()),
            self@.len() == 0 ==> r is None,
    {
        self.s.as_slice().last()
    }

    /// Retains only the elements for which the predicate returns `true`,
    /// in place and in order. What remains is a subsequence of the old
    /// contents, so the bound is preserved.
    pub fn retain<F: Fn(&T) -> bool>(&mut self, f: F)
        requires
            old(self).wf(),
            forall|x: &T| #[trigger] f.requires((x,)),
        ensures
            final(self).wf(),
            subsequence_of(final(self)@, old(self)@),
            final(self)@.len() <= old(self)@.len(),
            forall|k: int|
                0 <= k < final(self)@.len() ==> call_ensures(
                    f,
                    (&final(self)@[k],),
                    true,
                ),
    {
        let ghost orig = self.s@;
        let mut rev: Vec<T> = Vec::new();
        while self.s.len() > 0
            invariant
                self.s@ + rev@.reverse() == orig,
            decreases self.s@.len(),
        {
            proof {
                let cur = self.s@;
                assert(rev@.push(cur.last()).reverse() =~= seq![cur.last()] + rev@.reverse());
                assert(cur.drop_last() + (seq![cur.last()] + rev@.reverse()) =~= (cur.drop_last()
                    + seq![cur.last()]) + rev@.reverse());
                assert(cur.drop_last() + seq![cur.last()] =~= cur);
            }
            let e = self.s.pop().unwrap();
            rev.push(e);
        }
        proof {
            assert(rev@.reverse() =~= Seq::<T>::empty() + rev@.reverse());
            assert(rev@.reverse() == orig);
        }
        let n = rev.len();
        let mut j: usize = 0;
        while rev.len() > 0
            invariant
                rev@.len() + j == n,
                n == orig.len(),
                j <= n,
                rev@.reverse() =~= orig.subrange(j as int, n as int),
                subsequence_of(self.s@, orig.take(j as int)),
                self.s@.len() <= j,
                forall|k: int|
                    0 <= k < self.s@.len() ==> call_ensures(f, (&self.s@[k],), true),
                forall|x: &T| #[trigger] f.requires((x,)),
            decreases rev@.len(),
        {
            proof {
                let r = rev@;
                assert(r.len() > 0);
                assert(r.reverse().len() == r.len());
                assert(r.reverse()[0] == r.last());
                assert(orig.subrange(j as int, n as int)[0] == orig[j as int]);
                assert(r.last() == orig[j as int]);
                assert forall|i: int| 0 <= i < r.len() - 1 implies r.drop_last().reverse()[i]
                    == orig.subrange(j as int + 1, n as int)[i] by {
                    assert(r.drop_last().reverse()[i] == r.drop_last()[r.len() - 2 - i]);
                    assert(r.drop_last()[r.len() - 2 - i] == r[r.len() - 2 - i]);
                    assert(r.reverse()[i + 1] == r[r.len() - 2 - i]);
                    assert(orig.subrange(j as int, n as int)[i + 1] == orig[j as int + 1 + i]);
                }
                assert(r.drop_last().reverse() =~= orig.subrange(j as int + 1, n as int));
                assert(orig.take(j as int + 1) =~= orig.take(j as int).push(orig[j as int]));
            }
            let e = rev.pop().unwrap();
            if f(&e) {
                proof {
                    lemma_subsequence_push_both(self.s@, orig.take(j as int), e);
                }
                self.s.push(e);
            } else {
                proof {
                    lemma_subsequence_push_right(self.s@, orig.take(j as int), e);
                }
            }
            j += 1;
        }
        proof {
            assert(orig.take(n as int) =~= orig);
        }
    }

    /// Removes and returns the last element when the predicate accepts it;
    /// returns `None`, leaving the buffer unchanged, when the buffer is
    /// empty or the predicate rejects the last element.
    pub fn pop_if<F: Fn(&T) -> bool>(&mut self, f: F) -> (r: Option<T>)
        requires
            old(self).wf(),
            forall|x: &T| #[trigger] f.requires((x,)),
        ensures
            final(self).wf(),
            r matches Some(e) ==> (e == old(self)@.last() && final(self)@ == old(
                self,
            )@.drop_last() && call_ensures(f, (&e,), true)),
            r is None ==> final(self)@ == old(self)@ && (old(self)@.len() == 0 || call_ensures(
                f,
                (&old(self)@.last(),),
                false,
            )),
    {
        if self.s.len() == 0 {
            return None;
        }
        let keep = f(&self.s[self.s.len() - 1]);
        if keep {
            let e = self.s.pop().unwrap();
            proof {
                assert(final(self)@ =~= old(self)@.drop_last());
            }
            Some(e)
        } else {
            None
        }
    }
}


/// The contents of `s` after removing each element that compares equal (by
/// `eq_spec`) to the most recently kept element, `prev` being the last one
/// kept so far.
pub open spec fn dedup_from<T: PartialEq>(s: Seq<T>, prev: T) -> Seq<T>
    decreases s.len(),
{
    if s.len() == 0 {
        Seq::empty()
    } else if s[0].eq_spec(&prev) {
        dedup_from(s.drop_first(), prev)
    } else {
        seq![s[0]] + dedup_from(s.drop_first(), s[0])
    }
}

/// The contents of `s` with consecutive repeated elements (by `eq_spec`)
/// reduced to their first occurrence.
pub open spec fn spec_dedup<T: PartialEq>(s: Seq<T>) -> Seq<T> {
    if s.len() == 0 {
        s
    } else {
        seq![s[0]] + dedup_from(s.drop_first(), s[0])
    }
}

/// The last element kept by `dedup_from(s, prev)`, or `prev` itself when
/// everything was removed.
pub open spec fn last_kept<T: PartialEq>(s: Seq<T>, prev: T) -> T {
    if dedup_from(s, prev).len() == 0 {
        prev
    } else {
        dedup_from(s, prev).last()
    }
}

proof fn lemma_dedup_from_push<T: PartialEq>(s: Seq<T>, prev: T, x: T)
    ensures
        dedup_from(s.push(x), prev) == if x.eq_spec(&last_kept(s, prev)) {
            dedup_from(s, prev)
        } else {
            dedup_from(s, prev).push(x)
        },
    decreases s.len(),
{
    if s.len() == 0 {
        assert(s.push(x).drop_first() =~= Seq::<T>::empty());
        assert(s.push(x)[0] == x);
        assert(dedup_from(s, prev) == Seq::<T>::empty());
        assert(dedup_from(s.push(x), prev) == if x.eq_spec(&prev) {
            dedup_from(Seq::<T>::empty(), prev)
        } else {
            seq![x] + dedup_from(Seq::<T>::empty(), x)
        });
        if !x.eq_spec(&prev) {
            assert(seq![x] + dedup_from(Seq::<T>::empty(), x) =~= seq![x]);
            assert(dedup_from(s, prev).push(x) =~= seq![x]);
        }
    } else {
        assert(s.push(x).drop_first() =~= s.drop_first().push(x));
        assert(s.push(x)[0] == s[0]);
        assert(dedup_from(s.push(x), prev) == if s[0].eq_spec(&prev) {
            dedup_from(s.drop_first().push(x), prev)
        } else {
            seq![s[0]] + dedup_from(s.drop_first().push(x), s[0])
        });
        if s[0].eq_spec(&prev) {
            assert(dedup_from(s, prev) == dedup_from(s.drop_first(), prev));
            lemma_dedup_from_push(s.drop_first(), prev, x);
        } else {
            assert(dedup_from(s, prev) == seq![s[0]] + dedup_from(s.drop_first(), s[0]));
            lemma_dedup_from_push(s.drop_first(), s[0], x);
            let d = dedup_from(s.drop_first(), s[0]);
            assert(last_kept(s, prev) == last_kept(s.drop_first(), s[0])) by {
                if d.len() == 0 {
                    assert((seq![s[0]] + d).last() == s[0]);
                } else {
                    assert((seq![s[0]] + d).last() == d.last());
                }
            }
            if !x.eq_spec(&last_kept(s.drop_first(), s[0])) {
                assert(seq![s[0]] + d.push(x) =~= (seq![s[0]] + d).push(x));
            }
        }
    }
}

/// How one more element changes the deduplicated contents: it is appended
/// exactly when it differs (by `eq_spec`) from the last kept element.
proof fn lemma_spec_dedup_push<T: PartialEq>(s: Seq<T>, x: T)
    requires
        s.len() > 0,
    ensures
        spec_dedup(s.push(x)) == if x.eq_spec(&spec_dedup(s).last()) {
            spec_dedup(s)
        } else {
            spec_dedup(s).push(x)
        },
{
    assert(s.push(x).drop_first() =~= s.drop_first().push(x));
    assert(s.push(x)[0] == s[0]);
    lemma_dedup_from_push(s.drop_first(), s[0], x);
    let d = dedup_from(s.drop_first(), s[0]);
    assert(spec_dedup(s).last() == last_kept(s.drop_first(), s[0])) by {
        if d.len() == 0 {
            assert((seq![s[0]] + d).last() == s[0]);
        } else {
            assert((seq![s[0]] + d).last() == d.last());
        }
    }
    if !x.eq_spec(&spec_dedup(s).last()) {
        assert(seq![s[0]] + d.push(x) =~= (seq![s[0]] + d).push(x));
    }
}

impl<T: PartialEq, const MAX: usize> BVec<T, MAX> {
    /// Removes consecutive repeated elements in place, keeping the first of
    /// each run. What remains is a subsequence of the old contents, so the
    /// bound is preserved; when `T`'s equality obeys its specification, the
    /// result is exactly [`spec_dedup`] of the old contents.
    pub fn dedup(&mut self)
        requires
            old(self).wf(),
        ensures
            final(self).wf(),
            subsequence_of(final(self)@, old(self)@),
            final(self)@.len() <= old(self)@.len(),
            T::obeys_eq_spec() ==> final(self)@ == spec_dedup(old(self)@),
    {
        let ghost orig = self.s@;
        let mut rev: Vec<T> = Vec::new();
        while self.s.len() > 0
            invariant
                self.s@ + rev@.reverse() == orig,
            decreases self.s@.len(),
        {
            proof {
                let cur = self.s@;
                assert(rev@.push(cur.last()).reverse() =~= seq![cur.last()] + rev@.reverse());
                assert(cur.drop_last() + (seq![cur.last()] + rev@.reverse()) =~= (cur.drop_last()
                    + seq![cur.last()]) + rev@.reverse());
                assert(cur.drop_last() + seq![cur.last()] =~= cur);
            }
            let e = self.s.pop().unwrap();
            rev.push(e);
        }
        proof {
            assert(rev@.reverse() =~= Seq::<T>::empty() + rev@.reverse());
            assert(rev@.reverse() == orig);
        }
        let n = rev.len();
        let mut j: usize = 0;
        while rev.len() > 0
            invariant
                rev@.len() + j == n,
                n == orig.len(),
                j <= n,
                rev@.reverse() =~= orig.subrange(j as int, n as int),
                subsequence_of(self.s@, orig.take(j as int)),
                self.s@.len() <= j,
                j == 0 ==> self.s@.len() == 0,
                T::obeys_eq_spec() ==> self.s@ == spec_dedup(orig.take(j as int)),
            decreases rev@.len(),
        {
            proof {
                let r = rev@;
                assert(r.len() > 0);
                assert(r.reverse()[0] == r.last());
                assert(orig.subrange(j as int, n as int)[0] == orig[j as int]);
                assert forall|i: int| 0 <= i < r.len() - 1 implies r.drop_last().reverse()[i]
                    == orig.subrange(j as int + 1, n as int)[i] by {
                    assert(r.reverse()[i + 1] == r[r.len() - 2 - i]);
                    assert(orig.subrange(j as int, n as int)[i + 1] == orig[j as int + 1 + i]);
                }
                assert(r.drop_last().reverse() =~= orig.subrange(j as int + 1, n as int));
                assert(orig.take(j as int + 1) =~= orig.take(j as int).push(orig[j as int]));
            }
            let e = rev.pop().unwrap();
            let keep: bool;
            if self.s.len() == 0 {
                keep = true;
            } else {
                keep = !e.eq(&self.s[self.s.len() - 1]);
            }
            proof {
                let tk = orig.take(j as int);
                let x = orig[j as int];
                if j == 0 {
                    assert(tk.push(x) =~= seq![x]);
                    assert(seq![x].drop_first() =~= Seq::<T>::empty());
                    assert(spec_dedup(seq![x]) =~= seq![x]);
                } else {
                    assert(tk.len() > 0);
                    if T::obeys_eq_spec() {
                        lemma_spec_dedup_push(tk, x);
                        assert(self.s@.last() == spec_dedup(tk).last());
                    }
                }
            }
            if keep {
                proof {
                    lemma_subsequence_push_both(self.s@, orig.take(j as int), e);
                    if j == 0 {
                        assert(self.s@.push(e) =~= seq![e]);
                    }
                }
                self.s.push(e);
            } else {
                proof {
                    lemma_subsequence_push_right(self.s@, orig.take(j as int), e);
                }
            }
            j += 1;
        }
        proof {
            assert(orig.take(n as int) =~= orig);
        }
    }
}


impl<T, const MAX: usize> BVec<T, MAX> {
    /// Removes all but the first of consecutive elements for which the given
    /// relation holds, the first argument being the incoming element and the
    /// second the last one kept. What remains is a subsequence of the old
    /// contents, so the bound is preserved.
    pub fn dedup_by<F: Fn(&T, &T) -> bool>(&mut self, f: F)
        requires
            old(self).wf(),
            forall|a: &T, b: &T| #[trigger] f.requires((a, b)),
        ensures
            final(self).wf(),
            subsequence_of(final(self)@, old(self)@),
            final(self)@.len() <= old(self)@.len(),
            forall|k: int|
                #![trigger final(self)@[k]]
                0 <= k < final(self)@.len() - 1 ==> call_ensures(
                    f,
                    (&final(self)@[k + 1], &final(self)@[k]),
                    false,
                ),
    {
        let ghost orig = self.s@;
        let mut rev: Vec<T> = Vec::new();
        while self.s.len() > 0
            invariant
                self.s@ + rev@.reverse() == orig,
            decreases self.s@.len(),
        {
            proof {
                let cur = self.s@;
                assert(rev@.push(cur.last()).reverse() =~= seq![cur.last()] + rev@.reverse());
                assert(cur.drop_last() + (seq![cur.last()] + rev@.reverse()) =~= (cur.drop_last()
                    + seq![cur.last()]) + rev@.reverse());
                assert(cur.drop_last() + seq![cur.last()] =~= cur);
            }
            let e = self.s.pop().unwrap();
            rev.push(e);
        }
        proof {
            assert(rev@.reverse() =~= Seq::<T>::empty() + rev@.reverse());
            assert(rev@.reverse() == orig);
        }
        let n = rev.len();
        let mut j: usize = 0;
        while rev.len() > 0
            invariant
                rev@.len() + j == n,
                n == orig.len(),
                j <= n,
                rev@.reverse() =~= orig.subrange(j as int, n as int),
                subsequence_of(self.s@, orig.take(j as int)),
                self.s@.len() <= j,
                forall|k: int|
                    #![trigger self.s@[k]]
                    0 <= k < self.s@.len() - 1 ==> call_ensures(
                        f,
                        (&self.s@[k + 1], &self.s@[k]),
                        false,
                    ),
                forall|a: &T, b: &T| #[trigger] f.requires((a, b)),
            decreases rev@.len(),
        {
            proof {
                let r = rev@;
                assert(r.len() > 0);
                assert(r.reverse()[0] == r.last());
                assert(orig.subrange(j as int, n as int)[0] == orig[j as int]);
                assert forall|i: int| 0 <= i < r.len() - 1 implies r.drop_last().reverse()[i]
                    == orig.subrange(j as int + 1, n as int)[i] by {
                    assert(r.reverse()[i + 1] == r[r.len() - 2 - i]);
                    assert(orig.subrange(j as int, n as int)[i + 1] == orig[j as int + 1 + i]);
                }
                assert(r.drop_last().reverse() =~= orig.subrange(j as int + 1, n as int));
                assert(orig.take(j as int + 1) =~= orig.take(j as int).push(orig[j as int]));
            }
            let e = rev.pop().unwrap();
            let keep: bool;
            if self.s.len() == 0 {
                keep = true;
            } else {
                keep = !f(&e, &self.s[self.s.len() - 1]);
            }
            if keep {
                proof {
                    lemma_subsequence_push_both(self.s@, orig.take(j as int), e);
                }
                self.s.push(e);
            } else {
                proof {
                    lemma_subsequence_push_right(self.s@, orig.take(j as int), e);
                }
            }
            j += 1;
        }
        proof {
            assert(orig.take(n as int) =~= orig);
        }
    }
}


impl<T: Clone, const MAX: usize> BVec<T, MAX> {
    /// Clones the contents into a plain `Vec<T>`.
    pub fn to_vec(&self) -> (r: Vec<T>)
        ensures
            r@.len() == self@.len(),
            forall|i: int| 0 <= i < self@.len() ==> cloned(self@[i], #[trigger] r@[i]),
    {
        let mut v: Vec<T> = Vec::new();
        v.extend_from_slice(self.s.as_slice());
        v
    }
}

impl<T, const MAX: usize> BVec<T, MAX> {
    /// Removes all but the first of consecutive elements that map to the
    /// same key. What remains is a subsequence of the old contents, so the
    /// bound is preserved.
    pub fn dedup_by_key<K: PartialEq, F: Fn(&T) -> K>(&mut self, f: F)
        requires
            old(self).wf(),
            forall|x: &T| #[trigger] f.requires((x,)),
        ensures
            final(self).wf(),
            subsequence_of(final(self)@, old(self)@),
            final(self)@.len() <= old(self)@.len(),
            exists|ks: Seq<(K, K)>|
                #![auto]
                ks.len() + 1 >= final(self)@.len() && (forall|i: int|
                    #![trigger ks[i]]
                    0 <= i < final(self)@.len() - 1 ==> call_ensures(
                        f,
                        (&final(self)@[i + 1],),
                        ks[i].0,
                    ) && call_ensures(f, (&final(self)@[i],), ks[i].1) && call_ensures(
                        K::eq,
                        (&ks[i].0, &ks[i].1),
                        false,
                    )),
    {
        let ghost orig = self.s@;
        let mut rev: Vec<T> = Vec::new();
        while self.s.len() > 0
            invariant
                self.s@ + rev@.reverse() == orig,
            decreases self.s@.len(),
        {
            proof {
                let cur = self.s@;
                assert(rev@.push(cur.last()).reverse() =~= seq![cur.last()] + rev@.reverse());
                assert(cur.drop_last() + (seq![cur.last()] + rev@.reverse()) =~= (cur.drop_last()
                    + seq![cur.last()]) + rev@.reverse());
                assert(cur.drop_last() + seq![cur.last()] =~= cur);
            }
            let e = self.s.pop().unwrap();
            rev.push(e);
        }
        proof {
            assert(rev@.reverse() =~= Seq::<T>::empty() + rev@.reverse());
            assert(rev@.reverse() == orig);
        }
        let ghost mut pairs: Seq<(K, K)> = Seq::empty();
        let n = rev.len();
        let mut j: usize = 0;
        while rev.len() > 0
            invariant
                rev@.len() + j == n,
                n == orig.len(),
                j <= n,
                rev@.reverse() =~= orig.subrange(j as int, n as int),
                subsequence_of(self.s@, orig.take(j as int)),
                self.s@.len() <= j,
                self.s@.len() == 0 ==> pairs.len() == 0,
                self.s@.len() > 0 ==> pairs.len() == self.s@.len() - 1,
                forall|i: int|
                    #![trigger pairs[i]]
                    0 <= i < pairs.len() ==> call_ensures(f, (&self.s@[i + 1],), pairs[i].0)
                        && call_ensures(f, (&self.s@[i],), pairs[i].1) && call_ensures(
                        K::eq,
                        (&pairs[i].0, &pairs[i].1),
                        false,
                    ),
                forall|x: &T| #[trigger] f.requires((x,)),
            decreases rev@.len(),
        {
            proof {
                let r = rev@;
                assert(r.len() > 0);
                assert(r.reverse()[0] == r.last());
                assert(orig.subrange(j as int, n as int)[0] == orig[j as int]);
                assert forall|i: int| 0 <= i < r.len() - 1 implies r.drop_last().reverse()[i]
                    == orig.subrange(j as int + 1, n as int)[i] by {
                    assert(r.reverse()[i + 1] == r[r.len() - 2 - i]);
                    assert(orig.subrange(j as int, n as int)[i + 1] == orig[j as int + 1 + i]);
                }
                assert(r.drop_last().reverse() =~= orig.subrange(j as int + 1, n as int));
                assert(orig.take(j as int + 1) =~= orig.take(j as int).push(orig[j as int]));
            }
            let ghost prev = self.s@;
            let e = rev.pop().unwrap();
            if self.s.len() == 0 {
                proof {
                    lemma_subsequence_push_both(self.s@, orig.take(j as int), e);
                }
                self.s.push(e);
            } else {
                let ke = f(&e);
                let kl = f(&self.s[self.s.len() - 1]);
                if !ke.eq(&kl) {
                    proof {
                        lemma_subsequence_push_both(self.s@, orig.take(j as int), e);
                        pairs = pairs.push((ke, kl));
                    }
                    self.s.push(e);
                    proof {
                        assert forall|i: int|
                            #![trigger pairs[i]]
                            0 <= i < pairs.len() implies call_ensures(
                            f,
                            (&self.s@[i + 1],),
                            pairs[i].0,
                        ) && call_ensures(f, (&self.s@[i],), pairs[i].1) && call_ensures(
                            K::eq,
                            (&pairs[i].0, &pairs[i].1),
                            false,
                        ) by {
                            if i < pairs.len() - 1 {
                                assert(self.s@[i] == prev[i]);
                                assert(self.s@[i + 1] == prev[i + 1]);
                            } else {
                                assert(self.s@[i + 1] == e);
                                assert(self.s@[i] == prev.last());
                                assert(pairs[i] == (ke, kl));
                            }
                        }
                    }
                } else {
                    proof {
                        lemma_subsequence_push_right(self.s@, orig.take(j as int), e);
                    }
                }
            }
            j += 1;
        }
        proof {
            assert(orig.take(n as int) =~= orig);
        }
    }
}


impl<T: PartialEq, const MAX: usize> BVec<T, MAX> {
    /// True when some owned element equals `x` (exact whenever `T`'s
    /// equality obeys its specification).
    pub fn contains(&self, x: &T) -> (r: bool)
        ensures
            T::obeys_eq_spec() ==> (r <==> exists|i: int|
                0 <= i < self@.len() && #[trigger] self@[i].eq_spec(x)),
    {
        let mut i: usize = 0;
        while i < self.s.len()
            invariant
                i <= self@.len(),
                T::obeys_eq_spec() ==> forall|j: int|
                    0 <= j < i ==> !(#[trigger] self@[j].eq_spec(x)),
            decreases self@.len() - i,
        {
            if self.s[i].eq(x) {
                return true;
            }
            i += 1;
        }
        false
    }
}

impl<T, const MAX: usize> BVec<T, MAX> {
    /// Removes the elements the predicate accepts and returns them as a new
    /// bounded buffer, keeping the rest in place, both in order. Each side
    /// is a subsequence of the old contents, so both keep the bound.
    pub fn extract_if<F: Fn(&T) -> bool>(&mut self, f: F) -> (r: BVec<T, MAX>)
        requires
            old(self).wf(),
            forall|x: &T| #[trigger] f.requires((x,)),
        ensures
            final(self).wf(),
            r.wf(),
            subsequence_of(final(self)@, old(self)@),
            subsequence_of(r@, old(self)@),
            final(self)@.len() + r@.len() == old(self)@.len(),
            forall|k: int| 0 <= k < r@.len() ==> call_ensures(f, (&r@[k],), true),
            forall|k: int|
                0 <= k < final(self)@.len() ==> call_ensures(
                    f,
                    (&final(self)@[k],),
                    false,
                ),
    {
        let ghost orig = self.s@;
        let mut rev: Vec<T> = Vec::new();
        while self.s.len() > 0
            invariant
                self.s@ + rev@.reverse() == orig,
            decreases self.s@.len(),
        {
            proof {
                let cur = self.s@;
                assert(rev@.push(cur.last()).reverse() =~= seq![cur.last()] + rev@.reverse());
                assert(cur.drop_last() + (seq![cur.last()] + rev@.reverse()) =~= (cur.drop_last()
                    + seq![cur.last()]) + rev@.reverse());
                assert(cur.drop_last() + seq![cur.last()] =~= cur);
            }
            let e = self.s.pop().unwrap();
            rev.push(e);
        }
        proof {
            assert(rev@.reverse() =~= Seq::<T>::empty() + rev@.reverse());
            assert(rev@.reverse() == orig);
        }
        let mut out: Vec<T> = Vec::new();
        let n = rev.len();
        let mut j: usize = 0;
        while rev.len() > 0
            invariant
                rev@.len() + j == n,
                n == orig.len(),
                j <= n,
                rev@.reverse() =~= orig.subrange(j as int, n as int),
                subsequence_of(self.s@, orig.take(j as int)),
                subsequence_of(out@, orig.take(j as int)),
                self.s@.len() + out@.len() == j,
                forall|k: int| 0 <= k < out@.len() ==> call_ensures(f, (&out@[k],), true),
                forall|k: int|
                    0 <= k < self.s@.len() ==> call_ensures(f, (&self.s@[k],), false),
                forall|x: &T| #[trigger] f.requires((x,)),
            decreases rev@.len(),
        {
            proof {
                let r = rev@;
                assert(r.len() > 0);
                assert(r.reverse()[0] == r.last());
                assert(orig.subrange(j as int, n as int)[0] == orig[j as int]);
                assert forall|i: int| 0 <= i < r.len() - 1 implies r.drop_last().reverse()[i]
                    == orig.subrange(j as int + 1, n as int)[i] by {
                    assert(r.reverse()[i + 1] == r[r.len() - 2 - i]);
                    assert(orig.subrange(j as int, n as int)[i + 1] == orig[j as int + 1 + i]);
                }
                assert(r.drop_last().reverse() =~= orig.subrange(j as int + 1, n as int));
                assert(orig.take(j as int + 1) =~= orig.take(j as int).push(orig[j as int]));
            }
            let e = rev.pop().unwrap();
            if f(&e) {
                proof {
                    lemma_subsequence_push_both(out@, orig.take(j as int), e);
                    lemma_subsequence_push_right(self.s@, orig.take(j as int), e);
                }
                out.push(e);
            } else {
                proof {
                    lemma_subsequence_push_both(self.s@, orig.take(j as int), e);
                    lemma_subsequence_push_right(out@, orig.take(j as int), e);
                }
                self.s.push(e);
            }
            j += 1;
        }
        proof {
            assert(orig.take(n as int) =~= orig);
        }
        BVec { s: out }
    }

    /// Gives the owned elements as a native slice.
    pub fn as_slice(&self) -> (r: &[T])
        ensures
            r@ == self@,
    {
        self.s.as_slice()
    }

    /// Divides the owned buffer into two bounded views at `mid`; both halves
    /// keep the bound with no runtime check.
    pub fn split_at(&self, mid: usize) -> (r: (BSlice<'_, T, MAX>, BSlice<'_, T, MAX>))
        requires
            self.wf(),
            mid <= self@.len(),
        ensures
            r.0@ == self@.subrange(0, mid as int),
            r.1@ == self@.subrange(mid as int, self@.len() as int),
            r.0.wf(),
            r.1.wf(),
    {
        self.as_bslice().split_at(mid)
    }

    /// Removes the elements at positions `start..end` and returns them as a
    /// new bounded buffer, keeping the rest in place. Each side is no longer
    /// than the whole, so both keep the bound with no runtime check.
    pub fn drain(&mut self, start: usize, end: usize) -> (r: BVec<T, MAX>)
        requires
            old(self).wf(),
            start <= end <= old(self)@.len(),
        ensures
            final(self).wf(),
            r.wf(),
            final(self)@ == old(self)@.subrange(0, start as int) + old(self)@.subrange(
                end as int,
                old(self)@.len() as int,
            ),
            r@ == old(self)@.subrange(start as int, end as int),
    {
        let mut tail = self.s.split_off(end);
        let removed = self.s.split_off(start);
        self.s.append(&mut tail);
        proof {
            assert(old(self)@.subrange(0, end as int).subrange(0, start as int) =~= old(
                self,
            )@.subrange(0, start as int));
            assert(old(self)@.subrange(0, end as int).subrange(start as int, end as int) =~= old(
                self,
            )@.subrange(start as int, end as int));
        }
        BVec { s: removed }
    }
}

} // verus!
