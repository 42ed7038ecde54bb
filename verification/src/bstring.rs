//! Bounded string buffer.

use vstd::prelude::*;
use vstd::string::StrSliceExecFns;
use vstd::utf8::{encode_utf8, is_char_boundary};

use crate::const_checks::{AssertGe, Pair};
use crate::encoding::{
    ascii_case_eq, lemma_length_cut, lemma_length_subrange, Encoding, Utf8,
};
use crate::BStr;
use crate::LengthExceeded;

verus! {

/// Bounded [`String`].
///
/// An owned, growable text buffer guaranteed to not be longer than `MAX`
/// bytes in the [`E`](crate::encoding::Encoding) encoding representation:
/// every well-formed value satisfies [`wf`](BString::wf), every constructor
/// establishes it, and every exposed mutation preserves it — operations that
/// could grow the text past `MAX` are not exposed at all.
#[derive(Debug, Hash)]
pub struct BString<const MAX: usize, E = Utf8> {
    s: String,
    encoding: core::marker::PhantomData<E>,
}

impl<const MAX: usize, E> View for BString<MAX, E> {
    type V = Seq<char>;

    closed spec fn view(&self) -> Seq<char> {
        self.s@
    }
}

/// Relies on `String::with_capacity`: a new, empty string.
pub assume_specification[ String::with_capacity ](capacity: usize) -> (r: String)
    ensures
        r@ == Seq::<char>::empty(),
;

/// Relies on `String::capacity`: the buffer's capacity in bytes (nothing
/// further is promised of its value).
pub assume_specification[ String::capacity ](s: &String) -> usize
;

/// Relies on `String::clear`: removes all contents.
pub assume_specification[ String::clear ](s: &mut String)
    ensures
        final(s)@ == Seq::<char>::empty(),
;

/// Relies on `String::pop`: removes and returns the last character, or
/// `None` when the string is empty.
pub assume_specification[ String::pop ](s: &mut String) -> (r: Option<char>)
    ensures
        old(s)@.len() > 0 ==> (r == Some(old(s)@.last()) && final(s)@ == old(s)@.drop_last()),
        old(s)@.len() == 0 ==> (r is None && final(s)@ == old(s)@),
;

/// Relies on `String::truncate`: keeps the first `new_len` bytes (a no-op
/// when `new_len` is at least the current byte length); the result is the
/// character prefix whose encoding occupies exactly `new_len` bytes. Panics
/// off a character boundary, so that case is excluded here.
pub assume_specification[ String::truncate ](s: &mut String, new_len: usize)
    requires
        new_len >= encode_utf8(old(s)@).len() || is_char_boundary(
            encode_utf8(old(s)@),
            new_len as int,
        ),
    ensures
        new_len >= encode_utf8(old(s)@).len() ==> final(s)@ == old(s)@,
        new_len < encode_utf8(old(s)@).len() ==> (exists|k: int|
            0 <= k <= old(s)@.len() && final(s)@ == old(s)@.subrange(0, k) && encode_utf8(
                old(s)@.subrange(0, k),
            ).len() == new_len),
;

/// Relies on `String::remove`: removes and returns the character that starts
/// at byte position `idx`. Panics out of range or off a character boundary,
/// so those cases are excluded here.
pub assume_specification[ String::remove ](s: &mut String, idx: usize) -> (r: char)
    requires
        idx < encode_utf8(old(s)@).len(),
        is_char_boundary(encode_utf8(old(s)@), idx as int),
    ensures
        exists|k: int|
            0 <= k < old(s)@.len() && r == old(s)@[k] && final(s)@ == old(s)@.subrange(0, k)
                + old(s)@.subrange(k + 1, old(s)@.len() as int) && encode_utf8(
                old(s)@.subrange(0, k),
            ).len() == idx,
;

/// Relies on `String::split_off`: the buffer keeps the bytes before `at` and
/// the returned string holds the bytes from `at` on. Panics off a character
/// boundary, so that case is excluded here.
pub assume_specification[ String::split_off ](s: &mut String, at: usize) -> (r: String)
    requires
        is_char_boundary(encode_utf8(old(s)@), at as int),
    ensures
        exists|k: int|
            0 <= k <= old(s)@.len() && final(s)@ == old(s)@.subrange(0, k) && r@ == old(
                s,
            )@.subrange(k, old(s)@.len() as int) && encode_utf8(old(s)@.subrange(0, k)).len()
                == at,
;

/// Relies on `String::shrink_to`: shrinking affects only capacity, never the
/// contents.
pub assume_specification[ String::shrink_to ](s: &mut String, min_capacity: usize)
    ensures
        final(s)@ == old(s)@,
;

/// Relies on `String::shrink_to_fit`: shrinking affects only capacity, never
/// the contents.
pub assume_specification[ String::shrink_to_fit ](s: &mut String)
    ensures
        final(s)@ == old(s)@,
;

/// Relies on `String::leak`: the leaked string slice holds exactly the
/// buffer's text (for any chosen lifetime of the caller).
#[verifier::external_body]
fn string_leak<'a>(s: String) -> (r: &'a str)
    ensures
        r@ == s@,
{
    s.leak()
}

/// Relies on `String::drain`: dropping the returned iterator removes the
/// bytes `start..end`; what remains is the text around the drained range.
/// Panics out of range or off character boundaries, so those cases are
/// excluded here.
#[verifier::external_body]
fn string_drain(s: &mut String, start: usize, end: usize)
    requires
        start <= end,
        is_char_boundary(encode_utf8(old(s)@), start as int),
        is_char_boundary(encode_utf8(old(s)@), end as int),
    ensures
        exists|k1: int, k2: int|
            0 <= k1 <= k2 <= old(s)@.len() && final(s)@ == old(s)@.subrange(0, k1) + old(
                s,
            )@.subrange(k2, old(s)@.len() as int) && encode_utf8(old(s)@.subrange(0, k1)).len()
                == start && encode_utf8(old(s)@.subrange(0, k2)).len() == end,
{
    s.drain(start..end);
}

/// Relies on `str::make_ascii_uppercase` (reached through `String`'s mutable
/// deref): ASCII lowercase letters become uppercase; all other characters
/// are unchanged.
#[verifier::external_body]
fn string_make_ascii_uppercase(s: &mut String)
    ensures
        final(s)@.len() == old(s)@.len(),
        forall|i: int|
            #![auto]
            0 <= i < old(s)@.len() ==> (if 0x61 <= old(s)@[i] as u32 <= 0x7A {
                final(s)@[i] as u32 == old(s)@[i] as u32 - 0x20
            } else {
                final(s)@[i] == old(s)@[i]
            }),
{
    s.make_ascii_uppercase()
}

/// Relies on `str::make_ascii_lowercase` (reached through `String`'s mutable
/// deref): ASCII uppercase letters become lowercase; all other characters
/// are unchanged.
#[verifier::external_body]
fn string_make_ascii_lowercase(s: &mut String)
    ensures
        final(s)@.len() == old(s)@.len(),
        forall|i: int|
            #![auto]
            0 <= i < old(s)@.len() ==> (if 0x41 <= old(s)@[i] as u32 <= 0x5A {
                final(s)@[i] as u32 == old(s)@[i] as u32 + 0x20
            } else {
                final(s)@[i] == old(s)@[i]
            }),
{
    s.make_ascii_lowercase()
}

impl<E: Encoding, const MAX: usize> Default for BString<MAX, E> {
    /// The empty bounded string.
    fn default() -> (r: Self)
        ensures
            r@ == Seq::<char>::empty(),
            r.wf(),
    {
        BString::new()
    }
}

impl<E: Encoding, const MAX: usize> Clone for BString<MAX, E> {
    /// Clones the buffer; the text (and so the bound) is preserved exactly.
    fn clone(&self) -> (r: Self)
        ensures
            r@ == self@,
            self.wf() ==> r.wf(),
    {
        BString { s: self.s.clone(), encoding: core::marker::PhantomData }
    }
}

impl<E: Encoding, const MAX: usize> PartialEq for BString<MAX, E> {
    fn eq(&self, other: &Self) -> (r: bool) {
        self.s.eq(&other.s)
    }
}

impl<E: Encoding, const MAX: usize> vstd::std_specs::cmp::PartialEqSpecImpl for BString<MAX, E> {
    open spec fn obeys_eq_spec() -> bool {
        true
    }

    open spec fn eq_spec(&self, other: &Self) -> bool {
        self@ == other@
    }
}

impl<E: Encoding, const MAX: usize> BString<MAX, E> {
    /// Well-formedness: the owned text never exceeds `MAX` bytes in the `E`
    /// encoding.
    pub open spec fn wf(&self) -> bool {
        E::spec_length(self@) <= MAX
    }

    /// Creates a `BString<MAX, E>` from a `String` without any runtime
    /// check.
    ///
    /// The caller must prove that the string is not longer than `MAX` bytes
    /// in the given encoding; the conversion itself is free.
    pub fn from_string_unchecked(s: String) -> (r: Self)
        requires
            E::spec_length(s@) <= MAX,
        ensures
            r@ == s@,
            r.wf(),
    {
        BString { s, encoding: core::marker::PhantomData }
    }

    /// Creates a `BString<MAX, E>` from a `&str` without a runtime check,
    /// allocating a new buffer.
    ///
    /// The caller must prove that the string is not longer than `MAX` bytes
    /// in the given encoding.
    pub fn from_str_unchecked(s: &str) -> (r: Self)
        requires
            E::spec_length(s@) <= MAX,
        ensures
            r@ == s@,
            r.wf(),
    {
        BString { s: s.to_owned(), encoding: core::marker::PhantomData }
    }

    /// Creates a `BString<MAX, E>` from a `&str`, performing a runtime check
    /// and allocating a new buffer.
    ///
    /// Succeeds exactly when the logical length of the text under `E` is at
    /// most `MAX`, and then owns the same text; otherwise reports the
    /// offending logical length.
    pub fn from_str(s: &str) -> (r: Result<Self, LengthExceeded>)
        ensures
            E::spec_length(s@) <= MAX ==> (r matches Ok(b) && b@ == s@ && b.wf()),
            E::spec_length(s@) > MAX ==> (r matches Err(e) && e.length == E::spec_length(s@)
                && e.maximum == MAX),
    {
        let length = E::length(s);
        if length > MAX {
            Err(LengthExceeded { length, maximum: MAX })
        } else {
            Ok(BString { s: s.to_owned(), encoding: core::marker::PhantomData })
        }
    }

    /// Creates a `BString<MAX, E>` from a `String`, performing a runtime
    /// check; the buffer is reused, not reallocated.
    ///
    /// Succeeds exactly when the logical length of the text under `E` is at
    /// most `MAX`; otherwise reports the offending logical length.
    pub fn from_string(s: String) -> (r: Result<Self, LengthExceeded>)
        ensures
            E::spec_length(s@) <= MAX ==> (r matches Ok(b) && b@ == s@ && b.wf()),
            E::spec_length(s@) > MAX ==> (r matches Err(e) && e.length == E::spec_length(s@)
                && e.maximum == MAX),
    {
        let length = E::length(s.as_str());
        if length > MAX {
            Err(LengthExceeded { length, maximum: MAX })
        } else {
            Ok(BString { s, encoding: core::marker::PhantomData })
        }
    }

    /// Gives the inner [`String`].
    pub fn into_inner(self) -> (r: String)
        ensures
            r@ == self@,
    {
        self.s
    }

    /// Gives an immutable reference to the inner [`String`].
    pub fn as_string(&self) -> (r: &String)
        ensures
            r@ == self@,
    {
        &self.s
    }

    /// Borrows the owned text as a bounded view with the same bound and
    /// encoding.
    pub fn as_bstr(&self) -> (r: BStr<'_, MAX, E>)
        requires
            self.wf(),
        ensures
            r@ == self@,
            r.wf(),
    {
        BStr::from_str_unchecked(self.s.as_str())
    }

    /// Relaxes the `MAX` bound, converting to a type with a bigger one.
    ///
    /// This conversion is free and does not involve any runtime check: that
    /// the new `MAX` is at least the old one is proved during verification,
    /// and the operation is total.
    pub fn relax_max<const MAX2: usize>(self) -> (r: BString<MAX2, E>)
        requires
            self.wf(),
            Pair::<MAX2, MAX>::valid(),
        ensures
            r@ == self@,
            r.wf(),
    {
        BString { s: self.s, encoding: core::marker::PhantomData }
    }

    /// Changes the `MAX` bound (and optionally the encoding type).
    ///
    /// This involves a runtime check whether the new bound is met: it
    /// succeeds exactly when the logical length under `E2` is at most
    /// `MAX2`.
    pub fn change_max<E2: Encoding, const MAX2: usize>(self) -> (r: Result<
        BString<MAX2, E2>,
        LengthExceeded,
    >)
        ensures
            E2::spec_length(self@) <= MAX2 ==> (r matches Ok(b) && b@ == self@ && b.wf()),
            E2::spec_length(self@) > MAX2 ==> (r matches Err(e) && e.length == E2::spec_length(
                self@,
            ) && e.maximum == MAX2),
    {
        BString::from_string(self.s)
    }

    /// The buffer's capacity in bytes.
    pub fn capacity(&self) -> usize {
        self.s.capacity()
    }

    /// Consumes and leaks the buffer, returning a bounded view of the text
    /// with an unbounded lifetime.
    pub fn leak<'a>(self) -> (r: BStr<'a, MAX, E>)
        requires
            self.wf(),
        ensures
            r@ == self@,
            r.wf(),
    {
        BStr::from_str_unchecked(string_leak(self.s))
    }

    /// Truncates this `BString`, removing all contents.
    pub fn clear(&mut self)
        ensures
            final(self)@ == Seq::<char>::empty(),
            final(self).wf(),
    {
        self.s.clear();
        proof {
            E::lemma_length_empty();
        }
    }

    /// Removes the byte range `start..end` from the string in bulk. What
    /// remains is the text around the drained range, so the bound is
    /// preserved with no runtime check.
    pub fn drain(&mut self, start: usize, end: usize)
        requires
            old(self).wf(),
            start <= end,
            is_char_boundary(encode_utf8(old(self)@), start as int),
            is_char_boundary(encode_utf8(old(self)@), end as int),
        ensures
            final(self).wf(),
            exists|k1: int, k2: int|
                0 <= k1 <= k2 <= old(self)@.len() && final(self)@ == old(self)@.subrange(0, k1)
                    + old(self)@.subrange(k2, old(self)@.len() as int) && encode_utf8(
                    old(self)@.subrange(0, k1),
                ).len() == start && encode_utf8(old(self)@.subrange(0, k2)).len() == end,
    {
        string_drain(&mut self.s, start, end);
        proof {
            let (k1, k2) = choose|k1: int, k2: int|
                0 <= k1 <= k2 <= old(self)@.len() && self@ == old(self)@.subrange(0, k1) + old(
                    self,
                )@.subrange(k2, old(self)@.len() as int) && encode_utf8(
                    old(self)@.subrange(0, k1),
                ).len() == start && encode_utf8(old(self)@.subrange(0, k2)).len() == end;
            lemma_length_cut::<E>(old(self)@, k1, k2);
        }
    }

    /// Creates a new empty `BString<MAX, E>`.
    pub fn new() -> (r: Self)
        ensures
            r@ == Seq::<char>::empty(),
            r.wf(),
    {
        proof {
            E::lemma_length_empty();
        }
        BString { s: String::new(), encoding: core::marker::PhantomData }
    }

    /// Creates a new empty `BString<MAX, E>` with at least the specified
    /// capacity in bytes.
    pub fn with_capacity(capacity: usize) -> (r: Self)
        ensures
            r@ == Seq::<char>::empty(),
            r.wf(),
    {
        proof {
            E::lemma_length_empty();
        }
        BString { s: String::with_capacity(capacity), encoding: core::marker::PhantomData }
    }

    /// Removes the last character from the buffer and returns it, or `None`
    /// when the buffer is empty. Never lengthens the text, so the bound is
    /// preserved.
    pub fn pop(&mut self) -> (r: Option<char>)
        requires
            old(self).wf(),
        ensures
            old(self)@.len() > 0 ==> (r == Some(old(self)@.last()) && final(self)@ == old(
                self,
            )@.drop_last()),
            old(self)@.len() == 0 ==> (r is None && final(self)@ == old(self)@),
            final(self).wf(),
    {
        let r = self.s.pop();
        proof {
            if old(self)@.len() > 0 {
                assert(old(self)@.drop_last() =~= old(self)@.subrange(
                    0,
                    old(self)@.len() as int - 1,
                ));
                lemma_length_subrange::<E>(old(self)@, 0, old(self)@.len() as int - 1);
            }
        }
        r
    }

    /// Removes the character that starts at byte position `idx` and returns
    /// it. What remains is the text around the removed character, so the
    /// bound is preserved with no runtime check.
    pub fn remove(&mut self, idx: usize) -> (r: char)
        requires
            old(self).wf(),
            idx < encode_utf8(old(self)@).len(),
            is_char_boundary(encode_utf8(old(self)@), idx as int),
        ensures
            final(self).wf(),
            exists|k: int|
                0 <= k < old(self)@.len() && r == old(self)@[k] && final(self)@ == old(
                    self,
                )@.subrange(0, k) + old(self)@.subrange(k + 1, old(self)@.len() as int)
                    && encode_utf8(old(self)@.subrange(0, k)).len() == idx,
    {
        let r = self.s.remove(idx);
        proof {
            let k = choose|k: int|
                0 <= k < old(self)@.len() && r == old(self)@[k] && self@ == old(self)@.subrange(
                    0,
                    k,
                ) + old(self)@.subrange(k + 1, old(self)@.len() as int) && encode_utf8(
                    old(self)@.subrange(0, k),
                ).len() == idx;
            lemma_length_cut::<E>(old(self)@, k, k + 1);
        }
        r
    }

    /// Shrinks the capacity with a lower bound; the text is unchanged.
    pub fn shrink_to(&mut self, min_capacity: usize)
        ensures
            final(self)@ == old(self)@,
    {
        self.s.shrink_to(min_capacity)
    }

    /// Shrinks the capacity to match the text's byte length; the text is
    /// unchanged.
    pub fn shrink_to_fit(&mut self)
        ensures
            final(self)@ == old(self)@,
    {
        self.s.shrink_to_fit()
    }

    /// Splits the text into two at the given byte index: `self` keeps the
    /// bytes before `at` and the returned buffer holds the rest. Each half
    /// is no longer than the whole, so both keep the bound with no runtime
    /// check.
    pub fn split_off(&mut self, at: usize) -> (r: BString<MAX, E>)
        requires
            old(self).wf(),
            is_char_boundary(encode_utf8(old(self)@), at as int),
        ensures
            final(self).wf(),
            r.wf(),
            final(self)@ + r@ == old(self)@,
            exists|k: int|
                0 <= k <= old(self)@.len() && final(self)@ == old(self)@.subrange(0, k) && r@
                    == old(self)@.subrange(k, old(self)@.len() as int) && encode_utf8(
                    old(self)@.subrange(0, k),
                ).len() == at,
    {
        let tail = self.s.split_off(at);
        proof {
            let k = choose|k: int|
                0 <= k <= old(self)@.len() && self@ == old(self)@.subrange(0, k) && tail@ == old(
                    self,
                )@.subrange(k, old(self)@.len() as int) && encode_utf8(
                    old(self)@.subrange(0, k),
                ).len() == at;
            lemma_length_subrange::<E>(old(self)@, 0, k);
            lemma_length_subrange::<E>(old(self)@, k, old(self)@.len() as int);
            assert(old(self)@.subrange(0, k) + old(self)@.subrange(k, old(self)@.len() as int)
                =~= old(self)@);
        }
        BString { s: tail, encoding: core::marker::PhantomData }
    }

    /// Shortens this `BString` to the first `new_len` bytes; a no-op when
    /// `new_len` is not below the current byte length. What remains is a
    /// prefix of the old text, so the bound is preserved with no runtime
    /// check.
    pub fn truncate(&mut self, new_len: usize)
        requires
            old(self).wf(),
            new_len >= encode_utf8(old(self)@).len() || is_char_boundary(
                encode_utf8(old(self)@),
                new_len as int,
            ),
        ensures
            final(self).wf(),
            exists|k: int| 0 <= k <= old(self)@.len() && final(self)@ == old(self)@.subrange(0, k),
            encode_utf8(final(self)@).len() == vstd::math::min(
                new_len as int,
                encode_utf8(old(self)@).len() as int,
            ),
    {
        let ghost obytes = encode_utf8(old(self)@).len() as int;
        self.s.truncate(new_len);
        proof {
            if new_len >= obytes {
                assert(self@ =~= old(self)@.subrange(0, old(self)@.len() as int));
            } else {
                let k = choose|k: int|
                    0 <= k <= old(self)@.len() && self@ == old(self)@.subrange(0, k)
                        && encode_utf8(old(self)@.subrange(0, k)).len() == new_len;
                lemma_length_subrange::<E>(old(self)@, 0, k);
            }
        }
    }

    /// Converts the text to its ASCII upper case equivalent in place:
    /// lowercase ASCII letters become uppercase, all other characters are
    /// unchanged. An ASCII case change never alters the logical length, so
    /// the bound is preserved.
    pub fn make_ascii_uppercase(&mut self)
        requires
            old(self).wf(),
        ensures
            final(self).wf(),
            final(self)@.len() == old(self)@.len(),
            forall|i: int|
                #![auto]
                0 <= i < old(self)@.len() ==> (if 0x61 <= old(self)@[i] as u32 <= 0x7A {
                    final(self)@[i] as u32 == old(self)@[i] as u32 - 0x20
                } else {
                    final(self)@[i] == old(self)@[i]
                }),
            E::spec_length(final(self)@) == E::spec_length(old(self)@),
    {
        string_make_ascii_uppercase(&mut self.s);
        proof {
            assert(ascii_case_eq(old(self)@, self@));
            E::lemma_length_ascii_case(old(self)@, self@);
        }
    }

    /// Converts the text to its ASCII lower case equivalent in place:
    /// uppercase ASCII letters become lowercase, all other characters are
    /// unchanged. An ASCII case change never alters the logical length, so
    /// the bound is preserved.
    pub fn make_ascii_lowercase(&mut self)
        requires
            old(self).wf(),
        ensures
            final(self).wf(),
            final(self)@.len() == old(self)@.len(),
            forall|i: int|
                #![auto]
                0 <= i < old(self)@.len() ==> (if 0x41 <= old(self)@[i] as u32 <= 0x5A {
                    final(self)@[i] as u32 == old(self)@[i] as u32 + 0x20
                } else {
                    final(self)@[i] == old(self)@[i]
                }),
            E::spec_length(final(self)@) == E::spec_length(old(self)@),
    {
        string_make_ascii_lowercase(&mut self.s);
        proof {
            assert(ascii_case_eq(old(self)@, self@));
            E::lemma_length_ascii_case(old(self)@, self@);
        }
    }
}


/// Relies on `String::push`: appends one character.
pub assume_specification[ String::push ](s: &mut String, c: char)
    ensures
        final(s)@ == old(s)@.push(c),
;

impl<E: Encoding, const MAX: usize> BString<MAX, E> {
    /// Retains only the characters for which the predicate returns `true`,
    /// in order. What remains is a subsequence of the old text, and no
    /// encoding lengthens a text when characters are removed, so the bound
    /// is preserved.
    pub fn retain<F: Fn(char) -> bool>(&mut self, f: F)
        requires
            old(self).wf(),
            forall|c: char| #[trigger] f.requires((c,)),
        ensures
            final(self).wf(),
            crate::bvec::subsequence_of(final(self)@, old(self)@),
            final(self)@.len() <= old(self)@.len(),
            forall|k: int|
                0 <= k < final(self)@.len() ==> call_ensures(
                    f,
                    (#[trigger] final(self)@[k],),
                    true,
                ),
    {
        let n = self.s.as_str().unicode_len();
        let mut out = String::new();
        let mut i: usize = 0;
        proof {
            E::lemma_length_empty();
            assert(old(self)@.take(0) =~= Seq::<char>::empty());
        }
        while i < n
            invariant
                i <= n,
                n == old(self)@.len(),
                self@ == old(self)@,
                E::spec_length(old(self)@) <= MAX,
                crate::bvec::subsequence_of(out@, old(self)@.take(i as int)),
                E::spec_length(out@) <= E::spec_length(old(self)@.take(i as int)),
                forall|k: int|
                    0 <= k < out@.len() ==> call_ensures(f, (#[trigger] out@[k],), true),
                forall|c: char| #[trigger] f.requires((c,)),
            decreases n - i,
        {
            let c = self.s.as_str().get_char(i);
            proof {
                assert(old(self)@.take(i as int + 1) =~= old(self)@.take(i as int).push(c));
                assert(old(self)@.take(i as int).push(c) =~= old(self)@.take(i as int) + seq![c]);
                E::lemma_length_concat(old(self)@.take(i as int), seq![c]);
            }
            if f(c) {
                proof {
                    crate::bvec::lemma_subsequence_push_both(out@, old(self)@.take(i as int), c);
                    assert(out@.push(c) =~= out@ + seq![c]);
                    E::lemma_length_concat(out@, seq![c]);
                }
                out.push(c);
            } else {
                proof {
                    crate::bvec::lemma_subsequence_push_right(out@, old(self)@.take(i as int), c);
                }
            }
            i += 1;
        }
        proof {
            assert(old(self)@.take(n as int) =~= old(self)@);
            crate::bvec::lemma_subsequence_len(out@, old(self)@);
        }
        self.s = out;
    }

    /// Compares the owned text with a native string slice.
    pub fn eq_str(&self, other: &str) -> (r: bool)
        ensures
            r == (self@ == other@),
    {
        crate::bstr::str_eq(self.s.as_str(), other)
    }

    /// Gives the owned text as a native string slice.
    pub fn as_str(&self) -> (r: &str)
        ensures
            r@ == self@,
    {
        self.s.as_str()
    }

    /// True when the owned text is empty.
    pub fn is_empty(&self) -> (r: bool)
        ensures
            r == (self@.len() == 0),
    {
        self.s.as_str().is_empty()
    }

    /// The number of characters owned (not bytes).
    pub fn char_count(&self) -> (n: usize)
        ensures
            n == self@.len(),
    {
        self.s.as_str().unicode_len()
    }

    /// The character at position `i` (counting characters, not bytes).
    pub fn get_char(&self, i: usize) -> (c: char)
        requires
            i < self@.len(),
        ensures
            c == self@[i as int],
    {
        self.s.as_str().get_char(i)
    }
}

} // verus!
