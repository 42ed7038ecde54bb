//! Bounded string view.

use vstd::prelude::*;
use vstd::string::StrSliceExecFns;

use crate::const_checks::{AssertGe, Pair};
use crate::encoding::{lemma_length_subrange, Encoding, Utf8};
use crate::BString;
use crate::LengthExceeded;

verus! {

/// Bounded [`str`] view.
///
/// A zero-copy wrapper around a native string slice, guaranteed to not be
/// longer than `MAX` bytes in the [`E`](crate::encoding::Encoding) encoding
/// representation: every well-formed value satisfies [`wf`](BStr::wf), and
/// every constructor either proves the bound during verification or checks
/// it at run time.
#[derive(Debug, Hash)]
pub struct BStr<'a, const MAX: usize, E = Utf8> {
    s: &'a str,
    encoding: core::marker::PhantomData<E>,
}

impl<'a, const MAX: usize, E> View for BStr<'a, MAX, E> {
    type V = Seq<char>;

    closed spec fn view(&self) -> Seq<char> {
        self.s@
    }
}

impl<'a, const MAX: usize, E> Clone for BStr<'a, MAX, E> {
    fn clone(&self) -> (r: Self)
        ensures
            r == *self,
    {
        BStr { s: self.s, encoding: core::marker::PhantomData }
    }
}

impl<'a, const MAX: usize, E> Copy for BStr<'a, MAX, E> {

}

/// Relies on `<str as PartialEq>::eq`: string slices compare equal exactly
/// when they hold the same characters.
#[verifier::external_body]
pub(crate) fn str_eq(a: &str, b: &str) -> (r: bool)
    ensures
        r == (a@ == b@),
{
    a == b
}

impl<'a, E: Encoding, const MAX: usize> BStr<'a, MAX, E> {
    /// Well-formedness: the viewed text never exceeds `MAX` bytes in the
    /// `E` encoding.
    pub open spec fn wf(&self) -> bool {
        E::spec_length(self@) <= MAX
    }

    /// Creates a `BStr<MAX, E>` from a `&str` without any runtime check.
    ///
    /// The caller must prove that the string is not longer than `MAX` bytes
    /// in the given encoding; the conversion itself is free.
    pub fn from_str_unchecked(s: &'a str) -> (r: Self)
        requires
            E::spec_length(s@) <= MAX,
        ensures
            r@ == s@,
            r.wf(),
    {
        BStr { s, encoding: core::marker::PhantomData }
    }

    /// Creates a `BStr<MAX, E>` from a `&str`, performing a runtime check.
    ///
    /// Succeeds exactly when the logical length of the text under `E` is at
    /// most `MAX`, and then views the same text; otherwise reports the
    /// offending logical length.
    pub fn from_str(s: &'a str) -> (r: Result<Self, LengthExceeded>)
        ensures
            E::spec_length(s@) <= MAX ==> (r matches Ok(b) && b@ == s@ && b.wf()),
            E::spec_length(s@) > MAX ==> (r matches Err(e) && e.length == E::spec_length(s@)
                && e.maximum == MAX),
    {
        let length = E::length(s);
        if length > MAX {
            Err(LengthExceeded { length, maximum: MAX })
        } else {
            Ok(BStr { s, encoding: core::marker::PhantomData })
        }
    }

    /// Gives the underlying native string slice.
    pub fn as_str(&self) -> (r: &'a str)
        ensures
            r@ == self@,
    {
        self.s
    }

    /// True when the viewed text is empty.
    pub fn is_empty(&self) -> (r: bool)
        ensures
            r == (self@.len() == 0),
    {
        self.s.is_empty()
    }

    /// The number of characters viewed (not bytes).
    pub fn char_count(&self) -> (n: usize)
        ensures
            n == self@.len(),
    {
        self.s.unicode_len()
    }

    /// The character at position `i` (counting characters, not bytes).
    pub fn get_char(&self, i: usize) -> (c: char)
        requires
            i < self@.len(),
        ensures
            c == self@[i as int],
    {
        let s: &'a str = self.s;
        s.get_char(i)
    }

    /// The sub-view of character positions `from..to`.
    ///
    /// A sub-range of a bounded view can never have a larger logical length
    /// than its parent, whatever the encoding, so it stays within the same
    /// `MAX` with no runtime check.
    pub fn substring_char(&self, from: usize, to: usize) -> (r: Self)
        requires
            self.wf(),
            from <= to <= self@.len(),
        ensures
            r@ == self@.subrange(from as int, to as int),
            r.wf(),
    {
        proof {
            lemma_length_subrange::<E>(self@, from as int, to as int);
        }
        let s: &'a str = self.s;
        BStr { s: s.substring_char(from, to), encoding: core::marker::PhantomData }
    }

    /// Relaxes the `MAX` bound, converting to a type with a bigger one.
    ///
    /// This conversion is free and does not involve any runtime check: that
    /// the new `MAX` is at least the old one is proved during verification,
    /// and the operation is total.
    pub fn relax_max<const MAX2: usize>(&self) -> (r: BStr<'a, MAX2, E>)
        requires
            self.wf(),
            Pair::<MAX2, MAX>::valid(),
        ensures
            r@ == self@,
            r.wf(),
    {
        BStr { s: self.s, encoding: core::marker::PhantomData }
    }

    /// Changes the `MAX` bound (and optionally the encoding type).
    ///
    /// This involves a runtime check whether the new bound is met: it
    /// succeeds exactly when the logical length under `E2` is at most
    /// `MAX2`.
    pub fn change_max<E2: Encoding, const MAX2: usize>(&self) -> (r: Result<
        BStr<'a, MAX2, E2>,
        LengthExceeded,
    >)
        ensures
            E2::spec_length(self@) <= MAX2 ==> (r matches Ok(b) && b@ == self@ && b.wf()),
            E2::spec_length(self@) > MAX2 ==> (r matches Err(e) && e.length == E2::spec_length(
                self@,
            ) && e.maximum == MAX2),
    {
        BStr::from_str(self.s)
    }

    /// Compares the viewed text with a native string slice.
    pub fn eq_str(&self, other: &str) -> (r: bool)
        ensures
            r == (self@ == other@),
    {
        str_eq(self.s, other)
    }

    /// Clones the viewed text into an owned [`BString`] with the same bound
    /// and encoding.
    pub fn to_owned(&self) -> (r: BString<MAX, E>)
        requires
            self.wf(),
        ensures
            r@ == self@,
            r.wf(),
    {
        BString::from_str(self.s).unwrap()
    }
}

impl<'a, E: Encoding, const MAX1: usize> BStr<'a, MAX1, E> {
    /// Compares two bounded views, whatever their bounds: equality of the
    /// viewed text.
    pub fn eq_bstr<const MAX2: usize>(&self, other: &BStr<'a, MAX2, E>) -> (r: bool)
        ensures
            r == (self@ == other@),
    {
        str_eq(self.s, other.s)
    }
}


impl<'a, E: Encoding, const MAX: usize> BStr<'a, MAX, E> {
    /// The in-memory (UTF-8) byte length of the viewed text, which can
    /// differ from its logical length under `E`.
    pub fn len(&self) -> (n: usize)
        ensures
            n == vstd::utf8::encode_utf8(self@).len(),
    {
        let s: &'a str = self.s;
        let b: &[u8] = s.as_bytes();
        b.len()
    }

    /// The viewed text as its UTF-8 bytes.
    pub fn as_bytes(&self) -> (r: &'a [u8])
        ensures
            r@ == vstd::utf8::encode_utf8(self@),
    {
        let s: &'a str = self.s;
        s.as_bytes()
    }

    /// True when every viewed character is ASCII.
    pub fn is_ascii(&self) -> (r: bool)
        ensures
            r == vstd::utf8::is_ascii_chars(self@),
    {
        self.s.is_ascii()
    }

    /// The sub-view of character positions `from..to` of ASCII text (a
    /// constant-time slicing path); bound-safe with no runtime check.
    pub fn substring_ascii(&self, from: usize, to: usize) -> (r: Self)
        requires
            self.wf(),
            vstd::utf8::is_ascii_chars(self@),
            from <= to <= self@.len(),
        ensures
            r@ == self@.subrange(from as int, to as int),
            r.wf(),
    {
        proof {
            lemma_length_subrange::<E>(self@, from as int, to as int);
        }
        let s: &'a str = self.s;
        BStr { s: s.substring_ascii(from, to), encoding: core::marker::PhantomData }
    }
}

} // verus!
