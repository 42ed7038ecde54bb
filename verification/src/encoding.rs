//! String encoding strategies.
//!
//! An [`Encoding`] measures the logical length of a text value: the number of
//! bytes its serialized form would occupy under a named scheme, which may
//! diverge from the in-memory byte count. Bounded text containers enforce
//! their `MAX` bound against this logical length.

use vstd::prelude::*;

mod cesu8;
mod mcesu8;
mod utf8;

pub use cesu8::Cesu8;
pub use mcesu8::MCesu8;
pub use utf8::Utf8;

verus! {

/// True when `a` and `b` are the same character up to ASCII case: either
/// equal, or an ASCII letter and its other-case counterpart.
pub open spec fn ascii_case_eq_char(a: char, b: char) -> bool {
    ||| a == b
    ||| (0x41 <= a as u32 <= 0x5A && b as u32 == a as u32 + 0x20)
    ||| (0x41 <= b as u32 <= 0x5A && a as u32 == b as u32 + 0x20)
}

/// True when `s` and `t` agree character by character up to ASCII case.
pub open spec fn ascii_case_eq(s: Seq<char>, t: Seq<char>) -> bool {
    &&& s.len() == t.len()
    &&& forall|i: int| 0 <= i < s.len() ==> ascii_case_eq_char(s[i], #[trigger] t[i])
}

/// Trait for string encoding types. Defines a certain string's length in that
/// encoding.
///
/// ## Soundness
///
/// Beside the executable [`length`](Encoding::length), an implementation owes
/// proofs of the laws that make bound enforcement sound:
/// - logical length is additive over concatenation (so removing a character
///   or taking a sub-slice of the string will **never** make the
///   representation longer in that encoding), and
/// - converting an ASCII character from lowercase to uppercase and vice versa
///   will **never** change the length of the string in that encoding.
///
/// These laws are what allow sub-slicing and in-place ASCII case changes of a
/// bounded value to skip re-validation.
pub trait Encoding {
    /// The logical length of the text under this encoding.
    spec fn spec_length(s: Seq<char>) -> nat;

    /// Empty text has logical length zero under every encoding.
    proof fn lemma_length_empty()
        ensures
            Self::spec_length(Seq::empty()) == 0,
    ;

    /// Logical length is additive over concatenation.
    proof fn lemma_length_concat(s: Seq<char>, t: Seq<char>)
        ensures
            Self::spec_length(s + t) == Self::spec_length(s) + Self::spec_length(t),
    ;

    /// ASCII case changes never alter the logical length.
    proof fn lemma_length_ascii_case(s: Seq<char>, t: Seq<char>)
        requires
            ascii_case_eq(s, t),
        ensures
            Self::spec_length(t) == Self::spec_length(s),
    ;

    /// Computes the logical length of `s` under this encoding.
    fn length(s: &str) -> (n: usize)
        ensures
            n == Self::spec_length(s@),
    ;
}

/// Relies on `str::len` and the documented guarantee that a slice never
/// occupies more than `isize::MAX` bytes: the in-memory byte length of a
/// string slice, known to fit in a signed machine word.
#[verifier::external_body]
pub(crate) fn str_byte_len(s: &str) -> (n: usize)
    ensures
        n == vstd::utf8::encode_utf8(s@).len(),
        n <= isize::MAX,
{
    s.len()
}

/// A contiguous sub-range never has a larger logical length than the whole:
/// a consequence of additivity that lets any sub-slice of a bounded value
/// keep the bound with no runtime check.
pub proof fn lemma_length_subrange<E: Encoding>(s: Seq<char>, i: int, j: int)
    requires
        0 <= i <= j <= s.len(),
    ensures
        E::spec_length(s.subrange(i, j)) <= E::spec_length(s),
{
    let mid = s.subrange(i, s.len() as int);
    assert(s =~= s.subrange(0, i) + mid);
    E::lemma_length_concat(s.subrange(0, i), mid);
    assert(mid =~= s.subrange(i, j) + s.subrange(j, s.len() as int));
    E::lemma_length_concat(s.subrange(i, j), s.subrange(j, s.len() as int));
    assert(s.subrange(i, j) =~= mid.subrange(0, j - i));
}

/// Cutting out a contiguous middle range never increases the logical length:
/// what remains is the prefix before the cut joined with the suffix after it.
pub proof fn lemma_length_cut<E: Encoding>(s: Seq<char>, k1: int, k2: int)
    requires
        0 <= k1 <= k2 <= s.len(),
    ensures
        E::spec_length(s.subrange(0, k1) + s.subrange(k2, s.len() as int))
            <= E::spec_length(s),
{
    let pre = s.subrange(0, k1);
    let mid = s.subrange(k1, k2);
    let post = s.subrange(k2, s.len() as int);
    assert(s =~= (pre + mid) + post);
    E::lemma_length_concat(pre + mid, post);
    E::lemma_length_concat(pre, mid);
    E::lemma_length_concat(pre, post);
}

} // verus!
