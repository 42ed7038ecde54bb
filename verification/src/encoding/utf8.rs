//! The standard UTF-8 encoding used natively in Rust.

use vstd::prelude::*;
use vstd::utf8::{encode_scalar, encode_utf8};

use crate::encoding::{ascii_case_eq, Encoding};

verus! {

/// The number of bytes the UTF-8 encoding of `c` occupies (1 to 4).
pub open spec fn utf8_char_len(c: char) -> nat {
    if c as u32 <= 0x7F {
        1
    } else if c as u32 <= 0x7FF {
        2
    } else if c as u32 <= 0xFFFF {
        3
    } else {
        4
    }
}

/// The total UTF-8 byte length of a character sequence.
pub open spec fn utf8_length(s: Seq<char>) -> nat
    decreases s.len(),
{
    if s.len() == 0 {
        0
    } else {
        utf8_char_len(s[0]) + utf8_length(s.drop_first())
    }
}

/// UTF-8 length is additive over concatenation.
pub proof fn lemma_utf8_length_concat(s: Seq<char>, t: Seq<char>)
    ensures
        utf8_length(s + t) == utf8_length(s) + utf8_length(t),
    decreases s.len(),
{
    if s.len() == 0 {
        assert(s + t =~= t);
    } else {
        assert((s + t).drop_first() =~= s.drop_first() + t);
        lemma_utf8_length_concat(s.drop_first(), t);
    }
}

/// Appending one character adds exactly that character's UTF-8 width.
pub proof fn lemma_utf8_length_push(s: Seq<char>, c: char)
    ensures
        utf8_length(s.push(c)) == utf8_length(s) + utf8_char_len(c),
{
    assert(s.push(c) =~= s + seq![c]);
    lemma_utf8_length_concat(s, seq![c]);
    assert(seq![c].drop_first() =~= Seq::<char>::empty());
    assert(utf8_length(seq![c]) == utf8_char_len(c) + utf8_length(seq![c].drop_first()));
    assert(utf8_length(Seq::<char>::empty()) == 0);
}

/// `utf8_length` agrees with the length of the UTF-8 byte encoding of the
/// sequence, which is the in-memory byte length of a Rust string.
pub proof fn lemma_utf8_length_bytes(s: Seq<char>)
    ensures
        utf8_length(s) == encode_utf8(s).len(),
    decreases s.len(),
{
    if s.len() == 0 {
    } else {
        lemma_utf8_length_bytes(s.drop_first());
        vstd::utf8::char_is_scalar(s[0]);
        assert(encode_scalar(s[0] as u32).len() == utf8_char_len(s[0]));
    }
}

/// Characters equal up to ASCII case have the same UTF-8 width.
pub proof fn lemma_utf8_char_len_case(a: char, b: char)
    requires
        crate::encoding::ascii_case_eq_char(a, b),
    ensures
        utf8_char_len(a) == utf8_char_len(b),
{
}

/// Sequences equal up to ASCII case have the same UTF-8 length.
pub proof fn lemma_utf8_length_case(s: Seq<char>, t: Seq<char>)
    requires
        ascii_case_eq(s, t),
    ensures
        utf8_length(t) == utf8_length(s),
    decreases s.len(),
{
    if s.len() == 0 {
    } else {
        assert(ascii_case_eq(s.drop_first(), t.drop_first()));
        lemma_utf8_length_case(s.drop_first(), t.drop_first());
        lemma_utf8_char_len_case(s[0], t[0]);
    }
}

/// The standard UTF-8 encoding used natively in Rust: logical length equals
/// the in-memory byte length.
#[derive(Debug, Default, Hash)]
pub struct Utf8;

impl Encoding for Utf8 {
    open spec fn spec_length(s: Seq<char>) -> nat {
        utf8_length(s)
    }

    proof fn lemma_length_empty() {
    }

    proof fn lemma_length_concat(s: Seq<char>, t: Seq<char>) {
        lemma_utf8_length_concat(s, t);
    }

    proof fn lemma_length_ascii_case(s: Seq<char>, t: Seq<char>) {
        lemma_utf8_length_case(s, t);
    }

    fn length(s: &str) -> (n: usize) {
        proof {
            lemma_utf8_length_bytes(s@);
        }
        crate::encoding::str_byte_len(s)
    }
}

} // verus!
