//! The CESU-8 encoding.

use vstd::prelude::*;
use vstd::string::StrSliceExecFns;

use crate::encoding::{ascii_case_eq, Encoding};
use crate::encoding::utf8::{
    lemma_utf8_char_len_case, lemma_utf8_length_bytes, lemma_utf8_length_push, utf8_char_len,
    utf8_length,
};

verus! {

/// The number of bytes the CESU-8 encoding of `c` occupies: characters above
/// the Basic Multilingual Plane are written as a six-byte surrogate pair,
/// everything else as in UTF-8.
pub open spec fn cesu8_char_len(c: char) -> nat {
    if c as u32 > 0xFFFF {
        6
    } else {
        utf8_char_len(c)
    }
}

/// The total CESU-8 byte length of a character sequence.
pub open spec fn cesu8_length(s: Seq<char>) -> nat
    decreases s.len(),
{
    if s.len() == 0 {
        0
    } else {
        cesu8_char_len(s[0]) + cesu8_length(s.drop_first())
    }
}

/// CESU-8 length is additive over concatenation.
pub proof fn lemma_cesu8_length_concat(s: Seq<char>, t: Seq<char>)
    ensures
        cesu8_length(s + t) == cesu8_length(s) + cesu8_length(t),
    decreases s.len(),
{
    if s.len() == 0 {
        assert(s + t =~= t);
    } else {
        assert((s + t).drop_first() =~= s.drop_first() + t);
        lemma_cesu8_length_concat(s.drop_first(), t);
    }
}

/// Appending one character adds exactly that character's CESU-8 width.
pub proof fn lemma_cesu8_length_push(s: Seq<char>, c: char)
    ensures
        cesu8_length(s.push(c)) == cesu8_length(s) + cesu8_char_len(c),
{
    assert(s.push(c) =~= s + seq![c]);
    lemma_cesu8_length_concat(s, seq![c]);
    assert(seq![c].drop_first() =~= Seq::<char>::empty());
    assert(cesu8_length(seq![c]) == cesu8_char_len(c) + cesu8_length(seq![c].drop_first()));
    assert(cesu8_length(Seq::<char>::empty()) == 0);
}

/// A prefix never has a larger CESU-8 length than the whole.
pub proof fn lemma_cesu8_length_take(s: Seq<char>, i: int)
    requires
        0 <= i <= s.len(),
    ensures
        cesu8_length(s.take(i)) <= cesu8_length(s),
{
    assert(s =~= s.take(i) + s.subrange(i, s.len() as int));
    lemma_cesu8_length_concat(s.take(i), s.subrange(i, s.len() as int));
}

/// The CESU-8 length of a text is at most twice its UTF-8 length: every
/// character costs at most twice its UTF-8 width.
pub proof fn lemma_cesu8_length_le_double(s: Seq<char>)
    ensures
        cesu8_length(s) <= 2 * utf8_length(s),
    decreases s.len(),
{
    if s.len() != 0 {
        lemma_cesu8_length_le_double(s.drop_first());
    }
}

/// Sequences equal up to ASCII case have the same CESU-8 length.
pub proof fn lemma_cesu8_length_case(s: Seq<char>, t: Seq<char>)
    requires
        ascii_case_eq(s, t),
    ensures
        cesu8_length(t) == cesu8_length(s),
    decreases s.len(),
{
    if s.len() != 0 {
        assert(ascii_case_eq(s.drop_first(), t.drop_first()));
        lemma_cesu8_length_case(s.drop_first(), t.drop_first());
        lemma_utf8_char_len_case(s[0], t[0]);
    }
}

/// The [CESU-8](https://en.wikipedia.org/wiki/CESU-8) encoding: supplementary
/// characters (code point above U+FFFF) are re-encoded as a surrogate pair of
/// two three-byte sequences, so each costs two bytes more than in UTF-8.
#[derive(Debug)]
pub struct Cesu8;

impl Encoding for Cesu8 {
    open spec fn spec_length(s: Seq<char>) -> nat {
        cesu8_length(s)
    }

    proof fn lemma_length_empty() {
    }

    proof fn lemma_length_concat(s: Seq<char>, t: Seq<char>) {
        lemma_cesu8_length_concat(s, t);
    }

    proof fn lemma_length_ascii_case(s: Seq<char>, t: Seq<char>) {
        lemma_cesu8_length_case(s, t);
    }

    fn length(s: &str) -> (n: usize) {
        proof {
            lemma_utf8_length_bytes(s@);
        }
        let raw = crate::encoding::str_byte_len(s);
        let count = s.unicode_len();
        let mut extra: usize = 0;
        let mut i: usize = 0;
        proof {
            assert(s@.take(0) =~= Seq::<char>::empty());
            lemma_cesu8_length_le_double(s@);
        }
        while i < count
            invariant
                i <= count,
                count == s@.len(),
                cesu8_length(s@) <= usize::MAX,
                utf8_length(s@.take(i as int)) + extra == cesu8_length(s@.take(i as int)),
                extra <= cesu8_length(s@.take(i as int)),
            decreases count - i,
        {
            let c = s.get_char(i);
            proof {
                assert(s@.take(i as int + 1) =~= s@.take(i as int).push(s@[i as int]));
                lemma_utf8_length_push(s@.take(i as int), s@[i as int]);
                lemma_cesu8_length_push(s@.take(i as int), s@[i as int]);
                lemma_cesu8_length_take(s@, i as int + 1);
            }
            if c as u32 > 0xFFFF {
                extra += 2;
            }
            i += 1;
        }
        proof {
            assert(s@.take(count as int) =~= s@);
        }
        raw + extra
    }
}

} // verus!
