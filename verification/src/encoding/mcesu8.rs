//! The Modified CESU-8 encoding.

use vstd::prelude::*;
use vstd::string::StrSliceExecFns;

use crate::encoding::{ascii_case_eq, Encoding};
use crate::encoding::cesu8::cesu8_char_len;
use crate::encoding::utf8::{
    lemma_utf8_char_len_case, lemma_utf8_length_bytes, lemma_utf8_length_push, utf8_length,
};

verus! {

/// The number of bytes the Modified CESU-8 encoding of `c` occupies: as in
/// CESU-8, except that NUL is written as the two-byte sequence `C0 80`.
pub open spec fn mcesu8_char_len(c: char) -> nat {
    if c as u32 == 0 {
        2
    } else {
        cesu8_char_len(c)
    }
}

/// The total Modified CESU-8 byte length of a character sequence.
pub open spec fn mcesu8_length(s: Seq<char>) -> nat
    decreases s.len(),
{
    if s.len() == 0 {
        0
    } else {
        mcesu8_char_len(s[0]) + mcesu8_length(s.drop_first())
    }
}

/// Modified CESU-8 length is additive over concatenation.
pub proof fn lemma_mcesu8_length_concat(s: Seq<char>, t: Seq<char>)
    ensures
        mcesu8_length(s + t) == mcesu8_length(s) + mcesu8_length(t),
    decreases s.len(),
{
    if s.len() == 0 {
        assert(s + t =~= t);
    } else {
        assert((s + t).drop_first() =~= s.drop_first() + t);
        lemma_mcesu8_length_concat(s.drop_first(), t);
    }
}

/// Appending one character adds exactly that character's width.
pub proof fn lemma_mcesu8_length_push(s: Seq<char>, c: char)
    ensures
        mcesu8_length(s.push(c)) == mcesu8_length(s) + mcesu8_char_len(c),
{
    assert(s.push(c) =~= s + seq![c]);
    lemma_mcesu8_length_concat(s, seq![c]);
    assert(seq![c].drop_first() =~= Seq::<char>::empty());
    assert(mcesu8_length(seq![c]) == mcesu8_char_len(c) + mcesu8_length(seq![c].drop_first()));
    assert(mcesu8_length(Seq::<char>::empty()) == 0);
}

/// A prefix never has a larger Modified CESU-8 length than the whole.
pub proof fn lemma_mcesu8_length_take(s: Seq<char>, i: int)
    requires
        0 <= i <= s.len(),
    ensures
        mcesu8_length(s.take(i)) <= mcesu8_length(s),
{
    assert(s =~= s.take(i) + s.subrange(i, s.len() as int));
    lemma_mcesu8_length_concat(s.take(i), s.subrange(i, s.len() as int));
}

/// The Modified CESU-8 length of a text is at most twice its UTF-8 length:
/// every character costs at most twice its UTF-8 width.
pub proof fn lemma_mcesu8_length_le_double(s: Seq<char>)
    ensures
        mcesu8_length(s) <= 2 * utf8_length(s),
    decreases s.len(),
{
    if s.len() != 0 {
        lemma_mcesu8_length_le_double(s.drop_first());
    }
}

/// Sequences equal up to ASCII case have the same Modified CESU-8 length.
pub proof fn lemma_mcesu8_length_case(s: Seq<char>, t: Seq<char>)
    requires
        ascii_case_eq(s, t),
    ensures
        mcesu8_length(t) == mcesu8_length(s),
    decreases s.len(),
{
    if s.len() != 0 {
        assert(ascii_case_eq(s.drop_first(), t.drop_first()));
        lemma_mcesu8_length_case(s.drop_first(), t.drop_first());
        lemma_utf8_char_len_case(s[0], t[0]);
    }
}

/// The [Modified CESU-8](https://en.wikipedia.org/wiki/CESU-8) encoding: as
/// CESU-8, but NUL is encoded as `C0 80` (one byte more than in UTF-8).
#[derive(Debug)]
pub struct MCesu8;

impl Encoding for MCesu8 {
    open spec fn spec_length(s: Seq<char>) -> nat {
        mcesu8_length(s)
    }

    proof fn lemma_length_empty() {
    }

    proof fn lemma_length_concat(s: Seq<char>, t: Seq<char>) {
        lemma_mcesu8_length_concat(s, t);
    }

    proof fn lemma_length_ascii_case(s: Seq<char>, t: Seq<char>) {
        lemma_mcesu8_length_case(s, t);
    }

    fn length(s: &str) -> (n: usize) {
        proof {
            lemma_utf8_length_bytes(s@);
        }
        let raw = crate::encoding::str_byte_len(s);
        let count = s.unicode_len();
        let mut extra: usize = 0;
        let mut i: usize = 0;
        proof {
            assert(s@.take(0) =~= Seq::<char>::empty());
            lemma_mcesu8_length_le_double(s@);
        }
        while i < count
            invariant
                i <= count,
                count == s@.len(),
                mcesu8_length(s@) <= usize::MAX,
                utf8_length(s@.take(i as int)) + extra == mcesu8_length(s@.take(i as int)),
                extra <= mcesu8_length(s@.take(i as int)),
            decreases count - i,
        {
            let c = s.get_char(i);
            proof {
                assert(s@.take(i as int + 1) =~= s@.take(i as int).push(s@[i as int]));
                lemma_utf8_length_push(s@.take(i as int), s@[i as int]);
                lemma_mcesu8_length_push(s@.take(i as int), s@[i as int]);
                lemma_mcesu8_length_take(s@, i as int + 1);
            }
            if c as u32 == 0 {
                extra += 1;
            } else if c as u32 > 0xFFFF {
                extra += 2;
            }
            i += 1;
        }
        proof {
            assert(s@.take(count as int) =~= s@);
        }
        raw + extra
    }
}

} // verus!
