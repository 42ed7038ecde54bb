//! The single error of the crate.
//!
//! Every runtime bound check that fails reports the observed logical length
//! and the configured maximum; there is no richer error taxonomy because the
//! only failure mode is "the candidate value's logical length exceeds the
//! ceiling".

use vstd::prelude::*;

verus! {

/// Length exceeded error: the observed logical `length` was greater than the
/// configured `maximum`.
#[derive(Debug, Clone, Copy, PartialEq, Eq, Structural)]
pub struct LengthExceeded {
    pub length: usize,
    pub maximum: usize,
}

/// The decimal digit character for `d` (meaningful for `d < 10`).
pub open spec fn dec_digit(d: nat) -> char {
    if d == 0 {
        '0'
    } else if d == 1 {
        '1'
    } else if d == 2 {
        '2'
    } else if d == 3 {
        '3'
    } else if d == 4 {
        '4'
    } else if d == 5 {
        '5'
    } else if d == 6 {
        '6'
    } else if d == 7 {
        '7'
    } else if d == 8 {
        '8'
    } else {
        '9'
    }
}

/// The decimal representation of `n`, most significant digit first, with no
/// leading zeros (a single `'0'` for zero).
pub open spec fn dec_rep(n: nat) -> Seq<char>
    decreases n,
{
    if n < 10 {
        seq![dec_digit(n)]
    } else {
        dec_rep(n / 10).push(dec_digit(n % 10))
    }
}

/// The human-readable rendering of a [`LengthExceeded`] value:
/// `"length of {length} exceeded ({maximum})"`.
pub open spec fn spec_message(e: LengthExceeded) -> Seq<char> {
    "length of "@ + dec_rep(e.length as nat) + " exceeded ("@ + dec_rep(e.maximum as nat) + ")"@
}

/// The decimal digit character for `d < 10`.
fn digit_char(d: usize) -> (c: char)
    requires
        d < 10,
    ensures
        c == dec_digit(d as nat),
{
    if d == 0 {
        '0'
    } else if d == 1 {
        '1'
    } else if d == 2 {
        '2'
    } else if d == 3 {
        '3'
    } else if d == 4 {
        '4'
    } else if d == 5 {
        '5'
    } else if d == 6 {
        '6'
    } else if d == 7 {
        '7'
    } else if d == 8 {
        '8'
    } else {
        '9'
    }
}

/// The decimal digits of `n`, most significant first.
fn to_decimal(n: usize) -> (r: Vec<char>)
    ensures
        r@ == dec_rep(n as nat),
{
    let mut rev: Vec<char> = Vec::new();
    if n == 0 {
        rev.push('0');
        assert(rev@ =~= dec_rep(0));
        return rev;
    }
    let mut cur: usize = n;
    while cur > 0
        invariant
            cur > 0 ==> dec_rep(n as nat) == dec_rep(cur as nat) + rev@.reverse(),
            cur == 0 ==> dec_rep(n as nat) == rev@.reverse(),
        decreases cur,
    {
        let d = cur % 10;
        let c = digit_char(d);
        proof {
            let prev = rev@;
            assert(prev.push(c).reverse() =~= seq![c] + prev.reverse());
            if cur >= 10 {
                assert(dec_rep(cur as nat) == dec_rep((cur / 10) as nat).push(dec_digit((cur
                    % 10) as nat)));
                assert(dec_rep((cur / 10) as nat).push(c) =~= dec_rep((cur / 10) as nat) + seq![c]);
                assert(dec_rep((cur / 10) as nat) + (seq![c] + prev.reverse()) =~= (dec_rep((cur
                    / 10) as nat) + seq![c]) + prev.reverse());
            } else {
                assert(dec_rep(cur as nat) =~= seq![c]);
            }
        }
        rev.push(c);
        cur = cur / 10;
    }
    let mut out: Vec<char> = Vec::new();
    let mut rem = rev;
    while rem.len() > 0
        invariant
            out@ + rem@.reverse() == dec_rep(n as nat),
        decreases rem@.len(),
    {
        proof {
            let r = rem@;
            assert(r.reverse() =~= seq![r.last()] + r.drop_last().reverse());
            assert((out@ + seq![r.last()]) + r.drop_last().reverse() =~= out@ + (seq![r.last()]
                + r.drop_last().reverse()));
            assert(out@.push(r.last()) =~= out@ + seq![r.last()]);
        }
        let c = rem.pop().unwrap();
        out.push(c);
    }
    proof {
        assert(out@ =~= out@ + rem@.reverse());
    }
    out
}

/// Relies on `FromIterator<char> for String` (through `Iterator::collect`):
/// the string built of exactly the given characters, in order.
#[verifier::external_body]
fn chars_to_string(v: &Vec<char>) -> (r: String)
    ensures
        r@ == v@,
{
    v.iter().collect()
}

impl LengthExceeded {
    /// The human-readable rendering `"length of {length} exceeded ({maximum})"`.
    pub fn message(&self) -> (r: String)
        ensures
            r@ == spec_message(*self),
    {
        let mut s = String::new();
        s.append("length of ");
        let d = to_decimal(self.length);
        s.append(chars_to_string(&d).as_str());
        s.append(" exceeded (");
        let m = to_decimal(self.maximum);
        s.append(chars_to_string(&m).as_str());
        s.append(")");
        proof {
            assert(s@ =~= spec_message(*self));
        }
        s
    }
}

} // verus!
