//! Length-bounded containers: views and owned buffers over contiguous
//! element sequences and text whose size is guaranteed never to exceed a
//! declared maximum `MAX`.
//!
//! Borrowed views ([`BSlice`], [`BStr`]) and owned buffers ([`BVec`],
//! [`BString`]) enforce the bound on every construction path, either at
//! verification time (widening) or at run time (checked construction).
//! For text, the bound applies to the logical length under a pluggable
//! [`encoding::Encoding`] strategy rather than the in-memory byte count.

mod bslice;
mod bstr;
mod bstring;
mod bvec;
mod error;

pub mod const_checks;
pub mod encoding;

pub use bslice::BSlice;
pub use bstr::BStr;
pub use bstring::BString;
pub use bvec::{
    dedup_from, last_kept, lemma_subsequence_len, lemma_subsequence_push_both,
    lemma_subsequence_push_right, spec_dedup, subsequence_of, BVec,
};
pub use error::{dec_digit, dec_rep, spec_message, LengthExceeded};
