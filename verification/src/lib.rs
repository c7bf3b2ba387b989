//! A verified wordlist expansion library.
//!
//! Given a base list of words and four optional transformation lists
//! (prepend, append, swap, extension), the library produces the full,
//! deterministically ordered sequence of derived words: each base line is
//! expanded in place over a growing queue, one stage at a time, and the
//! results are handed out one word per pull.

use vstd::prelude::*;

pub mod expand;
pub mod parse;
pub mod token;
pub mod wordlist;

pub use wordlist::Wordlist;

verus! {

/// The character sequences held by a sequence of strings.
pub open spec fn views(v: Seq<String>) -> Seq<Seq<char>> {
    v.map_values(|s: String| s@)
}

} // verus!
