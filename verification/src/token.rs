//! The swap placeholder: finding it in a word and substituting it.
//!
//! A word that contains the literal placeholder token is never emitted as
//! is; each configured swap value is spliced in for every occurrence of
//! the token instead.

use vstd::prelude::*;

verus! {

/// The literal placeholder token, as a character sequence.
pub open spec fn swap_token() -> Seq<char> {
    seq!['{', 'S', 'W', 'A', 'P', '}']
}

/// The token occurs in `s` starting at position `i`.
pub open spec fn token_at(s: Seq<char>, i: int) -> bool {
    &&& 0 <= i
    &&& i + swap_token().len() <= s.len()
    &&& s.subrange(i, i + swap_token().len() as int) == swap_token()
}

/// The token occurs somewhere in `s`.
pub open spec fn has_token(s: Seq<char>) -> bool {
    exists|i: int| token_at(s, i)
}

/// `s` with every occurrence of the token replaced by `val`, scanning
/// left to right over non-overlapping occurrences.
pub open spec fn replace_token_spec(s: Seq<char>, val: Seq<char>) -> Seq<char>
    decreases s.len(),
{
    if s.len() == 0 {
        s
    } else if token_at(s, 0) {
        val + replace_token_spec(s.skip(swap_token().len() as int), val)
    } else {
        seq![s[0]] + replace_token_spec(s.skip(1), val)
    }
}

/// Whether the token occurs in `s` starting at character position `i`.
fn token_at_exec(s: &str, i: usize) -> (r: bool)
    requires
        i + 6 <= s@.len(),
        s@.len() <= usize::MAX,
    ensures
        r == token_at(s@, i as int),
{
    let r = s.get_char(i) == '{' && s.get_char(i + 1) == 'S' && s.get_char(i + 2) == 'W'
        && s.get_char(i + 3) == 'A' && s.get_char(i + 4) == 'P' && s.get_char(i + 5) == '}';
    proof {
        if r {
            assert(s@.subrange(i as int, i as int + 6) =~= swap_token());
        } else {
            if s@.subrange(i as int, i as int + 6) == swap_token() {
                assert(forall|k: int|
                    0 <= k < 6 ==> s@[i + k] == #[trigger] swap_token()[k]) by {
                    assert(forall|k: int|
                        0 <= k < 6 ==> s@[i + k] == #[trigger] s@.subrange(
                            i as int,
                            i as int + 6,
                        )[k]);
                }
                assert(s@[i as int] == '{');
                assert(s@[i as int + 1] == 'S');
                assert(s@[i as int + 2] == 'W');
                assert(s@[i as int + 3] == 'A');
                assert(s@[i as int + 4] == 'P');
                assert(s@[i as int + 5] == '}');
                assert(false);
            }
        }
    }
    r
}

/// Whether `s` contains the placeholder token.
pub fn contains_token(s: &str) -> (r: bool)
    ensures
        r == has_token(s@),
{
    let n = s.unicode_len();
    if n < 6 {
        proof {
            assert(!has_token(s@)) by {
                if has_token(s@) {
                    let j = choose|j: int| token_at(s@, j);
                    assert(j + 6 <= s@.len());
                }
            }
        }
        return false;
    }
    let mut i: usize = 0;
    while i <= n - 6
        invariant
            6 <= n,
            n == s@.len(),
            i <= n - 6 + 1,
            forall|j: int| 0 <= j < i ==> !token_at(s@, j),
        decreases n - i,
    {
        if token_at_exec(s, i) {
            return true;
        }
        i = i + 1;
    }
    proof {
        assert(!has_token(s@)) by {
            if has_token(s@) {
                let j = choose|j: int| token_at(s@, j);
                assert(j + 6 <= s@.len());
                assert(0 <= j < i);
            }
        }
    }
    false
}

/// `s` with every occurrence of the placeholder token replaced by `val`.
pub fn replace_token(s: &str, val: &str) -> (r: String)
    ensures
        r@ == replace_token_spec(s@, val@),
{
    let n = s.unicode_len();
    let mut out = String::new();
    let mut i: usize = 0;
    proof {
        assert(s@.skip(0) =~= s@);
        assert(out@ + replace_token_spec(s@, val@) =~= replace_token_spec(s@, val@));
    }
    while i < n
        invariant
            i <= n,
            n == s@.len(),
            replace_token_spec(s@, val@) == out@ + replace_token_spec(s@.skip(i as int), val@),
        decreases n - i,
    {
        let ghost tail = s@.skip(i as int);
        if n >= 6 && i <= n - 6 && token_at_exec(s, i) {
            proof {
                assert(tail.subrange(0, 6) =~= s@.subrange(i as int, i as int + 6));
                assert(token_at(tail, 0));
                assert(tail.skip(6) =~= s@.skip(i as int + 6));
            }
            out.append(val);
            i = i + 6;
        } else {
            proof {
                assert(!token_at(tail, 0)) by {
                    if token_at(tail, 0) {
                        assert(s@.subrange(i as int, i as int + 6) =~= tail.subrange(0, 6));
                    }
                }
                assert(tail.skip(1) =~= s@.skip(i as int + 1));
                assert(seq![tail[0]] =~= s@.subrange(i as int, i as int + 1));
            }
            let piece = s.substring_char(i, i + 1);
            out.append(piece);
            i = i + 1;
        }
    }
    proof {
        assert(s@.skip(n as int) =~= Seq::<char>::empty());
    }
    out
}

} // verus!
