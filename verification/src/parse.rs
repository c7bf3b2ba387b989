//! Splitting comma-separated option text into transformation lists.
//!
//! The split is faithful: no trimming, no deduplication, and adjacent or
//! trailing commas yield empty segments. An absent option yields an empty
//! list.

use vstd::prelude::*;

use crate::views;

verus! {

/// Splits `s` on commas, with `cur` holding the characters of the field
/// read so far. Every comma ends a field, so `n` commas yield `n + 1`
/// fields.
pub open spec fn split_commas_from(s: Seq<char>, cur: Seq<char>) -> Seq<Seq<char>>
    decreases s.len(),
{
    if s.len() == 0 {
        seq![cur]
    } else if s[0] == ',' {
        seq![cur] + split_commas_from(s.skip(1), Seq::empty())
    } else {
        split_commas_from(s.skip(1), cur.push(s[0]))
    }
}

/// The fields of `s`, split strictly on the comma character.
pub open spec fn split_commas(s: Seq<char>) -> Seq<Seq<char>> {
    split_commas_from(s, Seq::empty())
}

/// The list an optional comma-separated option denotes: absent means empty.
pub open spec fn list_of_option(o: Option<String>) -> Seq<Seq<char>> {
    match o {
        Some(s) => split_commas(s@),
        None => Seq::empty(),
    }
}

/// Splits `s` strictly on commas, keeping empty segments.
pub fn split_commas_exec(s: &str) -> (r: Vec<String>)
    ensures
        views(r@) == split_commas(s@),
{
    let n = s.unicode_len();
    let mut out: Vec<String> = Vec::new();
    let mut cur = String::new();
    let mut i: usize = 0;
    proof {
        assert(s@.skip(0) =~= s@);
        assert(views(out@) =~= Seq::<Seq<char>>::empty());
        assert(views(out@) + split_commas_from(s@, cur@) =~= split_commas_from(s@, cur@));
    }
    while i < n
        invariant
            i <= n,
            n == s@.len(),
            split_commas(s@) == views(out@) + split_commas_from(s@.skip(i as int), cur@),
        decreases n - i,
    {
        let c = s.get_char(i);
        proof {
            assert(s@.skip(i as int).skip(1) =~= s@.skip(i as int + 1));
        }
        if c == ',' {
            let ghost prior = out@;
            let ghost field = cur@;
            out.push(cur);
            cur = String::new();
            proof {
                assert(views(out@) =~= views(prior).push(field));
                assert(views(prior).push(field) =~= views(prior) + seq![field]);
                assert(views(out@) + split_commas_from(s@.skip(i as int + 1), Seq::empty())
                    =~= views(prior) + (seq![field] + split_commas_from(
                    s@.skip(i as int + 1),
                    Seq::empty(),
                )));
            }
        } else {
            let ghost field = cur@;
            let piece = s.substring_char(i, i + 1);
            cur.append(piece);
            proof {
                assert(cur@ =~= field.push(c));
            }
        }
        i = i + 1;
    }
    proof {
        assert(s@.skip(n as int) =~= Seq::<char>::empty());
    }
    let ghost prior = out@;
    let ghost field = cur@;
    out.push(cur);
    proof {
        assert(views(out@) =~= views(prior).push(field));
        assert(views(prior).push(field) =~= views(prior) + seq![field]);
    }
    out
}

/// Splits an optional comma-separated option into its list; absent means
/// the empty list.
pub fn parse_list(o: Option<String>) -> (r: Vec<String>)
    ensures
        views(r@) == list_of_option(o),
{
    match o {
        Some(s) => split_commas_exec(s.as_str()),
        None => Vec::new(),
    }
}

} // verus!
