//! Per-word expansion: the staged growing-queue algorithm.
//!
//! One base word is expanded into its permutations in four stages. The
//! swap stage seeds the queue; then the prepend, append and extension
//! stages each iterate the queue only up to the length it had when the
//! stage began, enqueueing one combination per existing entry and
//! configured string. The queue order that falls out of this discipline
//! is the required output order.

use vstd::prelude::*;

use crate::token::{has_token, replace_token_spec, contains_token, replace_token};
use crate::views;

verus! {

/// The seed entries for a base word: the word itself when it holds no
/// placeholder, else one copy per swap value with the placeholder
/// substituted. A placeholder word with no swap values seeds nothing.
pub open spec fn seed_words(w: Seq<char>, swaps: Seq<Seq<char>>) -> Seq<Seq<char>> {
    if has_token(w) {
        swaps.map_values(|v: Seq<char>| replace_token_spec(w, v))
    } else {
        seq![w]
    }
}

/// One stage of the growing queue: the existing entries, followed by one
/// combination per existing entry and added string, entries outermost.
/// `front` selects whether the added string is prefixed or suffixed.
pub open spec fn stage(entries: Seq<Seq<char>>, adds: Seq<Seq<char>>, front: bool) -> Seq<
    Seq<char>,
> {
    entries + entries.map_values(
        |e: Seq<char>| adds.map_values(|x: Seq<char>| if front { x + e } else { e + x }),
    ).flatten()
}

/// All permutations of one base word, in emission order: seed, then the
/// prepend, append and extension stages in that order.
pub open spec fn expand_word(
    w: Seq<char>,
    prepends: Seq<Seq<char>>,
    appends: Seq<Seq<char>>,
    swaps: Seq<Seq<char>>,
    extensions: Seq<Seq<char>>,
) -> Seq<Seq<char>> {
    stage(stage(stage(seed_words(w, swaps), prepends, true), appends, false), extensions, false)
}

/// Enqueues the seed entries for `w` onto `buf`.
#[verifier::loop_isolation(false)]
pub fn push_seeds(buf: &mut Vec<String>, w: &String, swaps: &Vec<String>)
    ensures
        views(final(buf)@) == views(old(buf)@) + seed_words(w@, views(swaps@)),
{
    let ghost prior = views(old(buf)@);
    if contains_token(w.as_str()) {
        let ghost f = |v: Seq<char>| replace_token_spec(w@, v);
        let mut k: usize = 0;
        while k < swaps.len()
            invariant
                k <= swaps.len(),
                views(buf@) == prior + views(swaps@).subrange(0, k as int).map_values(f),
            decreases swaps.len() - k,
        {
            let ghost before = views(buf@);
            let subst = replace_token(w.as_str(), swaps[k].as_str());
            buf.push(subst);
            proof {
                assert(views(buf@) =~= before.push(f(views(swaps@)[k as int])));
                assert(views(swaps@).subrange(0, k as int + 1).map_values(f) =~= views(
                    swaps@,
                ).subrange(0, k as int).map_values(f).push(f(views(swaps@)[k as int])));
                assert(views(buf@) =~= prior + views(swaps@).subrange(0, k as int + 1).map_values(
                    f,
                ));
            }
            k = k + 1;
        }
        proof {
            assert(views(swaps@).subrange(0, swaps@.len() as int) =~= views(swaps@));
            assert(views(buf@) =~= prior + seed_words(w@, views(swaps@)));
        }
    } else {
        let entry = w.clone();
        buf.push(entry);
        proof {
            assert(views(buf@) =~= prior + seq![w@]);
        }
    }
}

/// Runs one stage over `buf`: iterates the entries present when the stage
/// begins and enqueues, for each, one combination per string in `adds`
/// (prefixed when `front` is true, suffixed otherwise).
#[verifier::loop_isolation(false)]
pub fn apply_stage(buf: &mut Vec<String>, adds: &Vec<String>, front: bool)
    ensures
        views(final(buf)@) == stage(views(old(buf)@), views(adds@), front),
{
    let ghost entries = views(old(buf)@);
    let ghost g = |e: Seq<char>| views(adds@).map_values(
        |x: Seq<char>| if front { x + e } else { e + x },
    );
    let stop = buf.len();
    let mut i: usize = 0;
    proof {
        assert(entries.subrange(0, 0).map_values(g).flatten() =~= Seq::<Seq<char>>::empty());
        assert(views(buf@) =~= entries + entries.subrange(0, 0).map_values(g).flatten());
    }
    while i < stop
        invariant
            i <= stop,
            stop == entries.len(),
            buf@.len() >= stop,
            views(buf@).subrange(0, stop as int) == entries,
            views(buf@) == entries + entries.subrange(0, i as int).map_values(g).flatten(),
        decreases stop - i,
    {
        let ghost e = entries[i as int];
        let ghost block_prior = views(buf@);
        let ghost h = |x: Seq<char>| if front { x + e } else { e + x };
        let mut j: usize = 0;
        proof {
            assert(views(adds@).subrange(0, 0).map_values(h) =~= Seq::<Seq<char>>::empty());
            assert(views(buf@) =~= block_prior + views(adds@).subrange(0, 0).map_values(h));
        }
        while j < adds.len()
            invariant
                j <= adds.len(),
                i < stop,
                stop == entries.len(),
                buf@.len() >= stop,
                views(buf@).subrange(0, stop as int) == entries,
                e == entries[i as int],
                views(buf@) == block_prior + views(adds@).subrange(0, j as int).map_values(h),
            decreases adds@.len() - j,
        {
            let ghost before = views(buf@);
            let combined = if front {
                adds[j].clone().concat(buf[i].as_str())
            } else {
                buf[i].clone().concat(adds[j].as_str())
            };
            proof {
                assert(views(buf@)[i as int] == entries[i as int]);
                assert(combined@ == h(views(adds@)[j as int]));
            }
            buf.push(combined);
            proof {
                assert(views(buf@) =~= before.push(h(views(adds@)[j as int])));
                assert(views(adds@).subrange(0, j as int + 1).map_values(h) =~= views(
                    adds@,
                ).subrange(0, j as int).map_values(h).push(h(views(adds@)[j as int])));
                assert(views(buf@) =~= block_prior + views(adds@).subrange(0, j as int + 1)
                    .map_values(h));
                assert(views(buf@).subrange(0, stop as int) =~= before.subrange(0, stop as int));
            }
            j = j + 1;
        }
        proof {
            assert(views(adds@).subrange(0, adds@.len() as int) =~= views(adds@));
            assert(g(e) == views(adds@).map_values(h));
            assert(entries.subrange(0, i as int + 1).map_values(g) =~= entries.subrange(
                0,
                i as int,
            ).map_values(g).push(g(e)));
            assert(entries.subrange(0, i as int + 1).map_values(g).flatten() == entries.subrange(
                0,
                i as int,
            ).map_values(g).flatten() + g(e)) by {
                entries.subrange(0, i as int).map_values(g).lemma_flatten_push(g(e));
            }
            assert(views(buf@) =~= entries + entries.subrange(0, i as int + 1).map_values(
                g,
            ).flatten());
        }
        i = i + 1;
    }
    proof {
        assert(entries.subrange(0, stop as int) =~= entries);
        assert(views(buf@) =~= stage(entries, views(adds@), front));
    }
}

/// A flattening yields nothing when every inner sequence is empty.
proof fn lemma_flatten_of_empties<A>(s: Seq<Seq<A>>)
    requires
        forall|i: int| 0 <= i < s.len() ==> #[trigger] s[i].len() == 0,
    ensures
        s.flatten().len() == 0,
    decreases s.len(),
{
    if s.len() > 0 {
        assert(s.first().len() == 0);
        assert(forall|i: int|
            0 <= i < s.drop_first().len() ==> #[trigger] s.drop_first()[i].len() == 0);
        lemma_flatten_of_empties(s.drop_first());
    }
}

/// A stage with no configured strings is a no-op: the queue is unchanged.
pub proof fn lemma_stage_empty(entries: Seq<Seq<char>>, front: bool)
    ensures
        stage(entries, Seq::empty(), front) == entries,
{
    let g = |e: Seq<char>| Seq::<Seq<char>>::empty().map_values(
        |x: Seq<char>| if front { x + e } else { e + x },
    );
    assert(forall|i: int|
        0 <= i < entries.map_values(g).len() ==> #[trigger] entries.map_values(g)[i].len() == 0);
    lemma_flatten_of_empties(entries.map_values(g));
    assert(stage(entries, Seq::empty(), front) =~= entries);
}

/// A stage applied to an empty queue leaves it empty.
pub proof fn lemma_stage_of_empty(adds: Seq<Seq<char>>, front: bool)
    ensures
        stage(Seq::empty(), adds, front) == Seq::<Seq<char>>::empty(),
{
    let entries = Seq::<Seq<char>>::empty();
    let g = |e: Seq<char>| adds.map_values(|x: Seq<char>| if front { x + e } else { e + x });
    assert(entries.map_values(g) =~= Seq::<Seq<Seq<char>>>::empty());
    assert(stage(entries, adds, front) =~= Seq::<Seq<char>>::empty());
}

/// A word with no placeholder, expanded with all four transformation
/// lists empty, yields exactly one permutation: the word itself.
pub proof fn lemma_identity_expansion(w: Seq<char>)
    requires
        !has_token(w),
    ensures
        expand_word(w, Seq::empty(), Seq::empty(), Seq::empty(), Seq::empty()) == seq![w],
{
    assert(seed_words(w, Seq::empty()) == seq![w]);
    lemma_stage_empty(seq![w], true);
    lemma_stage_empty(seq![w], false);
}

/// A word that holds the placeholder contributes no permutation at all
/// when the swap list is empty, whatever the other lists hold: the empty
/// seed leaves every later stage nothing to combine with.
pub proof fn lemma_dropped_placeholder(
    w: Seq<char>,
    prepends: Seq<Seq<char>>,
    appends: Seq<Seq<char>>,
    extensions: Seq<Seq<char>>,
)
    requires
        has_token(w),
    ensures
        expand_word(w, prepends, appends, Seq::empty(), extensions) == Seq::<Seq<char>>::empty(),
{
    assert(seed_words(w, Seq::empty()) =~= Seq::<Seq<char>>::empty());
    lemma_stage_of_empty(prepends, true);
    lemma_stage_of_empty(appends, false);
    lemma_stage_of_empty(extensions, false);
}

/// Expands one already-trimmed base word into `buf`, which must be empty:
/// after the call `buf` holds exactly the word's permutations, in order.
pub fn expand_into(
    buf: &mut Vec<String>,
    w: &String,
    prepends: &Vec<String>,
    appends: &Vec<String>,
    swaps: &Vec<String>,
    extensions: &Vec<String>,
)
    requires
        old(buf)@.len() == 0,
    ensures
        views(final(buf)@) == expand_word(
            w@,
            views(prepends@),
            views(appends@),
            views(swaps@),
            views(extensions@),
        ),
{
    proof {
        assert(views(buf@) =~= Seq::<Seq<char>>::empty());
    }
    push_seeds(buf, w, swaps);
    proof {
        assert(views(buf@) =~= seed_words(w@, views(swaps@)));
    }
    apply_stage(buf, prepends, true);
    apply_stage(buf, appends, false);
    apply_stage(buf, extensions, false);
}

} // verus!
