//! The expansion engine: a single-pass, pull-based word stream.
//!
//! A `Wordlist` owns the raw input lines, the four transformation lists
//! and a pending-output buffer. Each pull hands out one permutation; when
//! the buffer runs dry the next base line is read, trimmed and expanded.
//! All permutations of one line are emitted contiguously, in line order.

use vstd::prelude::*;

use crate::expand::{expand_word, expand_into};
use crate::parse::{list_of_option, parse_list};
use crate::views;

verus! {

/// `s` with one trailing line terminator removed: a final linefeed goes,
/// and a carriage return directly before it goes with it.
pub open spec fn trim_spec(s: Seq<char>) -> Seq<char> {
    if s.len() >= 1 && s[s.len() - 1] == '\n' {
        if s.len() >= 2 && s[s.len() - 2] == '\r' {
            s.take(s.len() - 2)
        } else {
            s.take(s.len() - 1)
        }
    } else {
        s
    }
}

/// Removes a trailing linefeed from `s`, along with a carriage return
/// directly before it. Anything else is left untouched.
pub fn trim_newline(s: &mut String)
    ensures
        final(s)@ == trim_spec(old(s)@),
{
    let n = s.as_str().unicode_len();
    if n >= 1 && s.as_str().get_char(n - 1) == '\n' {
        if n >= 2 && s.as_str().get_char(n - 2) == '\r' {
            let t = s.as_str().substring_char(0, n - 2).to_owned();
            *s = t;
        } else {
            let t = s.as_str().substring_char(0, n - 1).to_owned();
            *s = t;
        }
    }
}

/// How many of the given lines are newline-terminated.
pub open spec fn count_terminated(lines: Seq<Seq<char>>) -> nat
    decreases lines.len(),
{
    if lines.len() == 0 {
        0
    } else {
        count_terminated(lines.drop_last()) + (if lines.last().len() > 0 && lines.last().last()
            == '\n' {
            1nat
        } else {
            0nat
        })
    }
}

/// Counts the newline-terminated entries of `lines`, as a line count of
/// the input they were read from.
#[verifier::loop_isolation(false)]
pub fn count_lines(lines: &Vec<String>) -> (n: usize)
    ensures
        n == count_terminated(views(lines@)),
{
    let mut count: usize = 0;
    let mut i: usize = 0;
    proof {
        assert(views(lines@).subrange(0, 0) =~= Seq::<Seq<char>>::empty());
    }
    while i < lines.len()
        invariant
            i <= lines@.len(),
            count <= i,
            count == count_terminated(views(lines@).subrange(0, i as int)),
        decreases lines@.len() - i,
    {
        let m = lines[i].as_str().unicode_len();
        if m >= 1 && lines[i].as_str().get_char(m - 1) == '\n' {
            count = count + 1;
        }
        proof {
            assert(views(lines@).subrange(0, i as int + 1).drop_last() =~= views(
                lines@,
            ).subrange(0, i as int));
            assert(views(lines@).subrange(0, i as int + 1).last() == lines@[i as int]@);
        }
        i = i + 1;
    }
    proof {
        assert(views(lines@).subrange(0, lines@.len() as int) =~= views(lines@));
    }
    count
}

/// The permutations of one raw line: the line is trimmed, then expanded
/// through the swap, prepend, append and extension stages.
pub open spec fn line_output(
    l: Seq<char>,
    prepends: Seq<Seq<char>>,
    appends: Seq<Seq<char>>,
    swaps: Seq<Seq<char>>,
    extensions: Seq<Seq<char>>,
) -> Seq<Seq<char>> {
    expand_word(trim_spec(l), prepends, appends, swaps, extensions)
}

/// The full output stream for the given raw lines: each line's
/// permutation block, in line order.
pub open spec fn run_output(
    lines: Seq<Seq<char>>,
    prepends: Seq<Seq<char>>,
    appends: Seq<Seq<char>>,
    swaps: Seq<Seq<char>>,
    extensions: Seq<Seq<char>>,
) -> Seq<Seq<char>> {
    lines.map_values(|l: Seq<char>| line_output(l, prepends, appends, swaps, extensions)).flatten()
}

/// Line order is kept: the output for any prefix of the lines stands,
/// unbroken, before the output for the remaining lines. In particular
/// every permutation of a line is emitted before any permutation of a
/// later line.
pub proof fn lemma_line_order(
    lines: Seq<Seq<char>>,
    n: int,
    prepends: Seq<Seq<char>>,
    appends: Seq<Seq<char>>,
    swaps: Seq<Seq<char>>,
    extensions: Seq<Seq<char>>,
)
    requires
        0 <= n <= lines.len(),
    ensures
        run_output(lines, prepends, appends, swaps, extensions) == run_output(
            lines.take(n),
            prepends,
            appends,
            swaps,
            extensions,
        ) + run_output(lines.skip(n), prepends, appends, swaps, extensions),
{
    let f = |l: Seq<char>| line_output(l, prepends, appends, swaps, extensions);
    assert(lines.map_values(f) =~= lines.take(n).map_values(f) + lines.skip(n).map_values(f));
    vstd::seq_lib::lemma_flatten_concat(lines.take(n).map_values(f), lines.skip(n).map_values(f));
}

/// The engine is deterministic: two engines over equal lines, equal
/// transformation lists and in the same position have the same upcoming
/// output, character for character.
pub proof fn lemma_deterministic(a: Wordlist, b: Wordlist)
    requires
        a.wf(),
        b.wf(),
        views(a.lines@) == views(b.lines@),
        a.cursor == b.cursor,
        a.pending() == b.pending(),
        views(a.prepend@) == views(b.prepend@),
        views(a.append@) == views(b.append@),
        views(a.swap@) == views(b.swap@),
        views(a.extensions@) == views(b.extensions@),
    ensures
        a.upcoming() == b.upcoming(),
{
    let c = a.cursor as int;
    assert(a.lines@.len() == views(a.lines@).len());
    assert(b.lines@.len() == views(b.lines@).len());
    assert(views(a.lines@.skip(c)) =~= views(b.lines@.skip(c))) by {
        assert(forall|i: int|
            0 <= i < a.lines@.skip(c).len() ==> #[trigger] views(a.lines@.skip(c))[i] == views(
                a.lines@,
            )[c + i]);
        assert(forall|i: int|
            0 <= i < b.lines@.skip(c).len() ==> #[trigger] views(b.lines@.skip(c))[i] == views(
                b.lines@,
            )[c + i]);
    }
}

/// `n` clamped to what a `usize` can hold.
pub open spec fn clamped(n: nat) -> nat {
    if n > usize::MAX {
        usize::MAX as nat
    } else {
        n
    }
}

/// The documented rough size estimate: the base count, plus one derived
/// word per base line and prepend, append or extension string. Swap and
/// combined permutations are deliberately left out.
pub open spec fn size_estimate(base: nat, n_pre: nat, n_app: nat, n_ext: nat) -> nat {
    base + base * n_pre + base * n_app + base * n_ext
}

/// The expansion engine: a stateful, single-pass producer of permutations.
pub struct Wordlist {
    /// The raw input lines, line terminators included.
    pub lines: Vec<String>,
    /// The next line to expand.
    pub cursor: usize,
    /// How many input lines were newline-terminated.
    pub base_count: usize,
    /// The rough pre-expansion size estimate, clamped to `usize`.
    pub total_count: usize,
    /// Strings prefixed onto each entry.
    pub prepend: Vec<String>,
    /// Strings suffixed onto each entry.
    pub append: Vec<String>,
    /// Replacement values for the swap placeholder.
    pub swap: Vec<String>,
    /// Suffixes applied after the append stage.
    pub extensions: Vec<String>,
    /// Not-yet-emitted permutations of the current base line.
    pub word_perms: Vec<String>,
    /// The front of the pending buffer: entries before it are emitted.
    pub head: usize,
}

impl Wordlist {
    /// The engine's cursors stay inside their buffers.
    pub open spec fn wf(self) -> bool {
        &&& self.head <= self.word_perms@.len()
        &&& self.cursor <= self.lines@.len()
    }

    /// The pending permutations of the current base line, oldest first.
    pub open spec fn pending(self) -> Seq<Seq<char>> {
        views(self.word_perms@).skip(self.head as int)
    }

    /// Everything the engine has yet to emit: the pending buffer, then
    /// the permutation blocks of all unread lines.
    pub open spec fn upcoming(self) -> Seq<Seq<char>> {
        self.pending() + run_output(
            views(self.lines@.skip(self.cursor as int)),
            views(self.prepend@),
            views(self.append@),
            views(self.swap@),
            views(self.extensions@),
        )
    }

    /// Builds an engine over the given raw lines. Each optional option
    /// string is split on commas into its transformation list; an absent
    /// option contributes nothing. The line count and the rough size
    /// estimate are computed once, up front.
    pub fn new(
        lines: Vec<String>,
        prepend: Option<String>,
        append: Option<String>,
        swap: Option<String>,
        extensions: Option<String>,
    ) -> (wl: Wordlist)
        ensures
            wl.wf(),
            wl.lines@ == lines@,
            wl.cursor == 0,
            wl.head == 0,
            wl.word_perms@.len() == 0,
            views(wl.prepend@) == list_of_option(prepend),
            views(wl.append@) == list_of_option(append),
            views(wl.swap@) == list_of_option(swap),
            views(wl.extensions@) == list_of_option(extensions),
            wl.base_count == count_terminated(views(lines@)),
            wl.total_count == clamped(
                size_estimate(
                    count_terminated(views(lines@)),
                    list_of_option(prepend).len(),
                    list_of_option(append).len(),
                    list_of_option(extensions).len(),
                ),
            ),
            wl.upcoming() == run_output(
                views(lines@),
                list_of_option(prepend),
                list_of_option(append),
                list_of_option(swap),
                list_of_option(extensions),
            ),
    {
        let pre_strs = parse_list(prepend);
        let app_strs = parse_list(append);
        let ext_strs = parse_list(extensions);
        let swap_strs = parse_list(swap);
        let word_count = count_lines(&lines);
        let pre_total = word_count.checked_mul(pre_strs.len()).unwrap_or(usize::MAX);
        let app_total = word_count.checked_mul(app_strs.len()).unwrap_or(usize::MAX);
        let ext_total = word_count.checked_mul(ext_strs.len()).unwrap_or(usize::MAX);
        let total = word_count.saturating_add(pre_total).saturating_add(app_total).saturating_add(
            ext_total,
        );
        let wl = Wordlist {
            lines,
            cursor: 0,
            base_count: word_count,
            total_count: total,
            prepend: pre_strs,
            append: app_strs,
            swap: swap_strs,
            extensions: ext_strs,
            word_perms: Vec::new(),
            head: 0,
        };
        proof {
            assert(wl.pending() =~= Seq::<Seq<char>>::empty());
            assert(wl.lines@.skip(0) =~= wl.lines@);
            assert(wl.upcoming() =~= run_output(
                views(lines@),
                list_of_option(prepend),
                list_of_option(append),
                list_of_option(swap),
                list_of_option(extensions),
            ));
        }
        wl
    }

    /// Produces the next permutation, or `None` once the pending buffer
    /// and the line source are both exhausted. While the buffer is empty
    /// and lines remain, the next line is trimmed and expanded; a line
    /// whose expansion is empty is passed over.
    #[verifier::loop_isolation(false)]
    pub fn next(&mut self) -> (r: Option<String>)
        requires
            old(self).wf(),
        ensures
            final(self).wf(),
            final(self).lines@ == old(self).lines@,
            final(self).prepend@ == old(self).prepend@,
            final(self).append@ == old(self).append@,
            final(self).swap@ == old(self).swap@,
            final(self).extensions@ == old(self).extensions@,
            final(self).base_count == old(self).base_count,
            final(self).total_count == old(self).total_count,
            match r {
                Some(w) => old(self).upcoming().len() > 0 && w@ == old(self).upcoming()[0]
                    && final(self).upcoming() == old(self).upcoming().skip(1),
                None => old(self).upcoming().len() == 0 && final(self).upcoming().len() == 0,
            },
    {
        while self.head == self.word_perms.len() && self.cursor < self.lines.len()
            invariant
                self.wf(),
                self.lines@ == old(self).lines@,
                self.prepend@ == old(self).prepend@,
                self.append@ == old(self).append@,
                self.swap@ == old(self).swap@,
                self.extensions@ == old(self).extensions@,
                self.base_count == old(self).base_count,
                self.total_count == old(self).total_count,
                self.upcoming() == old(self).upcoming(),
            decreases self.lines@.len() - self.cursor,
        {
            let ghost prior = *self;
            proof {
                assert(prior.pending() =~= Seq::<Seq<char>>::empty());
            }
            self.word_perms.clear();
            self.head = 0;
            let mut w = self.lines[self.cursor].clone();
            self.cursor = self.cursor + 1;
            trim_newline(&mut w);
            expand_into(
                &mut self.word_perms,
                &w,
                &self.prepend,
                &self.append,
                &self.swap,
                &self.extensions,
            );
            proof {
                let pre = views(self.prepend@);
                let app = views(self.append@);
                let sw = views(self.swap@);
                let ext = views(self.extensions@);
                let f = |l: Seq<char>| line_output(l, pre, app, sw, ext);
                let tail = views(prior.lines@.skip(prior.cursor as int));
                assert(self.pending() =~= views(self.word_perms@));
                assert(self.pending() == f(prior.lines@[prior.cursor as int]@));
                assert(tail.map_values(f).len() > 0);
                assert(tail.map_values(f).flatten() == tail.map_values(f).first() + tail.map_values(
                    f,
                ).drop_first().flatten());
                assert(tail.map_values(f).first() == f(prior.lines@[prior.cursor as int]@));
                assert(tail.map_values(f).drop_first() =~= views(
                    self.lines@.skip(self.cursor as int),
                ).map_values(f));
                assert(self.upcoming() =~= prior.upcoming());
            }
        }
        if self.head < self.word_perms.len() {
            let ghost prior = *self;
            let w = self.word_perms[self.head].clone();
            self.head = self.head + 1;
            proof {
                assert(prior.pending().len() > 0);
                assert(w@ == prior.pending()[0]);
                assert(prior.upcoming()[0] == prior.pending()[0]);
                assert(self.pending() =~= prior.pending().skip(1));
                assert(self.upcoming() =~= prior.upcoming().skip(1));
            }
            Some(w)
        } else {
            proof {
                assert(self.pending() =~= Seq::<Seq<char>>::empty());
                assert(self.lines@.skip(self.cursor as int) =~= Seq::<String>::empty());
                assert(views(self.lines@.skip(self.cursor as int)).map_values(
                    |l: Seq<char>| line_output(
                        l,
                        views(self.prepend@),
                        views(self.append@),
                        views(self.swap@),
                        views(self.extensions@),
                    ),
                ) =~= Seq::<Seq<Seq<char>>>::empty());
                assert(self.upcoming().len() == 0);
            }
            None
        }
    }

    /// Drains the engine: pulls until exhaustion and returns every
    /// remaining permutation, in emission order.
    pub fn collect_remaining(&mut self) -> (out: Vec<String>)
        requires
            old(self).wf(),
        ensures
            final(self).wf(),
            views(out@) == old(self).upcoming(),
            final(self).upcoming().len() == 0,
    {
        let ghost start = old(self).upcoming();
        let mut out: Vec<String> = Vec::new();
        proof {
            assert(views(out@) =~= Seq::<Seq<char>>::empty());
            assert(views(out@) + self.upcoming() =~= self.upcoming());
        }
        loop
            invariant_except_break
                self.wf(),
                views(out@) + self.upcoming() == start,
            ensures
                self.wf(),
                views(out@) == start,
                self.upcoming().len() == 0,
            decreases self.upcoming().len(),
        {
            let ghost held = views(out@);
            let ghost before = self.upcoming();
            let r = self.next();
            match r {
                Some(w) => {
                    out.push(w);
                    proof {
                        assert(views(out@) =~= held.push(w@));
                        assert(held.push(before[0]) + before.skip(1) =~= held + before);
                    }
                },
                None => {
                    proof {
                        assert(views(out@) + self.upcoming() =~= views(out@));
                    }
                    break ;
                },
            }
        }
        out
    }
}

} // verus!
