//! The statistics aggregator: wins, games, attempts spent on wins,
//! and how often each guess word was used, with a ranked report of
//! the five favourite words.
//!
//! Ranking entries carry the negated use count, so the order "count
//! descending, then word ascending" is the plain pair order used
//! here.

use vstd::prelude::*;
use crate::word::str_eq;

verus! {

/// Strict lexicographic order on words, by code point.
pub open spec fn lex_lt(a: Seq<char>, b: Seq<char>) -> bool
    decreases a.len(),
{
    if b.len() == 0 {
        false
    } else if a.len() == 0 {
        true
    } else if a[0] != b[0] {
        (a[0] as u32) < (b[0] as u32)
    } else {
        lex_lt(a.drop_first(), b.drop_first())
    }
}

/// The ranking order: lower count field first, ties by word.
pub open spec fn entry_le(a: (int, Seq<char>), b: (int, Seq<char>)) -> bool {
    a.0 < b.0 || (a.0 == b.0 && (a.1 == b.1 || lex_lt(a.1, b.1)))
}

/// How the lexicographic order is decided once the first `i`
/// characters are known to agree.
proof fn lemma_lex_at(a: Seq<char>, b: Seq<char>, i: int)
    requires
        0 <= i <= a.len(),
        i <= b.len(),
        forall|j: int| 0 <= j < i ==> a[j] == b[j],
    ensures
        i < a.len() && i < b.len() && a[i] != b[i] ==> lex_lt(a, b) == ((a[i] as u32) < (
        b[i] as u32)),
        i == a.len() && i < b.len() ==> lex_lt(a, b),
        i == b.len() ==> !lex_lt(a, b),
    decreases i,
{
    if i > 0 {
        lemma_lex_at(a.drop_first(), b.drop_first(), i - 1);
        assert(forall|j: int|
            0 <= j < i - 1 ==> #[trigger] a.drop_first()[j] == a[j + 1] && b.drop_first()[j] == b[j
                + 1]);
    }
}

/// Any two words are ordered, or equal.
proof fn lemma_lex_trichotomy(a: Seq<char>, b: Seq<char>)
    ensures
        lex_lt(a, b) || lex_lt(b, a) || a == b,
    decreases a.len(),
{
    if a.len() == 0 && b.len() == 0 {
        assert(a =~= b);
    } else if a.len() > 0 && b.len() > 0 {
        if a[0] == b[0] {
            lemma_lex_trichotomy(a.drop_first(), b.drop_first());
            if a.drop_first() == b.drop_first() {
                assert(forall|j: int|
                    1 <= j < a.len() ==> #[trigger] a[j] == a.drop_first()[j - 1]);
                assert(forall|j: int|
                    1 <= j < b.len() ==> #[trigger] b[j] == b.drop_first()[j - 1]);
                assert(a.drop_first().len() == b.drop_first().len());
                assert(a.len() == b.len());
                assert(a =~= b);
            }
        } else if a[0] as u32 == b[0] as u32 {
            crate::word::lemma_char_code_injective(a[0], b[0]);
        }
    }
}

/// The lexicographic order is transitive.
proof fn lemma_lex_trans(a: Seq<char>, b: Seq<char>, c: Seq<char>)
    requires
        lex_lt(a, b),
        lex_lt(b, c),
    ensures
        lex_lt(a, c),
    decreases a.len(),
{
    if a.len() > 0 && b.len() > 0 && c.len() > 0 {
        if a[0] == b[0] && b[0] == c[0] {
            lemma_lex_trans(a.drop_first(), b.drop_first(), c.drop_first());
        }
    }
}

/// Any two ranking entries are ordered.
proof fn lemma_entry_total(a: (int, Seq<char>), b: (int, Seq<char>))
    ensures
        entry_le(a, b) || entry_le(b, a),
{
    lemma_lex_trichotomy(a.1, b.1);
}

/// The ranking order is transitive.
proof fn lemma_entry_trans(a: (int, Seq<char>), b: (int, Seq<char>), c: (int, Seq<char>))
    requires
        entry_le(a, b),
        entry_le(b, c),
    ensures
        entry_le(a, c),
{
    if a.0 == b.0 && b.0 == c.0 && a.1 != b.1 && b.1 != c.1 && a.1 != c.1 {
        lemma_lex_trans(a.1, b.1, c.1);
    }
}

/// Decide the lexicographic order of two words.
fn str_lt(a: &str, b: &str) -> (r: bool)
    ensures
        r == lex_lt(a@, b@),
{
    let na = a.unicode_len();
    let nb = b.unicode_len();
    let mut i: usize = 0;
    while i < na && i < nb
        invariant
            na == a@.len(),
            nb == b@.len(),
            i <= na,
            i <= nb,
            forall|j: int| 0 <= j < i ==> a@[j] == b@[j],
        decreases na - i,
    {
        let ca = a.get_char(i);
        let cb = b.get_char(i);
        if ca != cb {
            proof {
                lemma_lex_at(a@, b@, i as int);
            }
            return (ca as u32) < (cb as u32);
        }
        i += 1;
    }
    proof {
        lemma_lex_at(a@, b@, i as int);
    }
    na < nb
}

/// Decide the ranking order of two entries.
fn entry_le_exec(a: &(i32, String), b: &(i32, String)) -> (r: bool)
    ensures
        r == entry_le((a.0 as int, a.1@), (b.0 as int, b.1@)),
{
    if a.0 < b.0 {
        true
    } else if b.0 < a.0 {
        false
    } else if str_eq(a.1.as_str(), b.1.as_str()) {
        true
    } else {
        str_lt(a.1.as_str(), b.1.as_str())
    }
}

/// The usage-count entries, character-wise.
pub open spec fn view_entries(h: Seq<(String, i32)>) -> Seq<(Seq<char>, int)> {
    h.map_values(|p: (String, i32)| (p.0@, p.1 as int))
}

/// No word has two entries.
pub open spec fn distinct_keys(entries: Seq<(Seq<char>, int)>) -> bool {
    forall|i: int, j: int|
        0 <= i < j < entries.len() ==> (#[trigger] entries[i]).0 != (#[trigger] entries[j]).0
}

/// The recorded count of a word: its entry's count, or zero without
/// an entry.
pub open spec fn word_count(entries: Seq<(Seq<char>, int)>, w: Seq<char>) -> int
    decreases entries.len(),
{
    if entries.len() == 0 {
        0
    } else if entries.last().0 == w {
        entries.last().1
    } else {
        word_count(entries.drop_last(), w)
    }
}

/// A word without an entry has count zero.
pub proof fn lemma_word_count_absent(entries: Seq<(Seq<char>, int)>, w: Seq<char>)
    requires
        forall|k: int| 0 <= k < entries.len() ==> (#[trigger] entries[k]).0 != w,
    ensures
        word_count(entries, w) == 0,
    decreases entries.len(),
{
    if entries.len() > 0 {
        lemma_word_count_absent(entries.drop_last(), w);
    }
}

/// Appending a fresh word's entry sets its count and touches no
/// other word's.
pub proof fn lemma_word_count_push(entries: Seq<(Seq<char>, int)>, p: (Seq<char>, int))
    ensures
        word_count(entries.push(p), p.0) == p.1,
        forall|w: Seq<char>| w != p.0 ==> word_count(entries.push(p), w) == word_count(entries, w),
{
    assert(entries.push(p).drop_last() =~= entries);
}

/// The count of a word that has an entry is that entry's count.
pub proof fn lemma_word_count_found(entries: Seq<(Seq<char>, int)>, idx: int)
    requires
        0 <= idx < entries.len(),
        distinct_keys(entries),
    ensures
        word_count(entries, entries[idx].0) == entries[idx].1,
    decreases entries.len(),
{
    if idx < entries.len() - 1 {
        assert(entries.last().0 != entries[idx].0);
        assert(entries.drop_last()[idx] == entries[idx]);
        lemma_word_count_found(entries.drop_last(), idx);
    }
}

/// Replacing a word's entry in place sets its count and touches no
/// other word's.
pub proof fn lemma_word_count_update(entries: Seq<(Seq<char>, int)>, idx: int, c: int)
    requires
        0 <= idx < entries.len(),
        distinct_keys(entries),
    ensures
        word_count(entries.update(idx, (entries[idx].0, c)), entries[idx].0) == c,
        forall|w: Seq<char>|
            w != entries[idx].0 ==> word_count(entries.update(idx, (entries[idx].0, c)), w)
                == word_count(entries, w),
    decreases entries.len(),
{
    let upd = entries.update(idx, (entries[idx].0, c));
    if idx == entries.len() - 1 {
        assert(upd.drop_last() =~= entries.drop_last());
    } else {
        assert(upd.last() == entries.last());
        assert(upd.drop_last() =~= entries.drop_last().update(idx, (entries[idx].0, c)));
        assert(entries.drop_last()[idx] == entries[idx]);
        lemma_word_count_update(entries.drop_last(), idx, c);
        assert(entries.last().0 != entries[idx].0);
        assert forall|w: Seq<char>| w != entries[idx].0 implies word_count(upd, w) == word_count(
            entries,
            w,
        ) by {
            if entries.last().0 != w {
                assert(word_count(upd, w) == word_count(upd.drop_last(), w));
                assert(word_count(entries, w) == word_count(entries.drop_last(), w));
            }
        }
    }
}

/// The ranking pair of a usage entry: negated count, then the word.
pub open spec fn rank_of(p: (Seq<char>, int)) -> (int, Seq<char>) {
    (-p.1, p.0)
}

/// The ranking pairs of all usage entries.
pub open spec fn rank_seq(entries: Seq<(Seq<char>, int)>) -> Seq<(int, Seq<char>)> {
    entries.map_values(|p: (Seq<char>, int)| rank_of(p))
}

/// The ranking pairs held by a report vector.
pub open spec fn view_ranked(v: Seq<(i32, String)>) -> Seq<(int, Seq<char>)> {
    v.map_values(|p: (i32, String)| (p.0 as int, p.1@))
}

/// Non-decreasing in the ranking order.
pub open spec fn sorted_entries(s: Seq<(int, Seq<char>)>) -> bool {
    forall|i: int, j: int| 0 <= i < j < s.len() ==> entry_le(#[trigger] s[i], #[trigger] s[j])
}

/// The cumulative play record: wins, completed games, attempts spent
/// in won games, the per-word usage counts, and the running game's
/// guess counter.
pub struct Stats {
    wins: i32,
    total: i32,
    attempts: i32,
    buffer: i32,
    guess_history: Vec<(String, i32)>,
}

/// `o`, or `d` where `o` is absent.
pub open spec fn opt_i32(o: Option<i32>, d: i32) -> i32 {
    if o is Some {
        o->0
    } else {
        d
    }
}

impl Stats {
    /// Games won.
    pub closed spec fn wins_view(&self) -> i32 {
        self.wins
    }

    /// Games completed.
    pub closed spec fn total_view(&self) -> i32 {
        self.total
    }

    /// Attempts spent in won games.
    pub closed spec fn attempts_view(&self) -> i32 {
        self.attempts
    }

    /// Accepted guesses of the game in progress.
    pub closed spec fn buffer_view(&self) -> i32 {
        self.buffer
    }

    /// The per-word usage counts.
    pub closed spec fn entries_view(&self) -> Seq<(Seq<char>, int)> {
        view_entries(self.guess_history@)
    }

    /// The aggregator invariant: counts are consistent and every
    /// recorded word has one positive entry.
    pub open spec fn wf(&self) -> bool {
        &&& 0 <= self.wins_view() <= self.total_view()
        &&& self.attempts_view() >= 0
        &&& self.buffer_view() >= 0
        &&& distinct_keys(self.entries_view())
        &&& forall|k: int|
            0 <= k < self.entries_view().len() ==> (#[trigger] self.entries_view()[k]).1 >= 1
    }

    /// A fresh or reloaded aggregator; absent pieces start at zero.
    pub fn new(
        wins: Option<i32>,
        total: Option<i32>,
        attempts: Option<i32>,
        buffer: Option<i32>,
        guess_history: Option<Vec<(String, i32)>>,
    ) -> (s: Stats)
        requires
            0 <= opt_i32(wins, 0) <= opt_i32(total, 0),
            opt_i32(attempts, 0) >= 0,
            opt_i32(buffer, 0) >= 0,
            guess_history matches Some(h) ==> distinct_keys(view_entries(h@)) && forall|k: int|
                0 <= k < h@.len() ==> (#[trigger] view_entries(h@)[k]).1 >= 1,
        ensures
            s.wf(),
            s.wins_view() == opt_i32(wins, 0),
            s.total_view() == opt_i32(total, 0),
            s.attempts_view() == opt_i32(attempts, 0),
            s.buffer_view() == opt_i32(buffer, 0),
            guess_history matches Some(h) ==> s.entries_view() == view_entries(h@),
            guess_history is None ==> s.entries_view() =~= Seq::<(Seq<char>, int)>::empty(),
    {
        let w = match wins {
            Some(v) => v,
            None => 0,
        };
        let t = match total {
            Some(v) => v,
            None => 0,
        };
        let a = match attempts {
            Some(v) => v,
            None => 0,
        };
        let b = match buffer {
            Some(v) => v,
            None => 0,
        };
        let h = match guess_history {
            Some(v) => v,
            None => Vec::new(),
        };
        Stats { wins: w, total: t, attempts: a, buffer: b, guess_history: h }
    }

    /// Record one completed game: on a win the buffered guesses count
    /// as its attempts; either way the buffer restarts.
    pub fn add_game(&mut self, result: bool)
        requires
            old(self).wf(),
            old(self).total_view() < i32::MAX,
            result ==> old(self).attempts_view() + old(self).buffer_view() <= i32::MAX,
        ensures
            final(self).wf(),
            final(self).total_view() == old(self).total_view() + 1,
            result ==> final(self).wins_view() == old(self).wins_view() + 1,
            !result ==> final(self).wins_view() == old(self).wins_view(),
            result ==> final(self).attempts_view() == old(self).attempts_view() + old(
                self,
            ).buffer_view(),
            !result ==> final(self).attempts_view() == old(self).attempts_view(),
            final(self).buffer_view() == 0,
            final(self).entries_view() == old(self).entries_view(),
    {
        self.total = self.total + 1;
        if result {
            self.wins = self.wins + 1;
            self.attempts = self.attempts + self.buffer;
        }
        self.buffer = 0;
    }

    /// Record one accepted guess: its word's usage count goes up by
    /// one, as does the running game's counter.
    pub fn add_guess(&mut self, user_input: String)
        requires
            old(self).wf(),
            old(self).buffer_view() < i32::MAX,
            word_count(old(self).entries_view(), user_input@) < i32::MAX,
        ensures
            final(self).wf(),
            word_count(final(self).entries_view(), user_input@) == word_count(
                old(self).entries_view(),
                user_input@,
            ) + 1,
            forall|w: Seq<char>|
                w != user_input@ ==> word_count(final(self).entries_view(), w) == word_count(
                    old(self).entries_view(),
                    w,
                ),
            final(self).buffer_view() == old(self).buffer_view() + 1,
            final(self).wins_view() == old(self).wins_view(),
            final(self).total_view() == old(self).total_view(),
            final(self).attempts_view() == old(self).attempts_view(),
    {
        let ghost entries0 = self.entries_view();
        let n = self.guess_history.len();
        let mut i: usize = 0;
        while i < n
            invariant
                n == self.guess_history@.len(),
                i <= n,
                *self == *old(self),
                old(self).wf(),
                old(self).buffer_view() < i32::MAX,
                word_count(old(self).entries_view(), user_input@) < i32::MAX,
                entries0 == old(self).entries_view(),
                entries0 == view_entries(self.guess_history@),
                forall|k: int| 0 <= k < i ==> (#[trigger] entries0[k]).0 != user_input@,
            decreases n - i,
        {
            if str_eq(self.guess_history[i].0.as_str(), user_input.as_str()) {
                proof {
                    assert(entries0[i as int].0 == user_input@);
                }
                let c0 = self.guess_history[i].1;
                proof {
                    lemma_word_count_update(entries0, i as int, c0 as int + 1);
                    assert(word_count(entries0, user_input@) == c0 as int) by {
                        lemma_word_count_update(entries0, i as int, c0 as int);
                        assert(entries0.update(i as int, (entries0[i as int].0, c0 as int))
                            =~= entries0);
                    }
                }
                let ws = self.guess_history[i].0.clone();
                self.guess_history[i] = (ws, c0 + 1);
                proof {
                    assert(self.entries_view() =~= entries0.update(
                        i as int,
                        (entries0[i as int].0, c0 as int + 1),
                    ));
                }
                proof {
                    assert(forall|k: int|
                        0 <= k < entries0.len() ==> (#[trigger] self.entries_view()[k]).0
                            == entries0[k].0 && (k != i ==> self.entries_view()[k].1
                            == entries0[k].1));
                    assert(distinct_keys(self.entries_view()));
                    assert(entries0[i as int].1 >= 1);
                    assert(forall|k: int|
                        0 <= k < self.entries_view().len() ==> (
                        #[trigger] self.entries_view()[k]).1 >= 1);
                }
                self.buffer = self.buffer + 1;
                return ;
            }
            i += 1;
        }
        proof {
            lemma_word_count_absent(entries0, user_input@);
        }
        self.guess_history.push((user_input, 1));
        proof {
            let ghost p = ((self.guess_history@.last().0)@, 1int);
            assert(self.entries_view() =~= entries0.push(p));
            lemma_word_count_push(entries0, p);
            assert(forall|k: int|
                0 <= k < entries0.len() ==> #[trigger] self.entries_view()[k] == entries0[k]);
            assert(self.entries_view().last() == p);
            assert(distinct_keys(self.entries_view()));
            assert(forall|k: int|
                0 <= k < self.entries_view().len() ==> (#[trigger] self.entries_view()[k]).1 >= 1);
        }
        self.buffer = self.buffer + 1;
    }

    /// The ranked report: at most five entries, each the negated use
    /// count and the word, ordered by count descending and word
    /// ascending; every entry left out ranks no better than any
    /// returned one.
    pub fn get_top5_words(&self) -> (r: Vec<(i32, String)>)
        requires
            self.wf(),
        ensures
            r@.len() <= 5,
            r@.len() <= self.entries_view().len(),
            self.entries_view().len() >= 5 ==> r@.len() == 5,
            self.entries_view().len() < 5 ==> r@.len() == self.entries_view().len(),
            sorted_entries(view_ranked(r@)),
            forall|i: int, j: int|
                0 <= i < j < r@.len() ==> view_ranked(r@)[i] != view_ranked(r@)[j],
            forall|i: int|
                0 <= i < r@.len() ==> rank_seq(self.entries_view()).contains(
                    #[trigger] view_ranked(r@)[i],
                ),
            forall|k: int|
                0 <= k < self.entries_view().len() && !view_ranked(r@).contains(
                    #[trigger] rank_seq(self.entries_view())[k],
                ) ==> forall|i: int|
                    0 <= i < r@.len() ==> entry_le(
                        #[trigger] view_ranked(r@)[i],
                        rank_seq(self.entries_view())[k],
                    ),
    {
        broadcast use vstd::seq_lib::group_to_multiset_ensures;

        let ghost entries = self.entries_view();
        let ghost ranks = rank_seq(entries);
        let n = self.guess_history.len();
        let mut result: Vec<(i32, String)> = Vec::new();
        let mut m: usize = 0;
        while m < n
            invariant
                self.wf(),
                entries == self.entries_view(),
                ranks == rank_seq(entries),
                n == self.guess_history@.len(),
                n == entries.len(),
                m <= n,
                result@.len() == m,
                sorted_entries(view_ranked(result@)),
                view_ranked(result@).to_multiset() == ranks.take(m as int).to_multiset(),
            decreases n - m,
        {
            proof {
                assert(entries[m as int].1 >= 1);
                assert(entries[m as int] == (self.guess_history@[m as int].0@,
                self.guess_history@[m as int].1 as int));
            }
            let c = self.guess_history[m].1;
            let w = self.guess_history[m].0.clone();
            let e = (-c, w);
            let ghost ev = ((-c) as int, e.1@);
            proof {
                assert(ev == ranks[m as int]);
            }
            let ghost oldv = view_ranked(result@);
            let mut idx: usize = 0;
            while idx < result.len() && entry_le_exec(&result[idx], &e)
                invariant
                    idx <= result@.len(),
                    oldv == view_ranked(result@),
                    ev == ((e.0 as int, e.1@)),
                    sorted_entries(oldv),
                    forall|j: int| 0 <= j < idx ==> entry_le(#[trigger] oldv[j], ev),
                decreases result@.len() - idx,
            {
                idx += 1;
            }
            proof {
                if (idx as int) < oldv.len() {
                    lemma_entry_total(oldv[idx as int], ev);
                    assert(entry_le(ev, oldv[idx as int]));
                }
            }
            result.insert(idx, e);
            proof {
                assert(view_ranked(result@) =~= oldv.insert(idx as int, ev));
                assert forall|i: int, j: int|
                    0 <= i < j < view_ranked(result@).len() implies entry_le(
                    #[trigger] view_ranked(result@)[i],
                    #[trigger] view_ranked(result@)[j],
                ) by {
                    let nv = view_ranked(result@);
                    if i < idx && j < idx {
                    } else if i < idx && j == idx {
                    } else if i == idx && j > idx {
                        lemma_entry_trans(ev, oldv[idx as int], oldv[j - 1]);
                    } else if i < idx && j > idx {
                    } else {
                    }
                }
                assert(ranks.take(m + 1) =~= ranks.take(m as int).push(ranks[m as int]));
                vstd::seq_lib::to_multiset_insert(oldv, idx as int, ev);
                assert(view_ranked(result@).to_multiset() == oldv.insert(
                    idx as int,
                    ev,
                ).to_multiset());
                assert(oldv.insert(idx as int, ev).to_multiset() == oldv.to_multiset().insert(ev));
                assert(oldv.to_multiset() == ranks.take(m as int).to_multiset());
                vstd::seq_lib::to_multiset_build(ranks.take(m as int), ranks[m as int]);
                assert(ranks.take(m as int).push(ranks[m as int]).to_multiset() == ranks.take(
                    m as int,
                ).to_multiset().insert(ranks[m as int]));
                assert(ev == ranks[m as int]);
                assert(view_ranked(result@).to_multiset() == ranks.take(m + 1).to_multiset());
            }
            m += 1;
        }
        proof {
            assert(ranks.take(n as int) =~= ranks);
        }
        let ghost full = view_ranked(result@);
        proof {
            assert(full.to_multiset() == ranks.to_multiset());
            assert(full.len() == ranks.len());
            assert(ranks.no_duplicates()) by {
                assert forall|i: int, j: int| 0 <= i < j < ranks.len() implies ranks[i]
                    != ranks[j] by {
                    assert(entries[i].0 != entries[j].0);
                }
            }
            ranks.lemma_multiset_has_no_duplicates();
            full.lemma_multiset_has_no_duplicates_conv();
            assert(full.no_duplicates());
        }
        while result.len() > 5
            invariant
                result@.len() <= full.len(),
                view_ranked(result@) == full.take(result@.len() as int),
                result@.len() >= 5 || view_ranked(result@) == full,
            decreases result@.len(),
        {
            result.pop();
            proof {
                assert(view_ranked(result@) =~= full.take(result@.len() as int));
            }
        }
        proof {
            let rv = view_ranked(result@);
            assert(rv == full.take(rv.len() as int));
            assert forall|i: int|
                0 <= i < rv.len() implies ranks.contains(#[trigger] rv[i]) by {
                assert(full[i] == rv[i]);
                assert(full.contains(full[i]));
                assert(full.to_multiset().count(full[i]) > 0);
            }
            assert forall|k: int|
                0 <= k < entries.len() && !rv.contains(#[trigger] ranks[k]) implies forall|i: int|
                0 <= i < rv.len() ==> entry_le(#[trigger] rv[i], ranks[k]) by {
                assert(ranks.contains(ranks[k]));
                assert(ranks.to_multiset().count(ranks[k]) > 0);
                assert(full.to_multiset().count(ranks[k]) > 0);
                assert(full.contains(ranks[k]));
                let p = choose|p: int| 0 <= p < full.len() && full[p] == ranks[k];
                assert(p >= rv.len()) by {
                    if p < rv.len() {
                        assert(rv[p] == ranks[k]);
                    }
                }
                assert forall|i: int| 0 <= i < rv.len() implies entry_le(
                    #[trigger] rv[i],
                    ranks[k],
                ) by {
                    assert(entry_le(full[i], full[p]));
                }
            }
        }
        result
    }

    /// How often a word has been recorded.
    pub fn used_count(&self, user_input: &str) -> (r: i32)
        requires
            self.wf(),
        ensures
            r == word_count(self.entries_view(), user_input@),
    {
        let ghost entries = self.entries_view();
        let n = self.guess_history.len();
        let mut i: usize = 0;
        while i < n
            invariant
                self.wf(),
                entries == self.entries_view(),
                n == self.guess_history@.len(),
                i <= n,
                forall|k: int| 0 <= k < i ==> (#[trigger] entries[k]).0 != user_input@,
            decreases n - i,
        {
            if str_eq(self.guess_history[i].0.as_str(), user_input) {
                proof {
                    lemma_word_count_found(entries, i as int);
                }
                return self.guess_history[i].1;
            }
            i += 1;
        }
        proof {
            lemma_word_count_absent(entries, user_input@);
        }
        0
    }

    /// Accepted guesses of the game in progress.
    pub fn buffer(&self) -> (r: i32)
        ensures
            r == self.buffer_view(),
    {
        self.buffer
    }

    /// Games won.
    pub fn wins(&self) -> (r: i32)
        ensures
            r == self.wins_view(),
    {
        self.wins
    }

    /// Games completed.
    pub fn total(&self) -> (r: i32)
        ensures
            r == self.total_view(),
    {
        self.total
    }

    /// Attempts spent in won games.
    pub fn attempts(&self) -> (r: i32)
        ensures
            r == self.attempts_view(),
    {
        self.attempts
    }
}

} // verus!
