//! The persisted play record: one entry per completed game (answer
//! and guesses, in order), and the replay that rebuilds a statistics
//! aggregator from it.

use vstd::prelude::*;
use crate::dict::view_words;
use crate::stats::{Stats, word_count, distinct_keys, view_entries};
use crate::word::str_eq;

verus! {

/// One completed game: its answer and its guesses, in order.
pub struct Games {
    answer: String,
    guesses: Vec<String>,
}

/// A game is won exactly when its last guess is its answer.
pub open spec fn spec_game_won(g: &Games) -> bool {
    g.guesses_view().len() > 0 && g.guesses_view().last() == g.answer_view()
}

impl Games {
    /// The answer, character-wise.
    pub closed spec fn answer_view(&self) -> Seq<char> {
        self.answer@
    }

    /// The guesses, character-wise, in order.
    pub closed spec fn guesses_view(&self) -> Seq<Seq<char>> {
        view_words(self.guesses@)
    }

    /// An empty record.
    pub fn new() -> (g: Games)
        ensures
            g.answer_view() =~= Seq::<char>::empty(),
            g.guesses_view() =~= Seq::<Seq<char>>::empty(),
    {
        let g = Games { answer: String::new(), guesses: Vec::new() };
        proof {
            assert(g.guesses_view() =~= Seq::<Seq<char>>::empty());
        }
        g
    }

    /// Set the game's answer.
    pub fn set_answer(&mut self, user_input: String)
        ensures
            final(self).answer_view() == user_input@,
            final(self).guesses_view() == old(self).guesses_view(),
    {
        self.answer = user_input;
    }

    /// Append one guess.
    pub fn add_guess(&mut self, user_input: String)
        ensures
            final(self).guesses_view() =~= old(self).guesses_view().push(user_input@),
            final(self).answer_view() == old(self).answer_view(),
    {
        self.guesses.push(user_input);
    }

    /// Whether the game was won: its last guess is the answer.
    pub fn check_result(&self) -> (r: bool)
        requires
            self.guesses_view().len() >= 1,
        ensures
            r == spec_game_won(self),
    {
        let last = self.guesses.len() - 1;
        proof {
            assert(self.guesses_view()[last as int] == self.guesses@[last as int]@);
        }
        str_eq(self.answer.as_str(), self.guesses[last].as_str())
    }

    /// How many guesses the game took.
    pub fn guesses_number(&self) -> (r: i32)
        requires
            self.guesses_view().len() <= i32::MAX,
        ensures
            r == self.guesses_view().len(),
    {
        self.guesses.len() as i32
    }

    /// A copy of the guesses.
    pub fn get_guesses(&self) -> (r: Vec<String>)
        ensures
            view_words(r@) == self.guesses_view(),
    {
        let n = self.guesses.len();
        let mut r: Vec<String> = Vec::new();
        let mut i: usize = 0;
        while i < n
            invariant
                n == self.guesses@.len(),
                i <= n,
                r@.len() == i,
                forall|k: int| 0 <= k < i ==> #[trigger] r@[k]@ == self.guesses@[k]@,
            decreases n - i,
        {
            r.push(self.guesses[i].clone());
            i += 1;
        }
        proof {
            assert(view_words(r@) =~= self.guesses_view());
        }
        r
    }
}

/// Number of wins among the first `n` games.
pub open spec fn count_wins(games: Seq<Games>, n: int) -> int
    recommends
        n <= games.len(),
    decreases n,
{
    if n <= 0 {
        0
    } else {
        count_wins(games, n - 1) + if spec_game_won(&games[n - 1]) {
            1int
        } else {
            0int
        }
    }
}

/// Attempts spent in the won games among the first `n`.
pub open spec fn sum_win_attempts(games: Seq<Games>, n: int) -> int
    recommends
        n <= games.len(),
    decreases n,
{
    if n <= 0 {
        0
    } else {
        sum_win_attempts(games, n - 1) + if spec_game_won(&games[n - 1]) {
            games[n - 1].guesses_view().len() as int
        } else {
            0int
        }
    }
}

/// Guesses made in the first `n` games, all counted.
pub open spec fn sum_guess_lens(games: Seq<Games>, n: int) -> int
    recommends
        n <= games.len(),
    decreases n,
{
    if n <= 0 {
        0
    } else {
        sum_guess_lens(games, n - 1) + games[n - 1].guesses_view().len() as int
    }
}

/// Occurrences of the word `w` among the first `j` guesses of a list.
pub open spec fn game_uses(guesses: Seq<Seq<char>>, j: int, w: Seq<char>) -> int
    recommends
        j <= guesses.len(),
    decreases j,
{
    if j <= 0 {
        0
    } else {
        game_uses(guesses, j - 1, w) + if guesses[j - 1] == w {
            1int
        } else {
            0int
        }
    }
}

/// Occurrences of the word `w` among all guesses of the first `n`
/// games.
pub open spec fn total_uses(games: Seq<Games>, n: int, w: Seq<char>) -> int
    recommends
        n <= games.len(),
    decreases n,
{
    if n <= 0 {
        0
    } else {
        total_uses(games, n - 1, w) + game_uses(
            games[n - 1].guesses_view(),
            games[n - 1].guesses_view().len() as int,
            w,
        )
    }
}

proof fn lemma_game_uses_bounds(guesses: Seq<Seq<char>>, j: int, w: Seq<char>)
    requires
        0 <= j <= guesses.len(),
    ensures
        0 <= game_uses(guesses, j, w) <= j,
    decreases j,
{
    if j > 0 {
        lemma_game_uses_bounds(guesses, j - 1, w);
    }
}

/// The replay tallies are bounded by what they count.
proof fn lemma_replay_bounds(games: Seq<Games>, n: int, w: Seq<char>)
    requires
        0 <= n <= games.len(),
    ensures
        0 <= count_wins(games, n) <= n,
        0 <= sum_win_attempts(games, n) <= sum_guess_lens(games, n),
        0 <= total_uses(games, n, w) <= sum_guess_lens(games, n),
    decreases n,
{
    if n > 0 {
        lemma_replay_bounds(games, n - 1, w);
        lemma_game_uses_bounds(
            games[n - 1].guesses_view(),
            games[n - 1].guesses_view().len() as int,
            w,
        );
    }
}

/// Later prefixes only add to the tallies.
proof fn lemma_sums_monotone(games: Seq<Games>, k: int, n: int)
    requires
        0 <= k <= n <= games.len(),
    ensures
        sum_guess_lens(games, k) <= sum_guess_lens(games, n),
        sum_win_attempts(games, k) <= sum_win_attempts(games, n),
    decreases n,
{
    if k < n {
        lemma_sums_monotone(games, k, n - 1);
        lemma_replay_bounds(games, n - 1, games[n - 1].answer_view());
        assert(games[n - 1].guesses_view().len() >= 0);
    }
}

/// The whole persisted record: every completed game, oldest first.
pub struct Gamejson {
    total_rounds: u32,
    games: Vec<Games>,
}

impl Gamejson {
    /// How many games the record holds.
    pub closed spec fn total_view(&self) -> int {
        self.total_rounds as int
    }

    /// The recorded games.
    pub closed spec fn games_view(&self) -> Seq<Games> {
        self.games@
    }

    /// The record invariant: the round counter matches the list, and
    /// every recorded game took at least one guess.
    pub open spec fn wf(&self) -> bool {
        &&& self.total_view() == self.games_view().len()
        &&& forall|k: int|
            0 <= k < self.games_view().len() ==> (#[trigger] self.games_view()[k]).guesses_view().len() >= 1
    }

    /// An empty record.
    pub fn new() -> (g: Gamejson)
        ensures
            g.wf(),
            g.total_view() == 0,
            g.games_view() =~= Seq::<Games>::empty(),
    {
        Gamejson { total_rounds: 0, games: Vec::new() }
    }

    /// How many games the record holds.
    pub fn get_total(&self) -> (r: i32)
        requires
            self.total_view() <= i32::MAX,
        ensures
            r == self.total_view(),
    {
        self.total_rounds as i32
    }

    /// Append one completed game.
    pub fn add_games(&mut self, game: Games)
        requires
            old(self).wf(),
            old(self).total_view() < u32::MAX,
            game.guesses_view().len() >= 1,
        ensures
            final(self).wf(),
            final(self).games_view() == old(self).games_view().push(game),
            final(self).total_view() == old(self).total_view() + 1,
    {
        self.games.push(game);
        self.total_rounds = self.total_rounds + 1;
    }

    /// Rebuild a statistics aggregator by replaying every recorded
    /// game: wins, attempts spent in wins, and each word's uses.
    pub fn to_stats(&self) -> (r: Stats)
        requires
            self.wf(),
            self.total_view() <= i32::MAX,
            sum_guess_lens(self.games_view(), self.games_view().len() as int) <= i32::MAX,
        ensures
            r.wf(),
            r.wins_view() == count_wins(self.games_view(), self.games_view().len() as int),
            r.total_view() == self.total_view(),
            r.attempts_view() == sum_win_attempts(
                self.games_view(),
                self.games_view().len() as int,
            ),
            r.buffer_view() == 0,
            forall|w: Seq<char>|
                word_count(r.entries_view(), w) == total_uses(
                    self.games_view(),
                    self.games_view().len() as int,
                    w,
                ),
    {
        let ghost games = self.games_view();
        let n = self.games.len();
        let mut win_count: i32 = 0;
        let mut attempts_count: i32 = 0;
        let mut map: Vec<(String, i32)> = Vec::new();
        let mut k: usize = 0;
        while k < n
            invariant
                self.wf(),
                games == self.games_view(),
                n == games.len(),
                n <= i32::MAX,
                sum_guess_lens(games, n as int) <= i32::MAX,
                k <= n,
                win_count == count_wins(games, k as int),
                attempts_count == sum_win_attempts(games, k as int),
                distinct_keys(view_entries(map@)),
                forall|i: int| 0 <= i < map@.len() ==> (#[trigger] view_entries(map@)[i]).1 >= 1,
                forall|w: Seq<char>|
                    word_count(view_entries(map@), w) == total_uses(games, k as int, w),
                forall|w: Seq<char>|
                    word_count(view_entries(map@), w) <= sum_guess_lens(games, k as int),
            decreases n - k,
        {
            let game = &self.games[k];
            proof {
                assert(games[k as int].guesses_view().len() >= 1);
                lemma_replay_bounds(games, k as int, games[k as int].answer_view());
                lemma_sums_monotone(games, k + 1, n as int);
                lemma_replay_bounds(games, k + 1, games[k as int].answer_view());
            }
            let m = game.guesses.len();
            proof {
                assert(m == games[k as int].guesses_view().len());
            }
            if game.check_result() {
                win_count = win_count + 1;
                attempts_count = attempts_count + (m as i32);
            }
            let ghost gw = games[k as int].guesses_view();
            let mut j: usize = 0;
            while j < m
                invariant
                    self.wf(),
                    games == self.games_view(),
                    n == games.len(),
                    sum_guess_lens(games, n as int) <= i32::MAX,
                    k < n,
                    game == &self.games@[k as int],
                    gw == games[k as int].guesses_view(),
                    m == gw.len(),
                    j <= m,
                    distinct_keys(view_entries(map@)),
                    forall|i: int|
                        0 <= i < map@.len() ==> (#[trigger] view_entries(map@)[i]).1 >= 1,
                    forall|w: Seq<char>|
                        word_count(view_entries(map@), w) == total_uses(games, k as int, w)
                            + game_uses(gw, j as int, w),
                    forall|w: Seq<char>|
                        word_count(view_entries(map@), w) <= sum_guess_lens(games, k as int)
                            + j,
                decreases m - j,
            {
                proof {
                    lemma_sums_monotone(games, k + 1, n as int);
                    assert(sum_guess_lens(games, k + 1) == sum_guess_lens(games, k as int)
                        + m as int);
                    assert(sum_guess_lens(games, k as int) + j < i32::MAX);
                }
                let word = game.guesses[j].clone();
                proof {
                    assert(word@ == gw[j as int]);
                }
                bump_word(&mut map, word);
                j += 1;
            }
            proof {
                assert(total_uses(games, k + 1, games[k as int].answer_view()) == total_uses(
                    games,
                    k as int,
                    games[k as int].answer_view(),
                ) + game_uses(gw, gw.len() as int, games[k as int].answer_view()));
                lemma_sums_monotone(games, k + 1, n as int);
            }
            k += 1;
        }
        let total = self.get_total();
        proof {
            lemma_replay_bounds(games, n as int, Seq::<char>::empty());
        }
        Stats::new(Some(win_count), Some(total), Some(attempts_count), Some(0), Some(map))
    }
}

/// Add one use of a word to the count map.
fn bump_word(map: &mut Vec<(String, i32)>, word: String)
    requires
        distinct_keys(view_entries(old(map)@)),
        forall|i: int| 0 <= i < old(map)@.len() ==> (#[trigger] view_entries(old(map)@)[i]).1 >= 1,
        word_count(view_entries(old(map)@), word@) < i32::MAX,
    ensures
        distinct_keys(view_entries(final(map)@)),
        forall|i: int| 0 <= i < final(map)@.len() ==> (#[trigger] view_entries(final(map)@)[i]).1
            >= 1,
        word_count(view_entries(final(map)@), word@) == word_count(
            view_entries(old(map)@),
            word@,
        ) + 1,
        forall|w: Seq<char>|
            w != word@ ==> word_count(view_entries(final(map)@), w) == word_count(
                view_entries(old(map)@),
                w,
            ),
{
    let ghost entries0 = view_entries(map@);
    let n = map.len();
    let mut i: usize = 0;
    while i < n
        invariant
            n == map@.len(),
            map@ == old(map)@,
            entries0 == view_entries(map@),
            distinct_keys(entries0),
            forall|k: int| 0 <= k < entries0.len() ==> (#[trigger] entries0[k]).1 >= 1,
            word_count(entries0, word@) < i32::MAX,
            i <= n,
            forall|k: int| 0 <= k < i ==> (#[trigger] entries0[k]).0 != word@,
        decreases n - i,
    {
        if str_eq(map[i].0.as_str(), word.as_str()) {
            proof {
                assert(entries0[i as int].0 == word@);
            }
            let c0 = map[i].1;
            proof {
                crate::stats::lemma_word_count_update(entries0, i as int, c0 as int + 1);
                assert(word_count(entries0, word@) == c0 as int) by {
                    crate::stats::lemma_word_count_update(entries0, i as int, c0 as int);
                    assert(entries0.update(i as int, (entries0[i as int].0, c0 as int))
                        =~= entries0);
                }
            }
            let ws = map[i].0.clone();
            map[i] = (ws, c0 + 1);
            proof {
                assert(view_entries(map@) =~= entries0.update(
                    i as int,
                    (entries0[i as int].0, c0 as int + 1),
                ));
                assert(forall|k: int|
                    0 <= k < entries0.len() ==> (#[trigger] view_entries(map@)[k]).0
                        == entries0[k].0 && (k != i ==> view_entries(map@)[k].1
                        == entries0[k].1));
                assert(distinct_keys(view_entries(map@)));
                assert(forall|k: int|
                    0 <= k < view_entries(map@).len() ==> (#[trigger] view_entries(map@)[k]).1
                        >= 1);
            }
            return ;
        }
        i += 1;
    }
    proof {
        crate::stats::lemma_word_count_absent(entries0, word@);
    }
    map.push((word, 1));
    proof {
        let ghost p = ((map@.last().0)@, 1int);
        assert(view_entries(map@) =~= entries0.push(p));
        crate::stats::lemma_word_count_push(entries0, p);
        assert(forall|k: int|
            0 <= k < entries0.len() ==> #[trigger] view_entries(map@)[k] == entries0[k]);
        assert(view_entries(map@).last() == p);
        assert(distinct_keys(view_entries(map@)));
        assert(forall|k: int|
            0 <= k < view_entries(map@).len() ==> (#[trigger] view_entries(map@)[k]).1 >= 1);
    }
}

} // verus!
