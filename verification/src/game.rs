//! The game session state machine: one hidden answer, up to six
//! accepted guesses, a keyboard whose letters keep the best color
//! seen, and a status that moves from running to won or lost.

use vstd::prelude::*;
use crate::color::{is_color, is_score_color, color_rank, spec_merge_color, merge_color};
use crate::dict::WordDict;
use crate::hard_mode::{hard_mode_ok, check_hard_mode};
use crate::score::{spec_score, score_guess};
use crate::word::{is_upper_word, letter_slot, slot_of, str_to_chars, check_upper_word, copy_chars};

verus! {

/// Number of guesses a session allows.
pub const GUESS_CHANCE: usize = 6;

/// Where a session stands.
#[derive(Clone, Copy, PartialEq, Eq, Structural, Debug)]
pub enum GameStatus {
    Running,
    Success,
    Fail,
}

/// Why a submitted guess was rejected; either way no state changes.
#[derive(Clone, Copy, PartialEq, Eq, Structural, Debug)]
pub enum IllegalGuess {
    /// Not a guessable word: wrong length, a character outside
    /// 'A'..='Z', or not in the acceptable-word list.
    NotAcceptable,
    /// Hard mode is on and the guess discards information the
    /// previous score revealed.
    HardModeViolation,
}

/// A score all 'G': the guess is the answer.
pub open spec fn all_exact(score: Seq<char>) -> bool {
    forall|i: int| 0 <= i < score.len() ==> #[trigger] score[i] == 'G'
}

/// The history pairs, character-wise.
pub open spec fn view_history(h: Seq<(Vec<char>, Vec<char>)>) -> Seq<(Seq<char>, Seq<char>)> {
    h.map_values(|p: (Vec<char>, Vec<char>)| (p.0@, p.1@))
}

/// The keyboard after merging in the colors of one scored guess,
/// position by position up to `n`.
pub open spec fn keyboard_after(kb: Seq<char>, guess: Seq<char>, score: Seq<char>, n: int) -> Seq<
    char,
>
    recommends
        kb.len() == 26,
        n <= guess.len(),
        n <= score.len(),
        is_upper_word(guess),
    decreases n,
{
    if n <= 0 {
        kb
    } else {
        let prev = keyboard_after(kb, guess, score, n - 1);
        let slot = letter_slot(guess[n - 1]);
        prev.update(slot, spec_merge_color(prev[slot], score[n - 1]))
    }
}

/// Merging a scored guess into the keyboard never lowers any
/// letter's rank, keeps every entry a color, and touches nothing but
/// the 26 slots.
pub proof fn lemma_keyboard_monotone(kb: Seq<char>, guess: Seq<char>, score: Seq<char>, n: int)
    requires
        kb.len() == 26,
        0 <= n <= guess.len(),
        score.len() == guess.len(),
        is_upper_word(guess),
        forall|s: int| 0 <= s < 26 ==> is_color(#[trigger] kb[s]),
        forall|i: int| 0 <= i < score.len() ==> is_score_color(#[trigger] score[i]),
    ensures
        keyboard_after(kb, guess, score, n).len() == 26,
        forall|s: int|
            0 <= s < 26 ==> is_color(#[trigger] keyboard_after(kb, guess, score, n)[s]),
        forall|s: int|
            0 <= s < 26 ==> color_rank(#[trigger] keyboard_after(kb, guess, score, n)[s])
                >= color_rank(kb[s]),
    decreases n,
{
    if n > 0 {
        lemma_keyboard_monotone(kb, guess, score, n - 1);
    }
}

/// The status a session moves to once a guess has been accepted as
/// round `rounds_played`: won on an all-exact score, lost when the
/// attempt limit is used up, running otherwise.
pub open spec fn next_status(score: Seq<char>, rounds_played: int) -> GameStatus {
    if all_exact(score) {
        GameStatus::Success
    } else if rounds_played >= GUESS_CHANCE {
        GameStatus::Fail
    } else {
        GameStatus::Running
    }
}

/// One game session.
pub struct GameInfo {
    keyboard_status: Vec<char>,
    guess_answer: Vec<char>,
    guess_history: Vec<(Vec<char>, Vec<char>)>,
    game_status: GameStatus,
    is_difficult: bool,
}

impl GameInfo {
    /// The hidden answer.
    pub closed spec fn answer_view(&self) -> Seq<char> {
        self.guess_answer@
    }

    /// The 26 keyboard entries, 'A' first.
    pub closed spec fn keyboard_view(&self) -> Seq<char> {
        self.keyboard_status@
    }

    /// The accepted guesses and their scores, oldest first.
    pub closed spec fn history_view(&self) -> Seq<(Seq<char>, Seq<char>)> {
        view_history(self.guess_history@)
    }

    /// Where the session stands.
    pub closed spec fn status_view(&self) -> GameStatus {
        self.game_status
    }

    /// Whether hard mode is on.
    pub closed spec fn difficult_view(&self) -> bool {
        self.is_difficult
    }

    /// The session invariant: the answer is a word, every history
    /// entry is a word of the answer's length with its true score,
    /// at most six guesses are recorded, every keyboard entry is a
    /// color, and the status matches the history.
    pub open spec fn wf(&self) -> bool {
        &&& self.keyboard_view().len() == 26
        &&& forall|s: int| 0 <= s < 26 ==> is_color(#[trigger] self.keyboard_view()[s])
        &&& is_upper_word(self.answer_view())
        &&& self.answer_view().len() >= 1
        &&& self.history_view().len() <= GUESS_CHANCE
        &&& forall|k: int|
            0 <= k < self.history_view().len() ==> {
                &&& is_upper_word((#[trigger] self.history_view()[k]).0)
                &&& self.history_view()[k].0.len() == self.answer_view().len()
                &&& self.history_view()[k].1 == spec_score(
                    self.answer_view(),
                    self.history_view()[k].0,
                )
            }
        &&& (self.status_view() is Success ==> self.history_view().len() >= 1 && all_exact(
            self.history_view().last().1,
        ))
        &&& (self.status_view() is Fail ==> self.history_view().len() == GUESS_CHANCE)
        &&& (self.status_view() is Running ==> self.history_view().len() < GUESS_CHANCE)
    }

    /// A guess the session takes at all: right length, all uppercase
    /// letters, and in the dictionary's acceptable list.
    pub open spec fn guess_acceptable(&self, cand: Seq<char>, dict: &WordDict) -> bool {
        &&& cand.len() == self.answer_view().len()
        &&& is_upper_word(cand)
        &&& dict.acceptable_words().contains(cand)
    }

    /// The hard-mode gate: only binding when hard mode is on and a
    /// previous guess exists.
    pub open spec fn hard_mode_allows(&self, cand: Seq<char>) -> bool {
        (self.difficult_view() && self.history_view().len() > 0) ==> hard_mode_ok(
            self.history_view().last().0,
            self.history_view().last().1,
            cand,
        )
    }

    /// Open a session on the given answer.
    pub fn new(answer: &str, is_difficult: bool) -> (g: GameInfo)
        requires
            is_upper_word(answer@),
            answer@.len() >= 1,
        ensures
            g.wf(),
            g.answer_view() == answer@,
            g.history_view() =~= Seq::<(Seq<char>, Seq<char>)>::empty(),
            g.status_view() == GameStatus::Running,
            g.difficult_view() == is_difficult,
            g.keyboard_view() =~= Seq::new(26, |i: int| 'X'),
    {
        let g = GameInfo {
            keyboard_status: vec!['X'; 26],
            guess_answer: str_to_chars(answer),
            guess_history: Vec::new(),
            game_status: GameStatus::Running,
            is_difficult,
        };
        proof {
            assert(g.history_view() =~= Seq::<(Seq<char>, Seq<char>)>::empty());
        }
        g
    }

    /// Whether more guesses may be submitted.
    pub fn game_is_running(&self) -> (r: bool)
        ensures
            r == (self.status_view() is Running),
    {
        match self.game_status {
            GameStatus::Running => true,
            _ => false,
        }
    }

    /// Merge one observed color into one keyboard slot.
    fn change_keyboard_status(&mut self, idx: usize, val: char)
        requires
            old(self).keyboard_status@.len() == 26,
            idx < 26,
            is_color(val),
            is_color(old(self).keyboard_status@[idx as int]),
        ensures
            final(self).keyboard_status@ == old(self).keyboard_status@.update(
                idx as int,
                spec_merge_color(old(self).keyboard_status@[idx as int], val),
            ),
            final(self).guess_answer == old(self).guess_answer,
            final(self).guess_history == old(self).guess_history,
            final(self).game_status == old(self).game_status,
            final(self).is_difficult == old(self).is_difficult,
    {
        let merged = merge_color(self.keyboard_status[idx], val);
        self.keyboard_status[idx] = merged;
    }

    /// Whether a candidate honors the previous round under hard
    /// mode; trivially true when hard mode is off or no guess was
    /// made yet.
    pub fn difficult_vaild(&self, user_input: &str) -> (r: bool)
        requires
            self.wf(),
            is_upper_word(user_input@),
            user_input@.len() == self.answer_view().len(),
        ensures
            r == self.hard_mode_allows(user_input@),
    {
        if !self.is_difficult {
            return true;
        }
        if self.guess_history.len() == 0 {
            proof {
                assert(self.history_view().len() == 0);
            }
            return true;
        }
        let cand = str_to_chars(user_input);
        let last = self.guess_history.len() - 1;
        let prev = &self.guess_history[last];
        proof {
            assert(self.history_view()[last as int].0 == prev.0@);
            assert(self.history_view()[last as int].1 == prev.1@);
            assert(self.history_view().last() == self.history_view()[last as int]);
            assert(prev.1@.len() == prev.0@.len()) by {
                assert(self.history_view()[last as int].1 == spec_score(
                    self.answer_view(),
                    self.history_view()[last as int].0,
                ));
            }
        }
        check_hard_mode(&prev.0, &prev.1, &cand)
    }

    /// Submit one guess.
    ///
    /// An unacceptable word (wrong length, wrong characters, or not
    /// in the dictionary) is rejected as such; an acceptable word
    /// that breaks hard mode is rejected for that; a rejection leaves
    /// the session unchanged and costs no attempt. An accepted guess
    /// is scored, appended to the history, merged into the keyboard,
    /// and decides the status: won on an all-exact score, lost when
    /// this was the sixth attempt, running otherwise.
    pub fn make_guess(&mut self, user_input: &str, dict: &WordDict) -> (r: Result<
        Vec<char>,
        IllegalGuess,
    >)
        requires
            old(self).wf(),
            old(self).status_view() is Running,
        ensures
            final(self).wf(),
            r is Ok <==> old(self).guess_acceptable(user_input@, dict) && old(
                self,
            ).hard_mode_allows(user_input@),
            r == Err::<Vec<char>, IllegalGuess>(IllegalGuess::NotAcceptable) <==> !old(
                self,
            ).guess_acceptable(user_input@, dict),
            r == Err::<Vec<char>, IllegalGuess>(IllegalGuess::HardModeViolation) <==> old(
                self,
            ).guess_acceptable(user_input@, dict) && !old(self).hard_mode_allows(user_input@),
            r is Err ==> *final(self) == *old(self),
            r matches Ok(sc) ==> sc@ == spec_score(old(self).answer_view(), user_input@),
            r is Ok ==> final(self).history_view() == old(self).history_view().push(
                (user_input@, spec_score(old(self).answer_view(), user_input@)),
            ),
            r is Ok ==> final(self).keyboard_view() == keyboard_after(
                old(self).keyboard_view(),
                user_input@,
                spec_score(old(self).answer_view(), user_input@),
                user_input@.len() as int,
            ),
            r is Ok ==> forall|s: int|
                0 <= s < 26 ==> color_rank(#[trigger] final(self).keyboard_view()[s])
                    >= color_rank(old(self).keyboard_view()[s]),
            r is Ok ==> final(self).status_view() == next_status(
                spec_score(old(self).answer_view(), user_input@),
                old(self).history_view().len() as int + 1,
            ),
            final(self).answer_view() == old(self).answer_view(),
            final(self).difficult_view() == old(self).difficult_view(),
    {
        let cand = str_to_chars(user_input);
        let acceptable = cand.len() == self.guess_answer.len() && check_upper_word(user_input)
            && dict.vaild(user_input);
        if !acceptable {
            return Err(IllegalGuess::NotAcceptable);
        }
        if !self.difficult_vaild(user_input) {
            return Err(IllegalGuess::HardModeViolation);
        }
        let sc = score_guess(&self.guess_answer, &cand);
        proof {
            crate::score::lemma_score_pointwise(self.guess_answer@, cand@);
        }
        let ghost kb0 = self.keyboard_status@;
        let ghost hist0 = self.guess_history@;
        let ghost ans0 = self.guess_answer@;
        let ghost stat0 = self.game_status;
        let ghost diff0 = self.is_difficult;
        let len = cand.len();
        let mut i: usize = 0;
        while i < len
            invariant
                len == cand@.len(),
                sc@.len() == len,
                sc@ == spec_score(ans0, cand@),
                is_upper_word(cand@),
                forall|j: int| 0 <= j < len ==> is_score_color(#[trigger] sc@[j]),
                i <= len,
                kb0.len() == 26,
                forall|s: int| 0 <= s < 26 ==> is_color(#[trigger] kb0[s]),
                self.keyboard_status@.len() == 26,
                forall|s: int| 0 <= s < 26 ==> is_color(#[trigger] self.keyboard_status@[s]),
                self.keyboard_status@ == keyboard_after(kb0, cand@, sc@, i as int),
                self.guess_history@ == hist0,
                self.guess_answer@ == ans0,
                self.game_status == stat0,
                self.is_difficult == diff0,
            decreases len - i,
        {
            let k = slot_of(cand[i]);
            self.change_keyboard_status(k, sc[i]);
            i += 1;
        }
        let mut flag = true;
        let mut i: usize = 0;
        while i < len
            invariant
                len == sc@.len(),
                i <= len,
                flag == (forall|j: int| 0 <= j < i ==> #[trigger] sc@[j] == 'G'),
            decreases len - i,
        {
            flag = flag && sc[i] == 'G';
            i += 1;
        }
        let sc_hist = copy_chars(&sc);
        self.guess_history.push((cand, sc_hist));
        proof {
            assert(self.history_view() =~= view_history(hist0).push(
                (user_input@, spec_score(ans0, user_input@)),
            ));
        }
        if flag {
            self.game_status = GameStatus::Success;
        } else if self.guess_history.len() == GUESS_CHANCE {
            self.game_status = GameStatus::Fail;
        }
        proof {
            lemma_keyboard_monotone(kb0, user_input@, spec_score(ans0, user_input@), len as int);
        }
        Ok(sc)
    }

    /// The plain progress line: the last guess's colors, a space,
    /// then the 26 keyboard entries.
    pub open spec fn spec_status_line(&self) -> Seq<char> {
        self.history_view().last().1 + seq![' '] + self.keyboard_view()
    }

    /// The plain terminal line: "CORRECT " and the number of guesses
    /// on a win, "FAILED " and the answer on a loss.
    pub open spec fn spec_result_line(&self) -> Seq<char>
        recommends
            !(self.status_view() is Running),
    {
        if self.status_view() is Success {
            seq!['C', 'O', 'R', 'R', 'E', 'C', 'T', ' ', (self.history_view().len() + 48) as char]
        } else {
            seq!['F', 'A', 'I', 'L', 'E', 'D', ' '] + self.answer_view()
        }
    }

    /// Render the progress line of the most recent guess, as printed
    /// in plain (non-terminal) mode.
    pub fn plain_status_line(&self) -> (r: Vec<char>)
        requires
            self.wf(),
            self.history_view().len() > 0,
        ensures
            r@ == self.spec_status_line(),
    {
        let last = self.guess_history.len() - 1;
        proof {
            assert(self.history_view().last() == self.history_view()[last as int]);
            assert(self.history_view()[last as int].1 == self.guess_history@[last as int].1@);
        }
        let mut r = copy_chars(&self.guess_history[last].1);
        r.push(' ');
        let mut i: usize = 0;
        while i < 26
            invariant
                i <= 26,
                self.keyboard_status@.len() == 26,
                r@ == self.guess_history@[self.guess_history@.len() - 1].1@ + seq![' ']
                    + self.keyboard_status@.subrange(0, i as int),
            decreases 26 - i,
        {
            r.push(self.keyboard_status[i]);
            proof {
                assert(r@ =~= self.guess_history@[self.guess_history@.len() - 1].1@ + seq![' ']
                    + self.keyboard_status@.subrange(0, i + 1));
            }
            i += 1;
        }
        proof {
            assert(self.keyboard_status@.subrange(0, 26) =~= self.keyboard_status@);
            assert(r@ =~= self.spec_status_line());
        }
        r
    }

    /// Render the terminal line of a finished session, as printed in
    /// plain (non-terminal) mode; a running session has none.
    pub fn plain_result_line(&self) -> (r: Option<Vec<char>>)
        requires
            self.wf(),
        ensures
            r is Some <==> !(self.status_view() is Running),
            r matches Some(v) ==> v@ == self.spec_result_line(),
    {
        match self.game_status {
            GameStatus::Running => None,
            GameStatus::Success => {
                let mut v: Vec<char> = Vec::new();
                v.push('C');
                v.push('O');
                v.push('R');
                v.push('R');
                v.push('E');
                v.push('C');
                v.push('T');
                v.push(' ');
                let n = self.guess_history.len();
                v.push(((n as u8) + 48) as char);
                proof {
                    assert(v@ =~= self.spec_result_line());
                }
                Some(v)
            },
            GameStatus::Fail => {
                let mut v: Vec<char> = Vec::new();
                v.push('F');
                v.push('A');
                v.push('I');
                v.push('L');
                v.push('E');
                v.push('D');
                v.push(' ');
                let n = self.guess_answer.len();
                let mut i: usize = 0;
                while i < n
                    invariant
                        n == self.guess_answer@.len(),
                        i <= n,
                        v@ == seq!['F', 'A', 'I', 'L', 'E', 'D', ' ']
                            + self.guess_answer@.subrange(0, i as int),
                    decreases n - i,
                {
                    v.push(self.guess_answer[i]);
                    proof {
                        assert(v@ =~= seq!['F', 'A', 'I', 'L', 'E', 'D', ' ']
                            + self.guess_answer@.subrange(0, i + 1));
                    }
                    i += 1;
                }
                proof {
                    assert(self.guess_answer@.subrange(0, n as int) =~= self.guess_answer@);
                    assert(v@ =~= self.spec_result_line());
                }
                Some(v)
            },
        }
    }

    /// The session status.
    pub fn status(&self) -> (s: GameStatus)
        ensures
            s == self.status_view(),
    {
        self.game_status
    }

    /// The keyboard entries, 'A' first.
    pub fn keyboard(&self) -> (k: &Vec<char>)
        ensures
            k@ == self.keyboard_view(),
    {
        &self.keyboard_status
    }

    /// The hidden answer.
    pub fn answer(&self) -> (a: &Vec<char>)
        ensures
            a@ == self.answer_view(),
    {
        &self.guess_answer
    }

    /// Number of accepted guesses so far.
    pub fn history_len(&self) -> (n: usize)
        ensures
            n == self.history_view().len(),
    {
        self.guess_history.len()
    }

    /// One accepted guess and its score.
    pub fn history_at(&self, i: usize) -> (p: &(Vec<char>, Vec<char>))
        requires
            i < self.history_view().len(),
        ensures
            p.0@ == self.history_view()[i as int].0,
            p.1@ == self.history_view()[i as int].1,
    {
        &self.guess_history[i]
    }
}

} // verus!
