//! The word lists: the words a session may use as answers and the
//! words a player may guess, with membership lookup and the checks a
//! freshly supplied pair of lists must pass.

use vstd::prelude::*;
use crate::word::str_eq;

verus! {

/// Why a pair of word lists was rejected.
#[derive(Clone, Copy, PartialEq, Eq, Structural, Debug)]
pub enum DictError {
    /// The acceptable-word list names a word twice.
    RepeatedAcceptable,
    /// The answer-word list names a word twice.
    RepeatedFinal,
    /// Some answer word is not an acceptable word.
    FinalNotSubset,
}

/// The words of a list of strings, character-wise.
pub open spec fn view_words(list: Seq<String>) -> Seq<Seq<char>> {
    list.map_values(|x: String| x@)
}

/// No word occurs twice in the list.
pub open spec fn distinct_words(words: Seq<Seq<char>>) -> bool {
    forall|i: int, j: int| 0 <= i < j < words.len() ==> #[trigger] words[i] != #[trigger] words[j]
}

/// Every word of `sub` occurs in `sup`.
pub open spec fn words_subset(sub: Seq<Seq<char>>, sup: Seq<Seq<char>>) -> bool {
    forall|i: int| 0 <= i < sub.len() ==> sup.contains(#[trigger] sub[i])
}

/// The two word lists of a game: the words answers are drawn from
/// (`final_list`) and the words a player may guess.
pub struct WordDict {
    pub final_list: Vec<String>,
    pub acceptable_list: Vec<String>,
}

/// Whether `list` holds a word whose characters are `w`.
fn list_contains(list: &Vec<String>, w: &str) -> (r: bool)
    ensures
        r == view_words(list@).contains(w@),
{
    let ghost words = view_words(list@);
    let n = list.len();
    let mut i: usize = 0;
    while i < n
        invariant
            n == list@.len(),
            i <= n,
            words == view_words(list@),
            forall|j: int| 0 <= j < i ==> #[trigger] words[j] != w@,
        decreases n - i,
    {
        if str_eq(list[i].as_str(), w) {
            proof {
                assert(words[i as int] == w@);
            }
            return true;
        }
        i += 1;
    }
    proof {
        assert(forall|j: int| 0 <= j < words.len() ==> #[trigger] words[j] != w@);
    }
    false
}

/// Whether no word occurs twice in `list`.
fn list_distinct(list: &Vec<String>) -> (r: bool)
    ensures
        r == distinct_words(view_words(list@)),
{
    let ghost words = view_words(list@);
    let n = list.len();
    let mut i: usize = 0;
    while i < n
        invariant
            n == list@.len(),
            i <= n,
            words == view_words(list@),
            forall|p: int, q: int|
                0 <= p < i && p < q < n ==> #[trigger] words[p] != #[trigger] words[q],
        decreases n - i,
    {
        let mut j: usize = i + 1;
        while j < n
            invariant
                n == list@.len(),
                i < j || i + 1 == j,
                i < n,
                j <= n,
                i + 1 <= j,
                words == view_words(list@),
                forall|p: int, q: int|
                    0 <= p < i && p < q < n ==> #[trigger] words[p] != #[trigger] words[q],
                forall|q: int| i < q < j ==> #[trigger] words[q] != words[i as int],
            decreases n - j,
        {
            if str_eq(list[i].as_str(), list[j].as_str()) {
                proof {
                    assert(words[i as int] == words[j as int]);
                }
                return false;
            }
            j += 1;
        }
        i += 1;
    }
    true
}

impl WordDict {
    /// The answer words, character-wise.
    pub open spec fn final_words(&self) -> Seq<Seq<char>> {
        view_words(self.final_list@)
    }

    /// The guessable words, character-wise.
    pub open spec fn acceptable_words(&self) -> Seq<Seq<char>> {
        view_words(self.acceptable_list@)
    }

    /// What `build` guarantees of a dictionary it accepted: both
    /// lists are duplicate-free and every answer word is guessable.
    pub open spec fn wf(&self) -> bool {
        distinct_words(self.acceptable_words()) && distinct_words(self.final_words())
            && words_subset(self.final_words(), self.acceptable_words())
    }

    /// An empty dictionary.
    pub fn new() -> (d: WordDict)
        ensures
            d.final_words() =~= Seq::<Seq<char>>::empty(),
            d.acceptable_words() =~= Seq::<Seq<char>>::empty(),
            d.final_list@.len() == 0,
            d.wf(),
    {
        WordDict { final_list: Vec::new(), acceptable_list: Vec::new() }
    }

    /// Whether the player may guess this word.
    pub fn vaild(&self, user_input: &str) -> (r: bool)
        ensures
            r == self.acceptable_words().contains(user_input@),
    {
        list_contains(&self.acceptable_list, user_input)
    }

    /// Install a freshly supplied pair of word lists, after checking
    /// that neither repeats a word and that every answer word is also
    /// an acceptable word. On rejection the dictionary is unchanged.
    pub fn build(&mut self, final_input: Vec<String>, acceptable_input: Vec<String>) -> (r: Result<
        (),
        DictError,
    >)
        ensures
            r == Err::<(), DictError>(DictError::RepeatedAcceptable) <==> !distinct_words(
                view_words(acceptable_input@),
            ),
            r == Err::<(), DictError>(DictError::RepeatedFinal) <==> distinct_words(
                view_words(acceptable_input@),
            ) && !distinct_words(view_words(final_input@)),
            r == Err::<(), DictError>(DictError::FinalNotSubset) <==> distinct_words(
                view_words(acceptable_input@),
            ) && distinct_words(view_words(final_input@)) && !words_subset(
                view_words(final_input@),
                view_words(acceptable_input@),
            ),
            r is Err ==> *final(self) == *old(self),
            r is Ok ==> final(self).final_words() == view_words(final_input@)
                && final(self).acceptable_words() == view_words(acceptable_input@)
                && final(self).wf(),
    {
        if !list_distinct(&acceptable_input) {
            return Err(DictError::RepeatedAcceptable);
        }
        if !list_distinct(&final_input) {
            return Err(DictError::RepeatedFinal);
        }
        let ghost fin = view_words(final_input@);
        let ghost acc = view_words(acceptable_input@);
        let n = final_input.len();
        let mut i: usize = 0;
        while i < n
            invariant
                n == final_input@.len(),
                i <= n,
                fin == view_words(final_input@),
                acc == view_words(acceptable_input@),
                distinct_words(acc),
                distinct_words(fin),
                forall|j: int| 0 <= j < i ==> acc.contains(#[trigger] fin[j]),
            decreases n - i,
        {
            if !list_contains(&acceptable_input, final_input[i].as_str()) {
                proof {
                    assert(!acc.contains(fin[i as int]));
                    assert(!words_subset(fin, acc));
                }
                return Err(DictError::FinalNotSubset);
            }
            i += 1;
        }
        self.final_list = final_input;
        self.acceptable_list = acceptable_input;
        Ok(())
    }
}

} // verus!
