//! The scoring engine: color one guess against the answer, letter by
//! letter, with multiset accounting for repeated letters.
//!
//! Exact matches are reserved first: a letter of the answer that is
//! matched in place is never also credited as "present" at another
//! position. A position that agrees with the answer is 'G'; otherwise
//! it is 'Y' while unclaimed occurrences of its letter remain in the
//! answer, and 'R' once they are used up.

use vstd::prelude::*;
use crate::word::{is_upper_word, letter_slot, slot_letter, slot_of};

verus! {

/// Number of positions `j < n` where `s` holds the letter `c`.
pub open spec fn letter_count(s: Seq<char>, c: char, n: int) -> int
    recommends
        n <= s.len(),
    decreases n,
{
    if n <= 0 {
        0
    } else {
        letter_count(s, c, n - 1) + if s[n - 1] == c {
            1int
        } else {
            0int
        }
    }
}

/// Number of positions `j < n` where guess and answer agree on the
/// letter `c`.
pub open spec fn exact_count(answer: Seq<char>, guess: Seq<char>, c: char, n: int) -> int
    recommends
        n <= answer.len(),
        n <= guess.len(),
    decreases n,
{
    if n <= 0 {
        0
    } else {
        exact_count(answer, guess, c, n - 1) + if guess[n - 1] == c && answer[n - 1] == c {
            1int
        } else {
            0int
        }
    }
}

/// Number of positions `j < n` where the guess holds `c` but the
/// answer holds a different letter there.
pub open spec fn miss_count(answer: Seq<char>, guess: Seq<char>, c: char, n: int) -> int
    recommends
        n <= answer.len(),
        n <= guess.len(),
    decreases n,
{
    if n <= 0 {
        0
    } else {
        miss_count(answer, guess, c, n - 1) + if guess[n - 1] == c && answer[n - 1] != c {
            1int
        } else {
            0int
        }
    }
}

/// Occurrences of `c` in the answer that are left for "present"
/// credits once every exact match of `c` has reserved one.
pub open spec fn avail_count(answer: Seq<char>, guess: Seq<char>, c: char) -> int {
    letter_count(answer, c, answer.len() as int) - exact_count(
        answer,
        guess,
        c,
        answer.len() as int,
    )
}

/// The color of guess position `i`: exact matches are 'G'; a
/// mismatched position is 'Y' exactly while the mismatches of its
/// letter before it have not used up the letter's available
/// occurrences, and 'R' after that.
pub open spec fn score_color_at(answer: Seq<char>, guess: Seq<char>, i: int) -> char
    recommends
        answer.len() == guess.len(),
        0 <= i < guess.len(),
{
    if guess[i] == answer[i] {
        'G'
    } else if miss_count(answer, guess, guess[i], i) < avail_count(answer, guess, guess[i]) {
        'Y'
    } else {
        'R'
    }
}

/// The whole score vector of a guess.
pub open spec fn spec_score(answer: Seq<char>, guess: Seq<char>) -> Seq<char> {
    Seq::new(guess.len(), |i: int| score_color_at(answer, guess, i))
}

pub proof fn lemma_letter_count_bounds(s: Seq<char>, c: char, n: int)
    requires
        0 <= n <= s.len(),
    ensures
        0 <= letter_count(s, c, n) <= n,
    decreases n,
{
    if n > 0 {
        lemma_letter_count_bounds(s, c, n - 1);
    }
}

pub proof fn lemma_letter_count_mono(s: Seq<char>, c: char, n: int, m: int)
    requires
        0 <= n <= m <= s.len(),
    ensures
        letter_count(s, c, n) <= letter_count(s, c, m),
    decreases m,
{
    if n < m {
        lemma_letter_count_mono(s, c, n, m - 1);
    }
}

pub proof fn lemma_exact_le_letter(answer: Seq<char>, guess: Seq<char>, c: char, n: int)
    requires
        0 <= n,
        n <= answer.len(),
        n <= guess.len(),
    ensures
        0 <= exact_count(answer, guess, c, n) <= letter_count(answer, c, n),
    decreases n,
{
    if n > 0 {
        lemma_exact_le_letter(answer, guess, c, n - 1);
    }
}

/// Every guess position holding `c` is either an exact match or a
/// miss, so the two counts split the letter's occurrences in the
/// guess.
pub proof fn lemma_exact_plus_miss(answer: Seq<char>, guess: Seq<char>, c: char, n: int)
    requires
        0 <= n,
        n <= answer.len(),
        n <= guess.len(),
    ensures
        exact_count(answer, guess, c, n) + miss_count(answer, guess, c, n) == letter_count(
            guess,
            c,
            n,
        ),
        0 <= miss_count(answer, guess, c, n),
    decreases n,
{
    if n > 0 {
        lemma_exact_plus_miss(answer, guess, c, n - 1);
    }
}

/// Number of positions `j < n` where answer and guess agree.
pub open spec fn agree_count(answer: Seq<char>, guess: Seq<char>, n: int) -> int
    recommends
        n <= answer.len(),
        n <= guess.len(),
    decreases n,
{
    if n <= 0 {
        0
    } else {
        agree_count(answer, guess, n - 1) + if guess[n - 1] == answer[n - 1] {
            1int
        } else {
            0int
        }
    }
}

/// Number of positions `j < n` where the guess holds `c` and the
/// score credits it, as an exact or a present match.
pub open spec fn credit_count(score: Seq<char>, guess: Seq<char>, c: char, n: int) -> int
    recommends
        n <= score.len(),
        n <= guess.len(),
    decreases n,
{
    if n <= 0 {
        0
    } else {
        credit_count(score, guess, c, n - 1) + if guess[n - 1] == c && score[n - 1] != 'R' {
            1int
        } else {
            0int
        }
    }
}

/// A position's color is 'G' exactly where guess and answer agree,
/// and every color of a score is one of 'G', 'Y', 'R'.
pub proof fn lemma_score_pointwise(answer: Seq<char>, guess: Seq<char>)
    requires
        answer.len() == guess.len(),
    ensures
        forall|i: int|
            0 <= i < guess.len() ==> ((#[trigger] spec_score(answer, guess)[i] == 'G') <==> guess[i]
                == answer[i]),
        forall|i: int|
            0 <= i < guess.len() ==> crate::color::is_score_color(
                #[trigger] spec_score(answer, guess)[i],
            ),
{
}

/// The score has exactly as many 'G' entries as there are positions
/// where answer and guess agree.
pub proof fn lemma_score_exact_count(answer: Seq<char>, guess: Seq<char>, n: int)
    requires
        answer.len() == guess.len(),
        0 <= n <= guess.len(),
    ensures
        letter_count(spec_score(answer, guess), 'G', n) == agree_count(answer, guess, n),
    decreases n,
{
    if n > 0 {
        lemma_score_exact_count(answer, guess, n - 1);
    }
}

/// How the credits of a letter grow along the score: one per exact
/// match, plus one per miss until the letter's available occurrences
/// run out.
proof fn lemma_credit_shape(answer: Seq<char>, guess: Seq<char>, c: char, n: int)
    requires
        answer.len() == guess.len(),
        0 <= n <= guess.len(),
    ensures
        credit_count(spec_score(answer, guess), guess, c, n) == exact_count(answer, guess, c, n)
            + if miss_count(answer, guess, c, n) < avail_count(answer, guess, c) {
            miss_count(answer, guess, c, n)
        } else {
            avail_count(answer, guess, c)
        },
    decreases n,
{
    lemma_exact_le_letter(answer, guess, c, answer.len() as int);
    lemma_exact_plus_miss(answer, guess, c, n);
    if n > 0 {
        lemma_credit_shape(answer, guess, c, n - 1);
        lemma_exact_plus_miss(answer, guess, c, n - 1);
    }
}

/// The multiplicity law: a letter appearing `k` times in the answer
/// and `m` times in the guess is credited ('G' or 'Y') at most
/// `min(k, m)` times, with exact matches served first.
pub proof fn lemma_score_multiplicity(answer: Seq<char>, guess: Seq<char>, c: char)
    requires
        answer.len() == guess.len(),
    ensures
        credit_count(spec_score(answer, guess), guess, c, guess.len() as int) <= letter_count(
            answer,
            c,
            answer.len() as int,
        ),
        credit_count(spec_score(answer, guess), guess, c, guess.len() as int) <= letter_count(
            guess,
            c,
            guess.len() as int,
        ),
{
    let n = guess.len() as int;
    lemma_credit_shape(answer, guess, c, n);
    lemma_exact_le_letter(answer, guess, c, n);
    lemma_exact_plus_miss(answer, guess, c, n);
}

/// The count left in a letter's slot midway through the coloring
/// pass: the available occurrences minus one per miss seen so far,
/// stopping at zero.
pub open spec fn remaining_count(answer: Seq<char>, guess: Seq<char>, c: char, i: int) -> int {
    let left = avail_count(answer, guess, c) - miss_count(answer, guess, c, i);
    if left >= 0 {
        left
    } else {
        0
    }
}

/// Compute the score vector of `guess` against `answer`.
///
/// First every letter of the answer is counted; then each exact match
/// reserves one occurrence of its letter; then positions are colored
/// left to right, each 'Y' consuming one of the occurrences that are
/// left.
pub fn score_guess(answer: &Vec<char>, guess: &Vec<char>) -> (r: Vec<char>)
    requires
        answer@.len() == guess@.len(),
        is_upper_word(answer@),
        is_upper_word(guess@),
    ensures
        r@ == spec_score(answer@, guess@),
{
    let len = answer.len();
    let ghost a = answer@;
    let ghost g = guess@;
    let mut cnt: Vec<usize> = vec![0; 26];
    let mut i: usize = 0;
    while i < len
        invariant
            len == a.len() == g.len(),
            is_upper_word(a),
            is_upper_word(g),
            answer@ == a,
            guess@ == g,
            i <= len,
            cnt@.len() == 26,
            forall|s: int|
                0 <= s < 26 ==> #[trigger] cnt@[s] == letter_count(a, slot_letter(s), i as int),
        decreases len - i,
    {
        let k = slot_of(answer[i]);
        proof {
            crate::word::lemma_slot_of_letter_unique(a[i as int]);
            lemma_letter_count_bounds(a, slot_letter(k as int), i as int);
        }
        let c0 = cnt[k];
        cnt[k] = c0 + 1;
        i += 1;
    }
    let mut i: usize = 0;
    while i < len
        invariant
            len == a.len() == g.len(),
            is_upper_word(a),
            is_upper_word(g),
            answer@ == a,
            guess@ == g,
            i <= len,
            cnt@.len() == 26,
            forall|s: int|
                0 <= s < 26 ==> #[trigger] cnt@[s] == letter_count(a, slot_letter(s), len as int)
                    - exact_count(a, g, slot_letter(s), i as int),
        decreases len - i,
    {
        if guess[i] == answer[i] {
            let k = slot_of(guess[i]);
            proof {
                crate::word::lemma_slot_of_letter_unique(g[i as int]);
                lemma_exact_le_letter(a, g, slot_letter(k as int), i + 1);
                lemma_letter_count_mono(a, slot_letter(k as int), i + 1, len as int);
            }
            let c0 = cnt[k];
            cnt[k] = c0 - 1;
        }
        i += 1;
    }
    let mut res: Vec<char> = Vec::new();
    let mut i: usize = 0;
    while i < len
        invariant
            len == a.len() == g.len(),
            is_upper_word(a),
            is_upper_word(g),
            answer@ == a,
            guess@ == g,
            i <= len,
            cnt@.len() == 26,
            res@.len() == i,
            forall|j: int| 0 <= j < i ==> #[trigger] res@[j] == score_color_at(a, g, j),
            forall|s: int|
                0 <= s < 26 ==> #[trigger] cnt@[s] == remaining_count(a, g, slot_letter(s), i as int),
        decreases len - i,
    {
        let k = slot_of(guess[i]);
        proof {
            crate::word::lemma_slot_of_letter_unique(g[i as int]);
            lemma_exact_plus_miss(a, g, slot_letter(k as int), i as int);
        }
        if guess[i] == answer[i] {
            res.push('G');
        } else if cnt[k] > 0 {
            let c0 = cnt[k];
            cnt[k] = c0 - 1;
            res.push('Y');
        } else {
            res.push('R');
        }
        i += 1;
    }
    proof {
        assert(res@ =~= spec_score(a, g));
    }
    res
}

} // verus!
