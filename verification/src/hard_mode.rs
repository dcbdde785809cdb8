//! The hard-mode legality check: a new guess must honor everything the
//! previous guess revealed.
//!
//! Two rules, both over the previous guess and its score:
//! every position scored 'G' is pinned, the candidate must repeat its
//! letter there; and every letter scored 'Y' somewhere must reappear
//! in the candidate at least as often, counting only candidate
//! positions that are not pinned.

use vstd::prelude::*;
use crate::word::{is_upper_letter, is_upper_word, letter_slot, slot_letter, slot_of};

verus! {

/// Every position the previous score pinned ('G') carries the same
/// letter in the candidate.
pub open spec fn pins_respected(prev_guess: Seq<char>, prev_score: Seq<char>, cand: Seq<char>) -> bool {
    forall|i: int|
        0 <= i < prev_guess.len() ==> (prev_score[i] == 'G' ==> cand[i] == #[trigger] prev_guess[i])
}

/// Number of positions `j < n` of the previous guess that hold `c`
/// and were scored 'Y': occurrences of `c` the candidate owes.
pub open spec fn required_count(prev_guess: Seq<char>, prev_score: Seq<char>, c: char, n: int) -> int
    recommends
        n <= prev_guess.len(),
        n <= prev_score.len(),
    decreases n,
{
    if n <= 0 {
        0
    } else {
        required_count(prev_guess, prev_score, c, n - 1) + if prev_guess[n - 1] == c && prev_score[
            n - 1
        ] == 'Y' {
            1int
        } else {
            0int
        }
    }
}

/// Number of positions `j < n` of the candidate that hold `c` outside
/// the pinned ('G') positions of the previous score.
pub open spec fn available_count(cand: Seq<char>, prev_score: Seq<char>, c: char, n: int) -> int
    recommends
        n <= cand.len(),
        n <= prev_score.len(),
    decreases n,
{
    if n <= 0 {
        0
    } else {
        available_count(cand, prev_score, c, n - 1) + if cand[n - 1] == c && prev_score[n - 1]
            != 'G' {
            1int
        } else {
            0int
        }
    }
}

/// Every letter owed by the previous round reappears often enough.
pub open spec fn multiplicity_respected(
    prev_guess: Seq<char>,
    prev_score: Seq<char>,
    cand: Seq<char>,
) -> bool {
    forall|c: char|
        required_count(prev_guess, prev_score, c, prev_guess.len() as int) <= #[trigger]
        available_count(cand, prev_score, c, cand.len() as int)
}

/// The whole hard-mode rule.
pub open spec fn hard_mode_ok(prev_guess: Seq<char>, prev_score: Seq<char>, cand: Seq<char>) -> bool {
    pins_respected(prev_guess, prev_score, cand) && multiplicity_respected(
        prev_guess,
        prev_score,
        cand,
    )
}

proof fn lemma_required_count_bounds(prev_guess: Seq<char>, prev_score: Seq<char>, c: char, n: int)
    requires
        0 <= n,
        n <= prev_guess.len(),
        n <= prev_score.len(),
    ensures
        0 <= required_count(prev_guess, prev_score, c, n) <= n,
    decreases n,
{
    if n > 0 {
        lemma_required_count_bounds(prev_guess, prev_score, c, n - 1);
    }
}

proof fn lemma_available_count_bounds(cand: Seq<char>, prev_score: Seq<char>, c: char, n: int)
    requires
        0 <= n,
        n <= cand.len(),
        n <= prev_score.len(),
    ensures
        0 <= available_count(cand, prev_score, c, n) <= n,
    decreases n,
{
    if n > 0 {
        lemma_available_count_bounds(cand, prev_score, c, n - 1);
    }
}

/// A letter that never occurs in the previous guess is not owed.
proof fn lemma_required_count_absent(prev_guess: Seq<char>, prev_score: Seq<char>, c: char, n: int)
    requires
        0 <= n,
        n <= prev_guess.len(),
        n <= prev_score.len(),
        is_upper_word(prev_guess),
        !is_upper_letter(c),
    ensures
        required_count(prev_guess, prev_score, c, n) == 0,
    decreases n,
{
    if n > 0 {
        lemma_required_count_absent(prev_guess, prev_score, c, n - 1);
    }
}

/// Decide the hard-mode rule, mirroring its two parts: one pass over
/// the positions checks the pins and tallies owed and present letters,
/// then the 26 letter slots are compared.
pub fn check_hard_mode(prev_guess: &Vec<char>, prev_score: &Vec<char>, cand: &Vec<char>) -> (r:
    bool)
    requires
        prev_guess@.len() == prev_score@.len(),
        prev_guess@.len() == cand@.len(),
        is_upper_word(prev_guess@),
        is_upper_word(cand@),
    ensures
        r == hard_mode_ok(prev_guess@, prev_score@, cand@),
{
    let len = prev_guess.len();
    let ghost pg = prev_guess@;
    let ghost ps = prev_score@;
    let ghost cd = cand@;
    let mut required: Vec<usize> = vec![0; 26];
    let mut available: Vec<usize> = vec![0; 26];
    let mut i: usize = 0;
    while i < len
        invariant
            len == pg.len() == ps.len() == cd.len(),
            is_upper_word(pg),
            is_upper_word(cd),
            prev_guess@ == pg,
            prev_score@ == ps,
            cand@ == cd,
            i <= len,
            required@.len() == 26,
            available@.len() == 26,
            forall|j: int| 0 <= j < i ==> (ps[j] == 'G' ==> cd[j] == #[trigger] pg[j]),
            forall|s: int|
                0 <= s < 26 ==> #[trigger] required@[s] == required_count(
                    pg,
                    ps,
                    slot_letter(s),
                    i as int,
                ),
            forall|s: int|
                0 <= s < 26 ==> #[trigger] available@[s] == available_count(
                    cd,
                    ps,
                    slot_letter(s),
                    i as int,
                ),
        decreases len - i,
    {
        let pin = prev_score[i] == 'G';
        if pin && cand[i] != prev_guess[i] {
            return false;
        }
        proof {
            crate::word::lemma_slot_of_letter_unique(pg[i as int]);
            crate::word::lemma_slot_of_letter_unique(cd[i as int]);
            lemma_required_count_bounds(pg, ps, slot_letter(letter_slot(pg[i as int])), i as int);
            lemma_available_count_bounds(cd, ps, slot_letter(letter_slot(cd[i as int])), i as int);
        }
        if prev_score[i] == 'Y' {
            let k = slot_of(prev_guess[i]);
            let c0 = required[k];
            required[k] = c0 + 1;
        }
        if !pin {
            let k = slot_of(cand[i]);
            let c0 = available[k];
            available[k] = c0 + 1;
        }
        i += 1;
    }
    let mut s: usize = 0;
    while s < 26
        invariant
            len == pg.len() == ps.len() == cd.len(),
            is_upper_word(pg),
            is_upper_word(cd),
            prev_guess@ == pg,
            prev_score@ == ps,
            cand@ == cd,
            s <= 26,
            required@.len() == 26,
            available@.len() == 26,
            pins_respected(pg, ps, cd),
            forall|t: int|
                0 <= t < 26 ==> #[trigger] required@[t] == required_count(
                    pg,
                    ps,
                    slot_letter(t),
                    len as int,
                ),
            forall|t: int|
                0 <= t < 26 ==> #[trigger] available@[t] == available_count(
                    cd,
                    ps,
                    slot_letter(t),
                    len as int,
                ),
            forall|t: int|
                0 <= t < s ==> required_count(pg, ps, #[trigger] slot_letter(t), len as int)
                    <= available_count(cd, ps, slot_letter(t), len as int),
        decreases 26 - s,
    {
        if available[s] < required[s] {
            proof {
                let c = slot_letter(s as int);
                assert(required_count(pg, ps, c, pg.len() as int) > available_count(
                    cd,
                    ps,
                    c,
                    cd.len() as int,
                ));
                assert(!multiplicity_respected(pg, ps, cd));
            }
            return false;
        }
        s += 1;
    }
    proof {
        assert forall|c: char|
            required_count(pg, ps, c, pg.len() as int) <= #[trigger] available_count(
                cd,
                ps,
                c,
                cd.len() as int,
            ) by {
            if is_upper_letter(c) {
                crate::word::lemma_slot_of_letter_unique(c);
                assert(slot_letter(letter_slot(c)) == c);
            } else {
                lemma_required_count_absent(pg, ps, c, len as int);
                lemma_available_count_bounds(cd, ps, c, len as int);
            }
        }
    }
    true
}

} // verus!
