//! The letter model: words are sequences of uppercase ASCII letters
//! 'A'..='Z', and each letter has one of 26 counter slots.

use vstd::prelude::*;

verus! {

/// An uppercase ASCII letter.
pub open spec fn is_upper_letter(c: char) -> bool {
    65 <= c as u32 <= 90
}

/// Every character of the word is an uppercase ASCII letter.
pub open spec fn is_upper_word(s: Seq<char>) -> bool {
    forall|i: int| 0 <= i < s.len() ==> is_upper_letter(#[trigger] s[i])
}

/// The counter slot of a letter: 0 for 'A' through 25 for 'Z'.
pub open spec fn letter_slot(c: char) -> int
    recommends
        is_upper_letter(c),
{
    c as u32 - 65
}

/// Exec lookup of a letter's counter slot.
pub fn slot_of(c: char) -> (i: usize)
    requires
        is_upper_letter(c),
    ensures
        i == letter_slot(c),
        i < 26,
{
    (c as u32 as usize) - 65
}

/// The letter that owns a counter slot.
pub open spec fn slot_letter(i: int) -> char
    recommends
        0 <= i < 26,
{
    (i + 65) as char
}

/// Characters with the same code point are the same character.
pub proof fn lemma_char_code_injective(c1: char, c2: char)
    requires
        c1 as u32 == c2 as u32,
    ensures
        c1 == c2,
{
}

/// Code point and letter class of every slot's letter.
pub proof fn lemma_slot_letter_vals()
    ensures
        forall|s: int| 0 <= s < 26 ==> #[trigger] slot_letter(s) as u32 == s + 65,
        forall|s: int| 0 <= s < 26 ==> is_upper_letter(#[trigger] slot_letter(s)),
{
}

/// A letter is the letter of its own slot.
pub proof fn lemma_slot_letter_roundtrip(c: char)
    requires
        is_upper_letter(c),
    ensures
        0 <= letter_slot(c) < 26,
        slot_letter(letter_slot(c)) == c,
{
    lemma_slot_letter_vals();
    lemma_char_code_injective(slot_letter(letter_slot(c)), c);
}

/// The slot of the current letter is the only slot whose letter it is.
pub proof fn lemma_slot_of_letter_unique(c: char)
    requires
        is_upper_letter(c),
    ensures
        forall|s: int| 0 <= s < 26 ==> ((#[trigger] slot_letter(s) == c) <==> s == letter_slot(c)),
{
    lemma_slot_letter_vals();
    lemma_slot_letter_roundtrip(c);
}

/// Decide whether a string is a word of uppercase ASCII letters.
pub fn check_upper_word(s: &str) -> (r: bool)
    ensures
        r == is_upper_word(s@),
{
    let n = s.unicode_len();
    let mut i: usize = 0;
    while i < n
        invariant
            n == s@.len(),
            i <= n,
            forall|j: int| 0 <= j < i ==> is_upper_letter(#[trigger] s@[j]),
        decreases n - i,
    {
        let c = s.get_char(i);
        if c < 'A' || c > 'Z' {
            return false;
        }
        i += 1;
    }
    true
}

/// Copy a string's characters into a vector.
pub fn str_to_chars(s: &str) -> (v: Vec<char>)
    ensures
        v@ == s@,
{
    let n = s.unicode_len();
    let mut v: Vec<char> = Vec::new();
    let mut i: usize = 0;
    while i < n
        invariant
            n == s@.len(),
            i <= n,
            v@ == s@.subrange(0, i as int),
        decreases n - i,
    {
        v.push(s.get_char(i));
        proof {
            assert(v@ =~= s@.subrange(0, i + 1));
        }
        i += 1;
    }
    proof {
        assert(v@ =~= s@);
    }
    v
}

/// Copy a character vector.
pub fn copy_chars(v: &Vec<char>) -> (r: Vec<char>)
    ensures
        r@ == v@,
{
    let n = v.len();
    let mut r: Vec<char> = Vec::new();
    let mut i: usize = 0;
    while i < n
        invariant
            n == v@.len(),
            i <= n,
            r@ == v@.subrange(0, i as int),
        decreases n - i,
    {
        r.push(v[i]);
        proof {
            assert(r@ =~= v@.subrange(0, i + 1));
        }
        i += 1;
    }
    proof {
        assert(r@ =~= v@);
    }
    r
}

/// Character-wise string equality.
pub fn str_eq(a: &str, b: &str) -> (r: bool)
    ensures
        r == (a@ == b@),
{
    let n = a.unicode_len();
    let m = b.unicode_len();
    if n != m {
        proof {
            assert(a@ != b@);
        }
        return false;
    }
    let mut i: usize = 0;
    while i < n
        invariant
            n == a@.len(),
            n == b@.len(),
            i <= n,
            forall|j: int| 0 <= j < i ==> a@[j] == b@[j],
        decreases n - i,
    {
        if a.get_char(i) != b.get_char(i) {
            return false;
        }
        i += 1;
    }
    proof {
        assert(a@ =~= b@);
    }
    true
}

} // verus!
