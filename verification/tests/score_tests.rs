use wordle::score::score_guess;

fn chars(s: &str) -> Vec<char> {
    s.chars().collect()
}

#[test]
fn all_exact_when_guess_is_answer() {
    let r = score_guess(&chars("ROBOT"), &chars("ROBOT"));
    assert_eq!(r, chars("GGGGG"));
}

#[test]
fn single_letter_credited_once() {
    // 'E' appears once in the answer, at the last position: only that
    // position may be credited.
    let r = score_guess(&chars("ABCDE"), &chars("EEEEE"));
    assert_eq!(r, chars("RRRRG"));
}

#[test]
fn exact_match_reserved_before_present() {
    // The 'A' of START is matched exactly at position 2, so the 'A'
    // at position 0 of the guess must not be credited as present.
    let r = score_guess(&chars("START"), &chars("ABAND"));
    assert_eq!(r, chars("RRGRR"));
}

#[test]
fn present_letters_elsewhere() {
    let r = score_guess(&chars("CRANE"), &chars("NACRE"));
    assert_eq!(r, chars("YYYYG"));
}

#[test]
fn repeated_guess_letter_limited_by_answer_count() {
    // Two 'L' in the guess, one 'L' in the answer: first mismatched
    // 'L' takes the credit, the second goes empty.
    let r = score_guess(&chars("PANEL"), &chars("LLAMA"));
    assert_eq!(r, chars("YRYRR"));
}

#[test]
fn repeated_answer_letter_allows_two_credits() {
    let r = score_guess(&chars("LEVEL"), &chars("EAGLE"));
    assert_eq!(r, chars("YRRYY"));
}

#[test]
fn no_letters_in_common() {
    let r = score_guess(&chars("ROBOT"), &chars("FUZZY"));
    assert_eq!(r, chars("RRRRR"));
}

#[test]
fn credited_occurrences_bounded_by_both_words() {
    // GEESE holds three 'E', LEVEL only two, and one of those two is
    // matched in place: at most one more 'E' may be credited.
    let answer = chars("LEVEL");
    let guess = chars("GEESE");
    let r = score_guess(&answer, &guess);
    for letter in 'A'..='Z' {
        let credited = guess
            .iter()
            .zip(r.iter())
            .filter(|(g, c)| **g == letter && **c != 'R')
            .count();
        let in_answer = answer.iter().filter(|a| **a == letter).count();
        let in_guess = guess.iter().filter(|g| **g == letter).count();
        assert!(credited <= in_answer.min(in_guess));
    }
    assert_eq!(r, chars("RGYRR"));
}

#[test]
fn exact_count_matches_agreements() {
    // The number of 'G' entries equals the number of agreeing
    // positions: only the 'O' at position 1 agrees.
    let r = score_guess(&chars("ROBOT"), &chars("TOOTS"));
    assert_eq!(r.iter().filter(|c| **c == 'G').count(), 1);
    assert_eq!(r, chars("YGYRR"));
}
