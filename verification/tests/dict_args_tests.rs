use wordle::args::Args;
use wordle::dict::{DictError, WordDict};
use wordle::pick::select_order;

fn strings(words: &[&str]) -> Vec<String> {
    words.iter().map(|w| w.to_string()).collect()
}

#[test]
fn build_accepts_clean_lists() {
    let mut d = WordDict::new();
    let r = d.build(strings(&["ROBOT"]), strings(&["ROBOT", "CRANE"]));
    assert_eq!(r, Ok(()));
    assert!(d.vaild("ROBOT"));
    assert!(d.vaild("CRANE"));
    assert!(!d.vaild("PANEL"));
}

#[test]
fn build_rejects_repeated_acceptable_word() {
    let mut d = WordDict::new();
    let r = d.build(strings(&["ROBOT"]), strings(&["ROBOT", "ROBOT"]));
    assert_eq!(r, Err(DictError::RepeatedAcceptable));
}

#[test]
fn build_rejects_repeated_final_word() {
    let mut d = WordDict::new();
    let r = d.build(strings(&["ROBOT", "ROBOT"]), strings(&["ROBOT", "CRANE"]));
    assert_eq!(r, Err(DictError::RepeatedFinal));
}

#[test]
fn build_rejects_final_word_outside_acceptable() {
    let mut d = WordDict::new();
    let r = d.build(strings(&["PANEL"]), strings(&["ROBOT", "CRANE"]));
    assert_eq!(r, Err(DictError::FinalNotSubset));
}

#[test]
fn conflicts_between_word_and_random() {
    let mut a = Args {
        word: Some("ROBOT".to_string()),
        random: true,
        difficult: false,
        stats: false,
        day: None,
        seed: None,
        final_set: None,
        acceptable_set: None,
        state: None,
        config: None,
    };
    assert!(a.have_conflicts());
    a.random = false;
    assert!(!a.have_conflicts());
    a.day = Some(3);
    assert!(a.have_conflicts());
    a.day = None;
    a.seed = Some(7);
    assert!(a.have_conflicts());
    a.word = None;
    assert!(!a.have_conflicts());
}

#[test]
fn update_fills_only_unset_values() {
    let mut a = Args {
        word: Some("ROBOT".to_string()),
        random: false,
        difficult: true,
        stats: false,
        day: None,
        seed: Some(1),
        final_set: None,
        acceptable_set: None,
        state: None,
        config: None,
    };
    let from_file = Args {
        word: Some("CRANE".to_string()),
        random: true,
        difficult: false,
        stats: true,
        day: Some(4),
        seed: Some(9),
        final_set: Some("final.txt".to_string()),
        acceptable_set: None,
        state: Some("state.json".to_string()),
        config: None,
    };
    a.update(from_file);
    assert_eq!(a.word, Some("ROBOT".to_string()));
    assert!(a.random);
    assert!(a.difficult);
    assert!(a.stats);
    assert_eq!(a.day, Some(4));
    assert_eq!(a.seed, Some(1));
    assert_eq!(a.final_set, Some("final.txt".to_string()));
    assert_eq!(a.acceptable_set, None);
    assert_eq!(a.state, Some("state.json".to_string()));
    assert_eq!(a.config, None);
}

#[test]
fn select_order_is_a_permutation() {
    let order = select_order(10, 42);
    assert_eq!(order.len(), 10);
    let mut sorted = order.clone();
    sorted.sort();
    assert_eq!(sorted, (0..10).collect::<Vec<usize>>());
}

#[test]
fn select_order_of_nothing_is_empty() {
    let order = select_order(0, 42);
    assert!(order.is_empty());
}
