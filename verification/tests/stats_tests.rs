use wordle::record::{Gamejson, Games};
use wordle::stats::Stats;

#[test]
fn fresh_stats_are_zero() {
    let s = Stats::new(None, None, None, None, None);
    assert_eq!(s.wins(), 0);
    assert_eq!(s.total(), 0);
    assert_eq!(s.attempts(), 0);
    assert!(s.get_top5_words().is_empty());
}

#[test]
fn add_game_counts_wins_and_attempts() {
    let mut s = Stats::new(None, None, None, None, None);
    s.add_guess("CRANE".to_string());
    s.add_guess("ROBOT".to_string());
    s.add_game(true);
    assert_eq!(s.wins(), 1);
    assert_eq!(s.total(), 1);
    assert_eq!(s.attempts(), 2);
    s.add_guess("CRANE".to_string());
    s.add_game(false);
    assert_eq!(s.wins(), 1);
    assert_eq!(s.total(), 2);
    // A lost game's guesses do not add to the win attempts.
    assert_eq!(s.attempts(), 2);
}

#[test]
fn top_words_sorted_by_count_then_word() {
    let mut s = Stats::new(None, None, None, None, None);
    for _ in 0..3 {
        s.add_guess("CHART".to_string());
    }
    for _ in 0..3 {
        s.add_guess("APPLE".to_string());
    }
    s.add_guess("BERRY".to_string());
    let top = s.get_top5_words();
    assert_eq!(
        top,
        vec![
            (-3, "APPLE".to_string()),
            (-3, "CHART".to_string()),
            (-1, "BERRY".to_string()),
        ]
    );
}

#[test]
fn top_words_truncated_to_five() {
    let mut s = Stats::new(None, None, None, None, None);
    let words = ["ALPHA", "BRAVO", "DELTA", "EAGLE", "FLAME", "GRAPE", "HOTEL"];
    for (k, w) in words.iter().enumerate() {
        for _ in 0..(k + 1) {
            s.add_guess(w.to_string());
        }
    }
    let top = s.get_top5_words();
    assert_eq!(top.len(), 5);
    assert_eq!(
        top,
        vec![
            (-7, "HOTEL".to_string()),
            (-6, "GRAPE".to_string()),
            (-5, "FLAME".to_string()),
            (-4, "EAGLE".to_string()),
            (-3, "DELTA".to_string()),
        ]
    );
}

#[test]
fn games_record_their_outcome() {
    let mut g = Games::new();
    g.set_answer("ROBOT".to_string());
    g.add_guess("CRANE".to_string());
    g.add_guess("ROBOT".to_string());
    assert!(g.check_result());
    assert_eq!(g.guesses_number(), 2);
    assert_eq!(g.get_guesses(), vec!["CRANE".to_string(), "ROBOT".to_string()]);

    let mut lost = Games::new();
    lost.set_answer("PANEL".to_string());
    lost.add_guess("CRANE".to_string());
    assert!(!lost.check_result());
}

#[test]
fn replay_rebuilds_the_aggregator() {
    let mut j = Gamejson::new();
    assert_eq!(j.get_total(), 0);

    let mut won = Games::new();
    won.set_answer("ROBOT".to_string());
    won.add_guess("CRANE".to_string());
    won.add_guess("ROBOT".to_string());
    j.add_games(won);

    let mut lost = Games::new();
    lost.set_answer("PANEL".to_string());
    lost.add_guess("CRANE".to_string());
    j.add_games(lost);

    assert_eq!(j.get_total(), 2);
    let s = j.to_stats();
    assert_eq!(s.wins(), 1);
    assert_eq!(s.total(), 2);
    assert_eq!(s.attempts(), 2);
    assert_eq!(
        s.get_top5_words(),
        vec![(-2, "CRANE".to_string()), (-1, "ROBOT".to_string())]
    );
}
