use wordle::color::{get_color_rank, merge_color};
use wordle::dict::WordDict;
use wordle::game::{GameInfo, GameStatus, IllegalGuess};

fn chars(s: &str) -> Vec<char> {
    s.chars().collect()
}

fn dict_of(words: &[&str]) -> WordDict {
    let list: Vec<String> = words.iter().map(|w| w.to_string()).collect();
    let mut d = WordDict::new();
    d.build(list.clone(), list).unwrap();
    d
}

#[test]
fn color_ranks() {
    assert_eq!(get_color_rank('G'), Some(3));
    assert_eq!(get_color_rank('Y'), Some(2));
    assert_eq!(get_color_rank('R'), Some(1));
    assert_eq!(get_color_rank('X'), Some(0));
    assert_eq!(get_color_rank('Z'), None);
}

#[test]
fn merge_keeps_better_color() {
    assert_eq!(merge_color('X', 'Y'), 'Y');
    assert_eq!(merge_color('Y', 'R'), 'Y');
    assert_eq!(merge_color('Y', 'G'), 'G');
    assert_eq!(merge_color('G', 'R'), 'G');
    assert_eq!(merge_color('R', 'R'), 'R');
}

#[test]
fn winning_guess_ends_game() {
    let d = dict_of(&["ROBOT", "CRANE"]);
    let mut g = GameInfo::new("ROBOT", false);
    assert!(g.game_is_running());
    let r = g.make_guess("ROBOT", &d);
    assert_eq!(r, Ok(chars("GGGGG")));
    assert_eq!(g.status(), GameStatus::Success);
    assert!(!g.game_is_running());
}

#[test]
fn six_misses_lose_the_game() {
    let d = dict_of(&["ROBOT", "CRANE"]);
    let mut g = GameInfo::new("ROBOT", false);
    for k in 0..6 {
        assert!(g.game_is_running());
        assert_eq!(g.history_len(), k);
        let r = g.make_guess("CRANE", &d);
        assert!(r.is_ok());
    }
    assert_eq!(g.history_len(), 6);
    assert_eq!(g.status(), GameStatus::Fail);
    assert!(!g.game_is_running());
}

#[test]
fn fifth_win_is_still_a_win() {
    let d = dict_of(&["ROBOT", "CRANE"]);
    let mut g = GameInfo::new("ROBOT", false);
    for _ in 0..4 {
        g.make_guess("CRANE", &d).unwrap();
    }
    g.make_guess("ROBOT", &d).unwrap();
    assert_eq!(g.status(), GameStatus::Success);
}

#[test]
fn rejected_guesses_cost_no_attempt() {
    let d = dict_of(&["ROBOT", "CRANE"]);
    let mut g = GameInfo::new("ROBOT", false);
    assert_eq!(g.make_guess("ZEBRA", &d), Err(IllegalGuess::NotAcceptable));
    assert_eq!(g.make_guess("AB", &d), Err(IllegalGuess::NotAcceptable));
    assert_eq!(g.make_guess("robot", &d), Err(IllegalGuess::NotAcceptable));
    assert_eq!(g.history_len(), 0);
    assert_eq!(g.status(), GameStatus::Running);
}

#[test]
fn hard_mode_pins_and_required_letters() {
    // Against CABAL, the guess CRANE scores 'C' exact at position 0
    // and 'A' present at position 2: any later guess must keep 'C'
    // first and use an 'A' somewhere unpinned.
    let d = dict_of(&["CABAL", "CRANE", "CHALK", "BUILD", "CLOTH"]);
    let mut g = GameInfo::new("CABAL", true);
    assert_eq!(g.make_guess("CRANE", &d), Ok(chars("GRYRR")));
    assert!(!g.difficult_vaild("BUILD"));
    assert!(!g.difficult_vaild("CLOTH"));
    assert!(g.difficult_vaild("CHALK"));
    assert_eq!(g.make_guess("BUILD", &d), Err(IllegalGuess::HardModeViolation));
    assert_eq!(g.make_guess("CLOTH", &d), Err(IllegalGuess::HardModeViolation));
    assert_eq!(g.history_len(), 1);
    assert!(g.make_guess("CHALK", &d).is_ok());
}

#[test]
fn hard_mode_first_guess_is_always_legal() {
    let d = dict_of(&["CABAL", "BUILD"]);
    let mut g = GameInfo::new("CABAL", true);
    assert!(g.difficult_vaild("BUILD"));
    assert!(g.make_guess("BUILD", &d).is_ok());
}

#[test]
fn hard_mode_off_allows_anything_acceptable() {
    let d = dict_of(&["CABAL", "CRANE", "BUILD"]);
    let mut g = GameInfo::new("CABAL", false);
    g.make_guess("CRANE", &d).unwrap();
    assert!(g.make_guess("BUILD", &d).is_ok());
}

#[test]
fn keyboard_colors_never_downgrade() {
    let d = dict_of(&["ROBOT", "TOOTS"]);
    let mut g = GameInfo::new("ROBOT", false);
    g.make_guess("TOOTS", &d).unwrap();
    let kb1 = g.keyboard().clone();
    // T was present, O exact, S absent.
    assert_eq!(kb1[(b'T' - b'A') as usize], 'Y');
    assert_eq!(kb1[(b'O' - b'A') as usize], 'G');
    assert_eq!(kb1[(b'S' - b'A') as usize], 'R');
    g.make_guess("ROBOT", &d).unwrap();
    let kb2 = g.keyboard().clone();
    for i in 0..26 {
        let r1 = get_color_rank(kb1[i]).unwrap();
        let r2 = get_color_rank(kb2[i]).unwrap();
        assert!(r2 >= r1);
    }
    assert_eq!(kb2[(b'T' - b'A') as usize], 'G');
    assert_eq!(kb2[(b'S' - b'A') as usize], 'R');
}

#[test]
fn plain_lines_after_win() {
    let d = dict_of(&["ROBOT"]);
    let mut g = GameInfo::new("ROBOT", false);
    assert_eq!(g.plain_result_line(), None);
    g.make_guess("ROBOT", &d).unwrap();
    let mut expected_kb = ['X'; 26];
    for b in [b'R', b'O', b'B', b'T'] {
        expected_kb[(b - b'A') as usize] = 'G';
    }
    let line: String = g.plain_status_line().into_iter().collect();
    let expected: String =
        format!("GGGGG {}", expected_kb.iter().collect::<String>());
    assert_eq!(line, expected);
    let result: String = g.plain_result_line().unwrap().into_iter().collect();
    assert_eq!(result, "CORRECT 1");
}

#[test]
fn plain_result_line_after_loss() {
    let d = dict_of(&["ROBOT", "CRANE"]);
    let mut g = GameInfo::new("ROBOT", false);
    for _ in 0..6 {
        g.make_guess("CRANE", &d).unwrap();
    }
    let result: String = g.plain_result_line().unwrap().into_iter().collect();
    assert_eq!(result, "FAILED ROBOT");
}

#[test]
fn history_records_guesses_in_order() {
    let d = dict_of(&["ROBOT", "CRANE"]);
    let mut g = GameInfo::new("ROBOT", false);
    g.make_guess("CRANE", &d).unwrap();
    g.make_guess("ROBOT", &d).unwrap();
    assert_eq!(g.history_len(), 2);
    let (w0, s0) = g.history_at(0).clone();
    assert_eq!(w0, chars("CRANE"));
    assert_eq!(s0, chars("RYRRR"));
    let (w1, s1) = g.history_at(1).clone();
    assert_eq!(w1, chars("ROBOT"));
    assert_eq!(s1, chars("GGGGG"));
}
