use fas_rs::config::{ConfEntry, Config, GameEntry};
use fas_rs::text::{parse_u64, str_eq};

fn game(pkg: &str, fps: u64) -> GameEntry {
    GameEntry { pkg: pkg.to_string(), fps }
}

fn conf(label: &str, value: &str) -> ConfEntry {
    ConfEntry { label: label.to_string(), value: value.to_string() }
}

fn doc(games: Vec<GameEntry>, table: Vec<ConfEntry>) -> Config {
    Config::new(games, table)
}

#[test]
fn game_fps_finds_tracked_package() {
    let c = doc(vec![game("com.alpha", 60), game("com.beta", 120)], vec![]);
    assert_eq!(c.game_fps("com.beta"), Some(120));
    assert_eq!(c.game_fps("com.gamma"), None);
}

#[test]
fn cur_game_takes_first_tracked_candidate() {
    let c = doc(vec![game("com.alpha", 60), game("com.beta", 120)], vec![]);
    let fg = vec!["com.untracked".to_string(), "com.beta".to_string(), "com.alpha".to_string()];
    assert_eq!(c.cur_game_fps(&fg), Some(("com.beta".to_string(), 120)));
}

#[test]
fn cur_game_none_when_nothing_tracked_is_foreground() {
    let c = doc(vec![game("com.alpha", 60)], vec![]);
    assert_eq!(c.cur_game_fps(&vec![]), None);
    assert_eq!(c.cur_game_fps(&vec!["com.other".to_string()]), None);
}

#[test]
fn reloaded_document_answers_cur_game() {
    // The watcher swaps in a whole new document after an external edit;
    // the very next query reflects the edited entry, no restart needed.
    let before = doc(vec![game("com.alpha", 60)], vec![]);
    let fg = vec!["com.alpha".to_string()];
    assert_eq!(before.cur_game_fps(&fg), Some(("com.alpha".to_string(), 60)));
    let after = doc(vec![game("com.alpha", 90)], vec![]);
    assert_eq!(after.cur_game_fps(&fg), Some(("com.alpha".to_string(), 90)));
}

#[test]
fn get_conf_looks_up_labels() {
    let c = doc(vec![], vec![conf("keep_std", "true"), conf("release_pct", "175")]);
    assert_eq!(c.get_conf("release_pct"), Some("175".to_string()));
    assert_eq!(c.get_conf("absent"), None);
}

#[test]
fn parse_u64_accepts_digits_only() {
    assert_eq!(parse_u64("0"), Some(0));
    assert_eq!(parse_u64("42"), Some(42));
    assert_eq!(parse_u64("18446744073709551615"), Some(u64::MAX));
}

#[test]
fn parse_u64_rejects_empty_junk_and_overflow() {
    assert_eq!(parse_u64(""), None);
    assert_eq!(parse_u64("12a"), None);
    assert_eq!(parse_u64("-3"), None);
    assert_eq!(parse_u64(" 7"), None);
    assert_eq!(parse_u64("18446744073709551616"), None);
}

#[test]
fn str_eq_compares_content() {
    assert!(str_eq("balance", "balance"));
    assert!(!str_eq("balance", "balanced"));
    assert!(str_eq("", ""));
}
