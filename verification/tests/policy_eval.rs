use fas_rs::buffer::{Buffer, FasData, WINDOW_LEN};
use fas_rs::config::{ConfEntry, Config, GameEntry};
use fas_rs::node::Node;
use fas_rs::policy::{resolve, Action, Event};

fn data(frametime: u64) -> FasData {
    FasData { buffer: 1, pid: 100, frametime }
}

fn filled_buffer(frametime: u64) -> Buffer {
    let mut b = Buffer::new();
    for _ in 0..WINDOW_LEN {
        b.ingest(&data(frametime));
    }
    b
}

fn store(mode: &str) -> Node {
    let mut node = Node::init(&vec![], 0);
    node.create_node("mode", mode).unwrap();
    node
}

fn tracked_config(table: Vec<ConfEntry>) -> Config {
    Config::new(vec![GameEntry { pkg: "com.game".to_string(), fps: 60 }], table)
}

fn foreground() -> Vec<String> {
    vec!["com.game".to_string()]
}

#[test]
fn ingest_slides_the_window() {
    let mut b = Buffer::new();
    for ft in 1..=12u64 {
        b.ingest(&data(ft));
    }
    assert_eq!(b.window, (3..=12u64).collect::<Vec<u64>>());
    assert_eq!(b.scale, (3..=12u64).sum::<u64>());
    assert_eq!(b.total_jank_time_ns, (1..=12u64).sum::<u64>());
}

#[test]
fn ingest_saturates_instead_of_overflowing() {
    let mut b = Buffer::new();
    b.ingest(&data(u64::MAX));
    b.ingest(&data(u64::MAX));
    assert_eq!(b.scale, u64::MAX);
    assert_eq!(b.total_jank_time_ns, u64::MAX);
}

#[test]
fn smooth_frames_ask_to_limit() {
    // fps 60, balance: limit threshold is 208_333_325 window-total ns.
    let b = filled_buffer(10_000_000);
    let r = b.evaluate(&tracked_config(vec![]), &store("balance"), &foreground());
    assert_eq!(r, Some(Event::Limit));
}

#[test]
fn middling_frames_have_no_opinion() {
    let b = filled_buffer(30_000_000);
    let r = b.evaluate(&tracked_config(vec![]), &store("balance"), &foreground());
    assert_eq!(r, None);
}

#[test]
fn janky_frames_ask_for_release() {
    // 400_000_000 total sits between 312_499_987 and 624_999_975.
    let b = filled_buffer(40_000_000);
    let r = b.evaluate(&tracked_config(vec![]), &store("balance"), &foreground());
    assert_eq!(r, Some(Event::Release));
}

#[test]
fn severe_jank_asks_for_release_max() {
    let b = filled_buffer(70_000_000);
    let r = b.evaluate(&tracked_config(vec![]), &store("balance"), &foreground());
    assert_eq!(r, Some(Event::ReleaseMax));
}

#[test]
fn faster_mode_releases_sooner() {
    // Under balance a 300_000_000 window-total has no opinion; under
    // fast the release threshold drops to 249_999_990.
    let b = filled_buffer(30_000_000);
    assert_eq!(b.evaluate(&tracked_config(vec![]), &store("balance"), &foreground()), None);
    assert_eq!(
        b.evaluate(&tracked_config(vec![]), &store("fast"), &foreground()),
        Some(Event::Release)
    );
}

#[test]
fn configured_percentage_moves_the_threshold() {
    let b = filled_buffer(30_000_000);
    let table = vec![ConfEntry { label: "release_pct".to_string(), value: "120".to_string() }];
    assert_eq!(
        b.evaluate(&tracked_config(table), &store("balance"), &foreground()),
        Some(Event::Release)
    );
}

#[test]
fn unparsable_percentage_falls_back_to_default() {
    let b = filled_buffer(30_000_000);
    let table = vec![ConfEntry { label: "release_pct".to_string(), value: "12x".to_string() }];
    assert_eq!(b.evaluate(&tracked_config(table), &store("balance"), &foreground()), None);
}

#[test]
fn no_opinion_without_mode_node() {
    let b = filled_buffer(10_000_000);
    let mut bare = Node::init(&vec![], 0);
    bare.remove_node("mode").unwrap();
    assert_eq!(b.evaluate(&tracked_config(vec![]), &bare, &foreground()), None);
}

#[test]
fn no_opinion_under_unknown_mode() {
    let b = filled_buffer(10_000_000);
    assert_eq!(b.evaluate(&tracked_config(vec![]), &store("turbo"), &foreground()), None);
}

#[test]
fn no_opinion_without_foreground_game() {
    let b = filled_buffer(10_000_000);
    let r = b.evaluate(&tracked_config(vec![]), &store("balance"), &vec![]);
    assert_eq!(r, None);
}

#[test]
fn no_opinion_until_window_fills() {
    let mut b = Buffer::new();
    for _ in 0..WINDOW_LEN - 1 {
        b.ingest(&data(10_000_000));
    }
    assert_eq!(b.evaluate(&tracked_config(vec![]), &store("balance"), &foreground()), None);
}

#[test]
fn resolve_release_max_wins() {
    let events = vec![Event::Limit, Event::ReleaseMax, Event::Release];
    assert_eq!(resolve(&events, Event::Limit), Some(Action::ReleaseMax));
}

#[test]
fn resolve_release_beats_limit() {
    let events = vec![Event::Limit, Event::Release, Event::Idle];
    assert_eq!(resolve(&events, Event::Limit), Some(Action::Release));
}

#[test]
fn resolve_honours_only_current_limit() {
    let events = vec![Event::Limit, Event::Idle];
    assert_eq!(resolve(&events, Event::Limit), Some(Action::Limit));
    // Another producer's Limit alone does not throttle.
    assert_eq!(resolve(&events, Event::Idle), None);
}

#[test]
fn resolve_nothing_when_all_idle() {
    let events = vec![Event::Idle, Event::Idle];
    assert_eq!(resolve(&events, Event::Idle), None);
    assert_eq!(resolve(&vec![], Event::Idle), None);
}
