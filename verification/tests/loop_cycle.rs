use std::cell::{Cell, RefCell};

use fas_rs::buffer::{FasData, WINDOW_LEN};
use fas_rs::config::{Config, GameEntry};
use fas_rs::error::Error;
use fas_rs::looper::{Looper, PerformanceController, TelemetryInput, TopApps};
use fas_rs::node::{Node, NodeEntry};
use fas_rs::policy::Action;

struct MockController {
    calls: RefCell<Vec<&'static str>>,
    fail: Cell<bool>,
}

impl MockController {
    fn new() -> MockController {
        MockController { calls: RefCell::new(Vec::new()), fail: Cell::new(false) }
    }

    fn failing() -> MockController {
        MockController { calls: RefCell::new(Vec::new()), fail: Cell::new(true) }
    }

    fn record(&self, what: &'static str) -> Result<(), Error> {
        if self.fail.get() {
            return Err(Error::Io);
        }
        self.calls.borrow_mut().push(what);
        Ok(())
    }
}

impl PerformanceController for MockController {
    fn limit(&self, _config: &Config) -> Result<(), Error> {
        self.record("limit")
    }

    fn release(&self, _config: &Config) -> Result<(), Error> {
        self.record("release")
    }

    fn release_max(&self, _config: &Config) -> Result<(), Error> {
        self.record("release_max")
    }
}

fn tracked_config() -> Config {
    Config::new(vec![GameEntry { pkg: "com.game".to_string(), fps: 60 }], vec![])
}

fn looper() -> Looper<MockController> {
    Looper::new(tracked_config(), Node::init(&vec![], 0), MockController::new())
}

fn top(pids: Vec<i32>) -> TopApps {
    TopApps { pids, packages: vec!["com.game".to_string()] }
}

fn record(buffer: i64, pid: i32, frametime: u64) -> TelemetryInput {
    TelemetryInput::Data(FasData { buffer, pid, frametime })
}

/// Feeds enough records to fill the producer's window; returns the
/// result of the last cycle.
fn fill(
    l: &mut Looper<MockController>,
    t: &TopApps,
    buffer: i64,
    pid: i32,
    frametime: u64,
) -> Result<Option<Action>, Error> {
    let mut last = Ok(None);
    for _ in 0..WINDOW_LEN {
        last = l.process(record(buffer, pid, frametime), 0, t, None);
    }
    last
}

#[test]
fn one_entry_per_producer_however_many_records() {
    let mut l = looper();
    let t = top(vec![100]);
    for _ in 0..25 {
        l.process(record(1, 100, 10_000_000), 0, &t, None).unwrap();
    }
    assert_eq!(l.buffers.len(), 1);
    assert_eq!(l.buffers[0].key, (1, 100));
}

#[test]
fn smooth_current_producer_gets_limited() {
    let mut l = looper();
    let t = top(vec![100, 200]);
    // The other producer stays below a full window: it has no opinion.
    l.process(record(2, 200, 10_000_000), 0, &t, None).unwrap();
    let r = fill(&mut l, &t, 1, 100, 10_000_000);
    assert_eq!(r.unwrap(), Some(Action::Limit));
    assert!(l.started);
    assert_eq!(l.controller.calls.borrow().last(), Some(&"limit"));
}

#[test]
fn other_producers_release_max_overrides_limit() {
    let mut l = looper();
    let t = top(vec![100, 200]);
    // The other producer accumulates severe jank.
    fill(&mut l, &t, 2, 200, 70_000_000).unwrap();
    // The current record's producer itself evaluates to Limit.
    let r = fill(&mut l, &t, 1, 100, 10_000_000);
    assert_eq!(r.unwrap(), Some(Action::ReleaseMax));
    assert!(!l.started);
    assert_eq!(l.controller.calls.borrow().last(), Some(&"release_max"));
}

#[test]
fn timeout_with_constraint_engaged_releases_max() {
    let mut l = looper();
    let t = top(vec![100]);
    fill(&mut l, &t, 1, 100, 10_000_000).unwrap();
    assert!(l.started);
    let before = l.buffers.len();
    let r = l.process(TelemetryInput::TimedOut, 0, &t, None);
    assert_eq!(r.unwrap(), Some(Action::ReleaseMax));
    assert!(!l.started);
    // No telemetry was processed on the timeout path.
    assert_eq!(l.buffers.len(), before);
    assert_eq!(l.controller.calls.borrow().last(), Some(&"release_max"));
}

#[test]
fn timeout_without_constraint_is_quiet() {
    let mut l = looper();
    let t = top(vec![]);
    let calls_before = l.controller.calls.borrow().len();
    let r = l.process(TelemetryInput::TimedOut, 0, &t, None);
    assert_eq!(r.unwrap(), None);
    assert_eq!(l.controller.calls.borrow().len(), calls_before);
}

#[test]
fn disconnect_is_fatal() {
    let mut l = looper();
    let t = top(vec![100]);
    let r = l.process(TelemetryInput::Disconnected, 0, &t, None);
    assert!(matches!(r, Err(Error::Other("Binder Server Disconnected"))));
    assert!(l.controller.calls.borrow().is_empty());
}

#[test]
fn backgrounded_producers_are_evicted() {
    let mut l = looper();
    let t = top(vec![100, 200]);
    l.process(record(1, 100, 10_000_000), 0, &t, None).unwrap();
    l.process(record(2, 200, 10_000_000), 0, &t, None).unwrap();
    assert_eq!(l.buffers.len(), 2);
    // Process 200 left the foreground; the next cycle drops its state.
    let t2 = top(vec![100]);
    l.process(TelemetryInput::TimedOut, 0, &t2, None).unwrap();
    assert_eq!(l.buffers.len(), 1);
    assert_eq!(l.buffers[0].key, (1, 100));
}

#[test]
fn controller_failure_propagates() {
    let mut l = Looper::new(tracked_config(), Node::init(&vec![], 0), MockController::failing());
    let t = top(vec![100]);
    let r = fill(&mut l, &t, 1, 100, 10_000_000);
    assert!(matches!(r, Err(Error::Io)));
    assert!(!l.started);
}

#[test]
fn stale_node_cache_refreshes_from_scan_mid_loop() {
    let mut l = looper();
    let t = top(vec![100]);
    // A full window of middling frames: no opinion under balance.
    let r = fill(&mut l, &t, 1, 100, 30_000_000);
    assert_eq!(r.unwrap(), None);
    // Later, an external driver rewrote the mode file; the scan arrives
    // once the cache has gone stale.
    let scan = vec![NodeEntry { id: "mode".to_string(), value: "fast".to_string() }];
    let r = l.process(record(1, 100, 30_000_000), 2000, &t, Some(&scan));
    // Under fast, a 300_000_000 window-total asks for release.
    assert_eq!(r.unwrap(), Some(Action::Release));
}

#[test]
fn quiet_record_cycle_succeeds_without_controller() {
    let mut l = looper();
    let t = top(vec![100]);
    // A full window of middling frames resolves to no action: the
    // cycle must succeed, calling no controller operation.
    let r = fill(&mut l, &t, 1, 100, 30_000_000);
    assert_eq!(r.unwrap(), None);
    assert!(l.controller.calls.borrow().is_empty());
}

#[test]
fn started_survives_a_failed_controller_call() {
    let mut l = looper();
    let t = top(vec![100]);
    fill(&mut l, &t, 1, 100, 10_000_000).unwrap();
    assert!(l.started);
    // The backend starts failing; the next limit-resolving cycle
    // propagates the error and leaves the engaged flag untouched.
    l.controller.fail.set(true);
    let r = l.process(record(1, 100, 10_000_000), 0, &t, None);
    assert!(matches!(r, Err(Error::Io)));
    assert!(l.started);
}
