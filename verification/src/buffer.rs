use vstd::prelude::*;

use crate::config::{cur_game_spec, lookup_conf, views_of, Config};
use crate::node::{mode_from_name_spec, tolerance_pct_spec, Mode, Node};
use crate::policy::Event;
use crate::text::{all_digits, dec_val, parse_u64};

verus! {

/// How many recent frame samples one producer's sliding window holds.
pub const WINDOW_LEN: usize = 10;

/// One unit of frame-render feedback from a producer: the rendering
/// context id, the process id, and the sampled frame time in
/// nanoseconds.
pub struct FasData {
    pub buffer: i64,
    pub pid: i32,
    pub frametime: u64,
}

/// Saturating addition on `u64`.
pub open spec fn sat_add(a: u64, b: u64) -> u64 {
    if a + b > u64::MAX {
        u64::MAX
    } else {
        (a + b) as u64
    }
}

/// Saturating sum of a sequence of `u64`.
pub open spec fn sat_sum(s: Seq<u64>) -> u64
    decreases s.len(),
{
    if s.len() == 0 {
        0
    } else {
        sat_add(sat_sum(s.drop_last()), s.last())
    }
}

/// Saturating addition, executable.
pub fn sat_add_u64(a: u64, b: u64) -> (r: u64)
    ensures
        r == sat_add(a, b),
{
    if a > u64::MAX - b {
        u64::MAX
    } else {
        a + b
    }
}

/// The accumulated jank state of one producer: a sliding window of the
/// most recent frame times, the running severity scale (the saturating
/// sum of the window), and the cumulative sampled jank time.
pub struct Buffer {
    pub window: Vec<u64>,
    pub scale: u64,
    pub total_jank_time_ns: u64,
}

/// The mode named by the `mode` control node, if the node is cached and
/// its value names one.
pub open spec fn mode_of(entries: Map<Seq<char>, Seq<char>>) -> Option<Mode> {
    if entries.contains_key("mode"@) {
        mode_from_name_spec(entries["mode"@])
    } else {
        None
    }
}

/// A percentage tunable read from the configuration table: the label's
/// value if it parses as a decimal no greater than 10000 (larger values
/// saturate there), the default when the label is absent or does not
/// parse.
pub open spec fn conf_pct(c: Config, label: Seq<char>, default: u64) -> u64 {
    match lookup_conf(c.conf@, label) {
        Some(v) => if v.len() > 0 && all_digits(v) && dec_val(v) <= u64::MAX {
            if dec_val(v) > 10000 {
                10000
            } else {
                dec_val(v) as u64
            }
        } else {
            default
        },
        None => default,
    }
}

/// Reads a percentage tunable from the configuration table.
pub fn get_pct(config: &Config, label: &str, default: u64) -> (r: u64)
    ensures
        r == conf_pct(*config, label@, default),
{
    match config.get_conf(label) {
        Some(v) => match parse_u64(v.as_str()) {
            Some(x) => if x > 10000 {
                10000
            } else {
                x
            },
            None => default,
        },
        None => default,
    }
}

/// The product of bounded non-negative factors is bounded by the
/// product of the bounds.
proof fn lemma_mul_le(a: int, b: int, bound_a: int, bound_b: int)
    requires
        0 <= a <= bound_a,
        0 <= b <= bound_b,
    ensures
        a * b <= bound_a * bound_b,
{
    assert(a * b <= bound_a * bound_b) by (nonlinear_arith)
        requires 0 <= a <= bound_a, 0 <= b <= bound_b,
    ;
}

/// The policy decision for one producer, given its severity scale, the
/// target FPS, the mode, and the configuration tunables. The window's
/// frame-time budget is the window length times the per-frame budget
/// scaled by the mode's tolerance; the three thresholds scale that
/// budget by the configured percentages. A scale at or above the
/// release-max threshold asks for full release, at or above the release
/// threshold for partial release, at or below the limit threshold for
/// throttling; between the limit and release thresholds the producer
/// has no opinion.
pub open spec fn decide_spec(scale: u64, fps: u64, m: Mode, c: Config) -> Option<Event>
    recommends
        fps >= 1,
{
    let budget = 1_000_000_000 as int / fps as int;
    let thr = (WINDOW_LEN as int) * budget * (tolerance_pct_spec(m) as int) / 100;
    let t_rmax = thr * (conf_pct(c, "release_max_pct"@, 300) as int) / 100;
    let t_rel = thr * (conf_pct(c, "release_pct"@, 150) as int) / 100;
    let t_lim = thr * (conf_pct(c, "limit_pct"@, 100) as int) / 100;
    if scale as int >= t_rmax {
        Some(Event::ReleaseMax)
    } else if scale as int >= t_rel {
        Some(Event::Release)
    } else if scale as int <= t_lim {
        Some(Event::Limit)
    } else {
        None
    }
}

/// Computes the policy decision for one producer.
pub fn decide(scale: u64, fps: u64, m: Mode, config: &Config) -> (r: Option<Event>)
    requires
        fps >= 1,
    ensures
        r == decide_spec(scale, fps, m, *config),
{
    let budget: u64 = 1_000_000_000 / fps;
    let tol = m.tolerance_pct();
    assert(budget <= 1_000_000_000);
    assert(tol <= 150);
    proof {
        lemma_mul_le(10 * budget as int, tol as int, 10_000_000_000, 150);
    }
    let thr: u64 = (10 as u64) * budget * tol / 100;
    assert(thr <= 15_000_000_000);
    let p_rmax = get_pct(config, "release_max_pct", 300);
    let p_rel = get_pct(config, "release_pct", 150);
    let p_lim = get_pct(config, "limit_pct", 100);
    assert(p_rmax <= 10000 && p_rel <= 10000 && p_lim <= 10000);
    proof {
        lemma_mul_le(thr as int, p_rmax as int, 15_000_000_000, 10000);
        lemma_mul_le(thr as int, p_rel as int, 15_000_000_000, 10000);
        lemma_mul_le(thr as int, p_lim as int, 15_000_000_000, 10000);
    }
    let t_rmax: u64 = thr * p_rmax / 100;
    let t_rel: u64 = thr * p_rel / 100;
    let t_lim: u64 = thr * p_lim / 100;
    if scale >= t_rmax {
        Some(Event::ReleaseMax)
    } else if scale >= t_rel {
        Some(Event::Release)
    } else if scale <= t_lim {
        Some(Event::Limit)
    } else {
        None
    }
}

/// The full policy evaluation for one producer's buffer: nothing
/// without a cached, recognised mode; nothing without a tracked
/// foreground game; nothing until the window has filled; otherwise the
/// threshold decision.
pub open spec fn evaluate_spec(
    b: Buffer,
    c: Config,
    entries: Map<Seq<char>, Seq<char>>,
    fg: Seq<Seq<char>>,
) -> Option<Event> {
    match mode_of(entries) {
        Some(m) => match cur_game_spec(c.game_list@, fg) {
            Some(g) => if g.1 >= 1 && b.window@.len() >= WINDOW_LEN {
                decide_spec(b.scale, g.1, m, c)
            } else {
                None
            },
            None => None,
        },
        None => None,
    }
}

/// How one ingested sample relates a producer state to its successor:
/// the frame time enters the sliding window (evicting the oldest once
/// the window is full), the scale is the saturating sum of the new
/// window, and the cumulative jank time grows by the sample,
/// saturating.
pub open spec fn ingest_rel(b0: Buffer, b1: Buffer, ft: u64) -> bool {
    &&& b1.window@ == if b0.window@.len() < WINDOW_LEN {
        b0.window@.push(ft)
    } else {
        b0.window@.drop_first().push(ft)
    }
    &&& b1.total_jank_time_ns == sat_add(b0.total_jank_time_ns, ft)
    &&& b1.scale == sat_sum(b1.window@)
}

impl Buffer {
    /// The window never outgrows its bound and the scale is always the
    /// saturating sum of the window.
    pub open spec fn wf(self) -> bool {
        self.window@.len() <= WINDOW_LEN && self.scale == sat_sum(self.window@)
    }

    /// A fresh, empty producer state.
    pub fn new() -> (r: Buffer)
        ensures
            r.wf(),
            r.window@.len() == 0,
            r.scale == 0,
            r.total_jank_time_ns == 0,
    {
        Buffer { window: Vec::new(), scale: 0, total_jank_time_ns: 0 }
    }

    /// Accumulates one telemetry sample: the frame time enters the
    /// sliding window (evicting the oldest once the window is full),
    /// the severity scale is the saturating sum of the window, and the
    /// cumulative jank time grows by the sample, saturating.
    pub fn ingest(&mut self, d: &FasData)
        requires
            old(self).wf(),
        ensures
            final(self).wf(),
            ingest_rel(*old(self), *final(self), d.frametime),
    {
        if self.window.len() == WINDOW_LEN {
            self.window.remove(0);
            proof {
                assert(old(self).window@.remove(0) =~= old(self).window@.drop_first());
            }
        }
        self.window.push(d.frametime);
        self.total_jank_time_ns = sat_add_u64(self.total_jank_time_ns, d.frametime);
        let mut acc: u64 = 0;
        let mut i: usize = 0;
        proof {
            assert(self.window@.take(0) =~= Seq::<u64>::empty());
        }
        while i < self.window.len()
            invariant
                i <= self.window@.len(),
                acc == sat_sum(self.window@.take(i as int)),
            decreases self.window@.len() - i,
        {
            proof {
                assert(self.window@.take(i + 1).drop_last() =~= self.window@.take(i as int));
                assert(self.window@.take(i + 1).last() == self.window@[i as int]);
            }
            acc = sat_add_u64(acc, self.window[i]);
            i = i + 1;
        }
        proof {
            assert(self.window@.take(self.window@.len() as int) =~= self.window@);
        }
        self.scale = acc;
    }

    /// Evaluates the policy for this producer against the current
    /// configuration, control-node cache and foreground candidates.
    /// Side-effect-free: it only reads the shared state.
    pub fn evaluate(&self, config: &Config, node: &Node, foreground: &Vec<String>) -> (r: Option<
        Event,
    >)
        ensures
            r == evaluate_spec(*self, *config, node.entries(), views_of(foreground@)),
    {
        let mode_s = match node.lookup("mode") {
            Some(v) => v,
            None => {
                return None;
            },
        };
        let m = match Mode::from_name(mode_s.as_str()) {
            Some(m) => m,
            None => {
                return None;
            },
        };
        let gf = match config.cur_game_fps(foreground) {
            Some(g) => g,
            None => {
                return None;
            },
        };
        let fps = gf.1;
        if fps < 1 {
            return None;
        }
        if self.window.len() < WINDOW_LEN {
            return None;
        }
        decide(self.scale, fps, m, config)
    }
}

} // verus!
