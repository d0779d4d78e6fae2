use vstd::prelude::*;

use crate::buffer::{ingest_rel, Buffer, FasData, WINDOW_LEN};
use crate::buffer::{evaluate_spec, sat_add, sat_sum};
use crate::config::{views_of, Config};
use crate::error::Error;
use crate::node::{scan_map, Node, NodeEntry};
use crate::policy::{lemma_push_contains, resolve, resolved, Action, Event};

verus! {

/// One rendering context: its buffer id and the owning process id.
pub type Producer = (i64, i32);

/// The tracked state for one producer.
pub struct BufferEntry {
    pub key: Producer,
    pub buf: Buffer,
}

/// The foreground snapshot the caller obtained from the OS introspection
/// collaborator: the foreground process ids, and the foreground package
/// names in the order the detector reported them.
pub struct TopApps {
    pub pids: Vec<i32>,
    pub packages: Vec<String>,
}

/// What one wait on the telemetry channel produced: a record, a timeout,
/// or permanent closure of the sending side.
pub enum TelemetryInput {
    Data(FasData),
    TimedOut,
    Disconnected,
}

/// The operations the decision loop invokes on the external performance
/// controller. The concrete backend (frequency governors, scheduler
/// tunables) is the embedding process's to supply, so this trait is
/// implemented outside the library; any failure is fatal and
/// propagates.
pub trait PerformanceController {
    fn limit(&self, config: &Config) -> Result<(), Error>;

    fn release(&self, config: &Config) -> Result<(), Error>;

    fn release_max(&self, config: &Config) -> Result<(), Error>;
}

/// The producer keys of the tracked entries, in order.
pub open spec fn keys_of(s: Seq<BufferEntry>) -> Seq<Producer> {
    s.map_values(|e: BufferEntry| e.key)
}

/// No producer key occurs twice.
pub open spec fn keys_unique(keys: Seq<Producer>) -> bool {
    forall|i: int, j: int| 0 <= i < j < keys.len() ==> keys[i] != keys[j]
}

/// How many times a key occurs.
pub open spec fn key_count(keys: Seq<Producer>, k: Producer) -> nat
    decreases keys.len(),
{
    if keys.len() == 0 {
        0
    } else {
        key_count(keys.drop_last(), k) + if keys.last() == k {
            1nat
        } else {
            0nat
        }
    }
}

/// The state map's well-formedness: unique producer keys, well-formed
/// buffers.
pub open spec fn buffers_wf(s: Seq<BufferEntry>) -> bool {
    &&& keys_unique(keys_of(s))
    &&& forall|i: int| 0 <= i < s.len() ==> (#[trigger] s[i]).buf.wf()
}

/// The entries that survive foreground eviction: exactly those whose
/// producer's process is in the foreground set, in their old order.
pub open spec fn retained(s: Seq<BufferEntry>, pids: Seq<i32>) -> Seq<BufferEntry>
    decreases s.len(),
{
    if s.len() == 0 {
        Seq::empty()
    } else if pids.contains(s.last().key.1) {
        retained(s.drop_last(), pids).push(s.last())
    } else {
        retained(s.drop_last(), pids)
    }
}

/// The key sequence after one record for key `k` is folded in: a known
/// key leaves the map unchanged, a new key is appended.
pub open spec fn updated_keys(keys: Seq<Producer>, k: Producer) -> Seq<Producer> {
    if keys.contains(k) {
        keys
    } else {
        keys.push(k)
    }
}

/// The key sequence after a whole run of records is folded in.
pub open spec fn keys_after_all(keys: Seq<Producer>, records: Seq<Producer>) -> Seq<Producer>
    decreases records.len(),
{
    if records.len() == 0 {
        keys
    } else {
        keys_after_all(updated_keys(keys, records[0]), records.drop_first())
    }
}

/// The event evaluated for one producer, `Idle` when the policy has no
/// opinion.
pub open spec fn get_event_spec(
    b: Buffer,
    c: Config,
    entries: Map<Seq<char>, Seq<char>>,
    fg: Seq<Seq<char>>,
) -> Event {
    match evaluate_spec(b, c, entries, fg) {
        Some(e) => e,
        None => Event::Idle,
    }
}

/// The events of all tracked producers, in entry order.
pub open spec fn events_of(
    s: Seq<BufferEntry>,
    c: Config,
    entries: Map<Seq<char>, Seq<char>>,
    fg: Seq<Seq<char>>,
) -> Seq<Event> {
    s.map_values(|e: BufferEntry| get_event_spec(e.buf, c, entries, fg))
}

/// The event of the entry tracked under key `k`.
pub open spec fn event_for_key(
    s: Seq<BufferEntry>,
    k: Producer,
    c: Config,
    entries: Map<Seq<char>, Seq<char>>,
    fg: Seq<Seq<char>>,
) -> Event {
    if keys_of(s).contains(k) {
        get_event_spec(s[keys_of(s).index_of(k)].buf, c, entries, fg)
    } else {
        Event::Idle
    }
}

/// Under unique keys, a key occurs exactly once if present, never if
/// absent.
pub(crate) proof fn lemma_count_unique(keys: Seq<Producer>, k: Producer)
    requires
        keys_unique(keys),
    ensures
        key_count(keys, k) == if keys.contains(k) {
            1nat
        } else {
            0nat
        },
    decreases keys.len(),
{
    if keys.len() > 0 {
        let s0 = keys.drop_last();
        assert(keys_unique(s0)) by {
            assert(forall|i: int, j: int|
                0 <= i < j < s0.len() ==> keys[i] == s0[i] && keys[j] == s0[j]);
        }
        lemma_count_unique(s0, k);
        assert(s0.push(keys.last()) =~= keys);
        lemma_push_contains(s0, keys.last(), k);
        if keys.last() == k && s0.contains(k) {
            let j = choose|j: int| 0 <= j < s0.len() && s0[j] == k;
            assert(keys[j] == k);
            assert(false);
        }
    }
}

/// Eviction keeps well-formedness, and every surviving entry was
/// tracked before.
pub(crate) proof fn lemma_retained_wf(s: Seq<BufferEntry>, pids: Seq<i32>)
    requires
        buffers_wf(s),
    ensures
        buffers_wf(retained(s, pids)),
        forall|i: int|
            0 <= i < retained(s, pids).len() ==> s.contains(#[trigger] retained(s, pids)[i]),
    decreases s.len(),
{
    if s.len() > 0 {
        let s0 = s.drop_last();
        assert(buffers_wf(s0)) by {
            assert(forall|i: int| 0 <= i < s0.len() ==> s0[i] == s[i]);
            assert(forall|i: int, j: int|
                0 <= i < j < s0.len() ==> keys_of(s0)[i] == keys_of(s)[i] && keys_of(s0)[j]
                    == keys_of(s)[j]);
        }
        lemma_retained_wf(s0, pids);
        let r0 = retained(s0, pids);
        assert(forall|i: int| 0 <= i < r0.len() ==> s0.contains(#[trigger] r0[i]) && s.contains(
            r0[i],
        )) by {
            assert(forall|m: int| 0 <= m < s0.len() ==> s0[m] == s[m]);
            assert forall|i: int| 0 <= i < r0.len() implies s.contains(#[trigger] r0[i]) by {
                let m = choose|m: int| 0 <= m < s0.len() && s0[m] == r0[i];
                assert(s[m] == r0[i]);
            }
        }
        if pids.contains(s.last().key.1) {
            let r = r0.push(s.last());
            assert(retained(s, pids) == r);
            assert forall|i: int| 0 <= i < r0.len() implies r0[i].key != s.last().key by {
                let m = choose|m: int| 0 <= m < s0.len() && s0[m] == r0[i];
                assert(keys_of(s)[m] == s[m].key);
                assert(keys_of(s)[s.len() - 1] == s.last().key);
            }
            assert(keys_unique(keys_of(r))) by {
                assert(forall|i: int|
                    0 <= i < r.len() ==> keys_of(r)[i] == (#[trigger] r[i]).key);
                assert(forall|i: int| 0 <= i < r0.len() ==> r[i] == #[trigger] r0[i]);
                assert(forall|i: int|
                    0 <= i < r0.len() ==> keys_of(r0)[i] == (#[trigger] r0[i]).key);
                assert(r[r0.len() as int] == s.last());
                assert forall|i: int, j: int| 0 <= i < j < r.len() implies keys_of(r)[i]
                    != keys_of(r)[j] by {
                    if j < r0.len() {
                        assert(keys_of(r0)[i] != keys_of(r0)[j]);
                    } else {
                        assert(r0[i].key != s.last().key);
                    }
                }
            }
            assert(forall|i: int| 0 <= i < r.len() ==> (#[trigger] r[i]).buf.wf()) by {
                assert(s.contains(s.last()));
                assert forall|i: int| 0 <= i < r0.len() implies (#[trigger] r0[i]).buf.wf() by {
                    let m = choose|m: int| 0 <= m < s0.len() && s0[m] == r0[i];
                    assert(s0[m].buf.wf());
                }
                assert(s.last().buf.wf());
            }
            assert(forall|i: int|
                0 <= i < r.len() ==> s.contains(#[trigger] r[i])) by {
                assert(s.contains(s.last())) by {
                    assert(s[s.len() - 1] == s.last());
                }
            }
        }
    }
}

/// Whether the pid is in the foreground set.
fn contains_pid(pids: &Vec<i32>, p: i32) -> (r: bool)
    ensures
        r == pids@.contains(p),
{
    let mut i: usize = 0;
    while i < pids.len()
        invariant
            i <= pids@.len(),
            forall|j: int| 0 <= j < i ==> pids@[j] != p,
        decreases pids@.len() - i,
    {
        if pids[i] == p {
            return true;
        }
        i = i + 1;
    }
    false
}

/// The index of the entry tracked under the given producer key.
fn find_buffer_idx(buffers: &Vec<BufferEntry>, key_buffer: i64, key_pid: i32) -> (r: Option<usize>)
    ensures
        match r {
            Some(i) => i < buffers@.len() && buffers@[i as int].key == (key_buffer, key_pid),
            None => !keys_of(buffers@).contains((key_buffer, key_pid)),
        },
{
    let mut i: usize = 0;
    while i < buffers.len()
        invariant
            i <= buffers@.len(),
            forall|j: int| 0 <= j < i ==> (#[trigger] buffers@[j]).key != (key_buffer, key_pid),
        decreases buffers@.len() - i,
    {
        if buffers[i].key.0 == key_buffer && buffers[i].key.1 == key_pid {
            return Some(i);
        }
        i = i + 1;
    }
    proof {
        if keys_of(buffers@).contains((key_buffer, key_pid)) {
            let j = choose|j: int|
                0 <= j < keys_of(buffers@).len() && keys_of(buffers@)[j] == (key_buffer, key_pid);
            assert(buffers@[j].key == (key_buffer, key_pid));
            assert(false);
        }
    }
    None
}

/// The event evaluated for one producer, `Idle` when the policy has no
/// opinion or its inputs are unavailable.
pub fn get_event(buffer: &Buffer, config: &Config, node: &Node, foreground: &Vec<String>) -> (r:
    Event)
    ensures
        r == get_event_spec(*buffer, *config, node.entries(), views_of(foreground@)),
{
    match buffer.evaluate(config, node, foreground) {
        Some(e) => e,
        None => Event::Idle,
    }
}

/// The decision loop's state: the single owner of all producer state,
/// the configuration and control-node handles, the external controller,
/// and the `started` flag that remembers whether a throttling constraint
/// is currently engaged.
pub struct Looper<P: PerformanceController> {
    pub config: Config,
    pub node: Node,
    pub controller: P,
    pub buffers: Vec<BufferEntry>,
    pub started: bool,
}

impl<P: PerformanceController> Looper<P> {
    /// The producer-state map is well-formed.
    pub open spec fn wf(self) -> bool {
        buffers_wf(self.buffers@)
    }

    /// A fresh loop: no producers tracked, no constraint engaged.
    pub fn new(config: Config, node: Node, controller: P) -> (r: Looper<P>)
        ensures
            r.config == config,
            r.node == node,
            r.controller == controller,
            r.buffers@.len() == 0,
            r.started == false,
            r.wf(),
    {
        Looper { config, node, controller, buffers: Vec::new(), started: false }
    }

    /// Drops the producers whose process left the foreground set; order
    /// of the survivors is kept.
    pub fn retain_topapp(&mut self, top: &TopApps)
        requires
            old(self).wf(),
        ensures
            final(self).buffers@ == retained(old(self).buffers@, top.pids@),
            final(self).wf(),
            final(self).config == old(self).config,
            final(self).node == old(self).node,
            final(self).controller == old(self).controller,
            final(self).started == old(self).started,
    {
        let ghost orig = self.buffers@;
        let mut kept: Vec<BufferEntry> = Vec::new();
        let mut rest: Vec<BufferEntry> = Vec::new();
        core::mem::swap(&mut rest, &mut self.buffers);
        proof {
            assert(orig.take(0) =~= Seq::<BufferEntry>::empty());
            assert(orig.skip(0) =~= orig);
        }
        let ghost processed: int = 0;
        while rest.len() > 0
            invariant
                0 <= processed <= orig.len(),
                rest@ == orig.skip(processed),
                kept@ == retained(orig.take(processed), top.pids@),
            decreases rest@.len(),
    {
            proof {
                assert(orig.skip(processed)[0] == orig[processed]);
                assert(orig.take(processed + 1).drop_last() =~= orig.take(processed));
                assert(orig.take(processed + 1).last() == orig[processed]);
                assert(orig.skip(processed).drop_first() =~= orig.skip(processed + 1));
            }
            let e = rest.remove(0);
            proof {
                assert(rest@ =~= orig.skip(processed).drop_first());
            }
            if contains_pid(&top.pids, e.key.1) {
                kept.push(e);
            }
            proof {
                processed = processed + 1;
            }
        }
        proof {
            assert(processed == orig.len());
            assert(orig.take(processed) =~= orig);
        }
        self.buffers = kept;
        proof {
            lemma_retained_wf(orig, top.pids@);
        }
    }

    /// Folds one telemetry record into the producer-state map, creating
    /// the producer's entry on first contact. Afterwards the map holds
    /// exactly one entry for the record's key.
    pub fn buffer_update(&mut self, d: &FasData)
        requires
            old(self).wf(),
        ensures
            final(self).wf(),
            keys_of(final(self).buffers@) == updated_keys(
                keys_of(old(self).buffers@),
                (d.buffer, d.pid),
            ),
            key_count(keys_of(final(self).buffers@), (d.buffer, d.pid)) == 1,
            final(self).config == old(self).config,
            final(self).node == old(self).node,
            final(self).controller == old(self).controller,
            final(self).started == old(self).started,
            keys_of(old(self).buffers@).contains((d.buffer, d.pid)) ==> ({
                let i = keys_of(old(self).buffers@).index_of((d.buffer, d.pid));
                &&& final(self).buffers@.len() == old(self).buffers@.len()
                &&& ingest_rel(
                    old(self).buffers@[i].buf,
                    final(self).buffers@[i].buf,
                    d.frametime,
                )
                &&& final(self).buffers@[i].key == (d.buffer, d.pid)
                &&& forall|j: int|
                    0 <= j < old(self).buffers@.len() && j != i ==> final(self).buffers@[j] == old(self).buffers@[j]
            }),
            !keys_of(old(self).buffers@).contains((d.buffer, d.pid)) ==> ({
                &&& final(self).buffers@.len() == old(self).buffers@.len() + 1
                &&& final(self).buffers@.take(old(self).buffers@.len() as int) == old(self).buffers@
                &&& final(self).buffers@.last().key == (d.buffer, d.pid)
                &&& final(self).buffers@.last().buf.window@ == seq![d.frametime]
                &&& final(self).buffers@.last().buf.scale == d.frametime
                &&& final(self).buffers@.last().buf.total_jank_time_ns == d.frametime
            }),
    {
        let ghost orig = self.buffers@;
        let ghost k = (d.buffer, d.pid);
        match find_buffer_idx(&self.buffers, d.buffer, d.pid) {
            Some(i) => {
                proof {
                    assert(keys_of(orig)[i as int] == orig[i as int].key);
                    assert(keys_of(orig).contains(k));
                    let io = keys_of(orig).index_of(k);
                    assert(0 <= io < keys_of(orig).len() && keys_of(orig)[io] == k);
                    assert(io == i as int);
                }
                let mut e = self.buffers.remove(i);
                e.buf.ingest(d);
                self.buffers.insert(i, e);
                proof {
                    assert(self.buffers@ =~= orig.update(i as int, self.buffers@[i as int]));
                    assert(keys_of(self.buffers@) =~= keys_of(orig));
                    assert(updated_keys(keys_of(orig), k) == keys_of(orig));
                    assert(buffers_wf(self.buffers@)) by {
                        assert(forall|j: int|
                            0 <= j < self.buffers@.len() && j != i as int
                                ==> (#[trigger] self.buffers@[j]) == orig[j]);
                    }
                    lemma_count_unique(keys_of(self.buffers@), k);
                }
            },
            None => {
                let mut b = Buffer::new();
                b.ingest(d);
                proof {
                    assert(Seq::<u64>::empty().push(d.frametime) =~= seq![d.frametime]);
                    assert(b.window@ =~= seq![d.frametime]);
                    assert(b.window@.drop_last() =~= Seq::<u64>::empty());
                    assert(b.window@.last() == d.frametime);
                    assert(sat_sum(Seq::<u64>::empty()) == 0);
                    assert(sat_add(0, d.frametime) == d.frametime);
                    assert(b.scale == d.frametime);
                    assert(b.total_jank_time_ns == d.frametime);
                }
                self.buffers.push(BufferEntry { key: (d.buffer, d.pid), buf: b });
                proof {
                    assert(self.buffers@.drop_last() =~= orig);
                    assert(self.buffers@.take(orig.len() as int) =~= orig);
                    assert(keys_of(self.buffers@) =~= keys_of(orig).push(k));
                    assert(buffers_wf(self.buffers@)) by {
                        assert(forall|j: int|
                            0 <= j < orig.len() ==> (#[trigger] self.buffers@[j]) == orig[j]);
                        assert(self.buffers@[orig.len() as int].buf.wf());
                        assert(forall|j: int|
                            0 <= j < orig.len() ==> keys_of(orig)[j] != k);
                        assert(forall|i2: int, j2: int|
                            0 <= i2 < j2 < keys_of(self.buffers@).len() ==> keys_of(
                                self.buffers@,
                            )[i2] != keys_of(self.buffers@)[j2]);
                    }
                    lemma_count_unique(keys_of(self.buffers@), k);
                    assert(keys_of(self.buffers@).contains(k)) by {
                        assert(keys_of(self.buffers@)[orig.len() as int] == k);
                    }
                }
            },
        }
    }

    /// One full cycle of the decision loop, driven by what the wait on
    /// the telemetry channel produced. Permanent channel closure is the
    /// one fatal input. A timeout refreshes eviction and, if a
    /// constraint was engaged, issues the `release_max` safety fallback
    /// without touching any producer state. A record refreshes
    /// eviction, folds the record in, refreshes the control-node cache
    /// when it has gone stale (and a directory scan was supplied),
    /// evaluates every tracked producer, resolves the events by
    /// priority, and issues at most the one resolved action; `limit`
    /// engages the constraint, either release disengages it. A
    /// controller failure propagates as the error of the cycle.
    pub fn process(
        &mut self,
        input: TelemetryInput,
        now: u64,
        top: &TopApps,
        scan: Option<&Vec<NodeEntry>>,
    ) -> (r: Result<Option<Action>, Error>)
        requires
            old(self).wf(),
        ensures
            final(self).wf(),
            final(self).config == old(self).config,
            final(self).controller == old(self).controller,
            input is Disconnected ==> *final(self) == *old(self) && (r matches Err(e)
                && e matches Error::Other(msg) && msg@ == "Binder Server Disconnected"@),
            input is TimedOut ==> ({
                &&& final(self).buffers@ == retained(old(self).buffers@, top.pids@)
                &&& final(self).node == old(self).node
                &&& old(self).started ==> match r {
                    Ok(a) => a == Some(Action::ReleaseMax) && !final(self).started,
                    Err(_) => final(self).started == old(self).started,
                }
                &&& !old(self).started ==> (r matches Ok(a) && a is None) && final(self).started
                    == old(self).started
            }),
            input matches TelemetryInput::Data(d) ==> ({
                let k = (d.buffer, d.pid);
                let entries = final(self).node.entries();
                let fg = views_of(top.packages@);
                &&& (old(self).node.stale(now) && scan is Some) ==> final(self).node.entries()
                    == scan_map(scan->Some_0@) && final(self).node.timer
                    == now
                &&& !(old(self).node.stale(now) && scan is Some) ==> final(self).node == old(self).node
                &&& keys_of(final(self).buffers@) == updated_keys(
                    keys_of(retained(old(self).buffers@, top.pids@)),
                    k,
                )
                &&& key_count(keys_of(final(self).buffers@), k) == 1
                &&& ({
                    // The surviving buffers are exactly the retained
                    // entries, untouched but for the record's own,
                    // which took the new sample (or was created from
                    // it).
                    let mid = retained(old(self).buffers@, top.pids@);
                    &&& keys_of(mid).contains(k) ==> ({
                        let i = keys_of(mid).index_of(k);
                        &&& final(self).buffers@.len() == mid.len()
                        &&& ingest_rel(mid[i].buf, final(self).buffers@[i].buf, d.frametime)
                        &&& final(self).buffers@[i].key == k
                        &&& forall|j: int|
                            0 <= j < mid.len() && j != i ==> final(self).buffers@[j] == mid[j]
                    })
                    &&& !keys_of(mid).contains(k) ==> ({
                        &&& final(self).buffers@.len() == mid.len() + 1
                        &&& final(self).buffers@.take(mid.len() as int) == mid
                        &&& final(self).buffers@.last().key == k
                        &&& final(self).buffers@.last().buf.window@ == seq![d.frametime]
                        &&& final(self).buffers@.last().buf.scale == d.frametime
                        &&& final(self).buffers@.last().buf.total_jank_time_ns == d.frametime
                    })
                })
                &&& ({
                    let decision = resolved(
                        events_of(final(self).buffers@, final(self).config, entries, fg),
                        event_for_key(final(self).buffers@, k, final(self).config, entries, fg),
                    );
                    &&& match r {
                        Ok(a) => {
                            &&& a == decision
                            &&& a == Some(Action::Limit) ==> final(self).started
                            &&& (a == Some(Action::Release) || a == Some(Action::ReleaseMax))
                                ==> !final(self).started
                            &&& a is None ==> final(self).started == old(self).started
                        },
                        // A record cycle fails only through the one
                        // controller call it makes, so only when an
                        // action was resolved; the flag survives the
                        // failure untouched.
                        Err(_) => decision is Some && final(self).started == old(self).started,
                    }
                    &&& decision is None ==> (r matches Ok(a) && a is None)
                })
            }),
    {
        match input {
            TelemetryInput::Disconnected => Err(Error::Other("Binder Server Disconnected")),
            TelemetryInput::TimedOut => {
                self.retain_topapp(top);
                if self.started {
                    match self.controller.release_max(&self.config) {
                        Ok(_) => {
                            self.started = false;
                            Ok(Some(Action::ReleaseMax))
                        },
                        Err(e) => Err(e),
                    }
                } else {
                    Ok(None)
                }
            },
            TelemetryInput::Data(d) => {
                self.retain_topapp(top);
                if self.node.needs_refresh(now) {
                    match scan {
                        Some(s) => self.node.refresh(s, now),
                        None => (),
                    }
                }
                self.buffer_update(&d);
                let ghost entries = self.node.entries();
                let ghost fg = views_of(top.packages@);
                let ghost k = (d.buffer, d.pid);
                let cur_event = match find_buffer_idx(&self.buffers, d.buffer, d.pid) {
                    Some(i) => {
                        proof {
                            assert(keys_of(self.buffers@)[i as int] == self.buffers@[
                                i as int
                            ].key);
                            assert(keys_of(self.buffers@).contains(k));
                            let io = keys_of(self.buffers@).index_of(k);
                            assert(0 <= io < keys_of(self.buffers@).len() && keys_of(
                                self.buffers@,
                            )[io] == k);
                            assert(io == i as int);
                        }
                        get_event(&self.buffers[i].buf, &self.config, &self.node, &top.packages)
                    },
                    None => {
                        proof {
                            lemma_count_unique(keys_of(self.buffers@), k);
                            assert(false);
                        }
                        Event::Idle
                    },
                };
                let mut events: Vec<Event> = Vec::new();
                proof {
                    assert(self.buffers@.take(0) =~= Seq::<BufferEntry>::empty());
                    assert(events_of(self.buffers@.take(0), self.config, entries, fg)
                        =~= Seq::<Event>::empty());
                }
                let mut j: usize = 0;
                while j < self.buffers.len()
                    invariant
                        j <= self.buffers@.len(),
                        entries == self.node.entries(),
                        fg == views_of(top.packages@),
                        events@ == events_of(self.buffers@.take(j as int), self.config, entries, fg),
                    decreases self.buffers@.len() - j,
                {
                    let ev = get_event(&self.buffers[j].buf, &self.config, &self.node, &top.packages);
                    events.push(ev);
                    proof {
                        assert(events_of(self.buffers@.take(j + 1), self.config, entries, fg)
                            =~= events_of(self.buffers@.take(j as int), self.config, entries, fg)
                            .push(get_event_spec(self.buffers@[j as int].buf, self.config, entries, fg)));
                    }
                    j = j + 1;
                }
                proof {
                    assert(self.buffers@.take(self.buffers@.len() as int) =~= self.buffers@);
                }
                let act = resolve(&events, cur_event);
                proof {
                    assert(cur_event == event_for_key(self.buffers@, k, self.config, entries, fg));
                }
                match act {
                    Some(Action::ReleaseMax) => {
                        match self.controller.release_max(&self.config) {
                            Ok(_) => {
                                self.started = false;
                                Ok(act)
                            },
                            Err(e) => Err(e),
                        }
                    },
                    Some(Action::Release) => {
                        match self.controller.release(&self.config) {
                            Ok(_) => {
                                self.started = false;
                                Ok(act)
                            },
                            Err(e) => Err(e),
                        }
                    },
                    Some(Action::Limit) => {
                        match self.controller.limit(&self.config) {
                            Ok(_) => {
                                self.started = true;
                                Ok(act)
                            },
                            Err(e) => Err(e),
                        }
                    },
                    None => Ok(None),
                }
            },
        }
    }
}

/// For every run of telemetry records all carrying one fixed producer
/// key, folding the whole run into a well-formed state map leaves
/// exactly one entry for that key — however many records arrived, and
/// whether or not the producer was tracked before.
pub proof fn lemma_one_entry_per_producer(keys: Seq<Producer>, records: Seq<Producer>, k: Producer)
    requires
        keys_unique(keys),
        records.len() > 0,
        forall|i: int| 0 <= i < records.len() ==> records[i] == k,
    ensures
        keys_unique(keys_after_all(keys, records)),
        key_count(keys_after_all(keys, records), k) == 1,
    decreases records.len(),
{
    let keys1 = updated_keys(keys, k);
    assert(keys_unique(keys1) && keys1.contains(k)) by {
        if keys.contains(k) {
        } else {
            assert(forall|j: int| 0 <= j < keys.len() ==> keys1[j] == keys[j]);
            assert(keys1[keys.len() as int] == k);
            assert(forall|j: int| 0 <= j < keys.len() ==> keys[j] != k);
        }
    }
    assert(records[0] == k);
    assert(updated_keys(keys, records[0]) == keys1);
    if records.len() == 1 {
        assert(records.drop_first().len() == 0);
        assert(keys_after_all(keys1, records.drop_first()) == keys1);
        assert(keys_after_all(keys, records) == keys1);
        lemma_count_unique(keys1, k);
    } else {
        let rest = records.drop_first();
        assert(forall|i: int| 0 <= i < rest.len() ==> #[trigger] rest[i] == k) by {
            assert(forall|i: int| 0 <= i < rest.len() ==> #[trigger] rest[i] == records[i + 1]);
        }
        lemma_one_entry_per_producer(keys1, rest, k);
        assert(keys_after_all(keys, records) == keys_after_all(keys1, rest));
    }
}

} // verus!
