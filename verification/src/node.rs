use vstd::prelude::*;

use crate::error::Error;
use crate::text::str_eq;

verus! {

/// The control-node cache: a hash map from node id to node value. The
/// map itself comes from the `hashbrown` crate and is held opaquely; its
/// contents are named by `cache_entries` and every access goes through
/// the trusted wrappers below.
#[verifier::external_body]
pub struct CacheMap {
    inner: hashbrown::HashMap<String, String>,
}

/// The contents of a `CacheMap`, as a map from id view to value view.
pub uninterp spec fn cache_entries(m: CacheMap) -> Map<Seq<char>, Seq<char>>;

/// Relies on hashbrown::HashMap::new: a freshly built map is empty.
#[verifier::external_body]
fn cache_new() -> (r: CacheMap)
    ensures
        forall|k: Seq<char>| !cache_entries(r).contains_key(k),
{
    CacheMap { inner: hashbrown::HashMap::new() }
}

/// Relies on hashbrown::HashMap::insert: the entry for the key is set to
/// the value, other entries stay.
#[verifier::external_body]
fn cache_insert(m: &mut CacheMap, id: String, value: String)
    ensures
        cache_entries(*final(m)) == cache_entries(*old(m)).insert(id@, value@),
{
    m.inner.insert(id, value);
}

/// Relies on hashbrown::HashMap::remove: the entry for the key is gone,
/// other entries stay; the result says whether it was present.
#[verifier::external_body]
fn cache_remove(m: &mut CacheMap, id: &str) -> (r: bool)
    ensures
        cache_entries(*final(m)) == cache_entries(*old(m)).remove(id@),
        r == cache_entries(*old(m)).contains_key(id@),
{
    m.inner.remove(id).is_some()
}

/// Relies on hashbrown::HashMap::get: the cached value for the key, if
/// one is present.
#[verifier::external_body]
fn cache_get(m: &CacheMap, id: &str) -> (r: Option<String>)
    ensures
        match r {
            Some(v) => cache_entries(*m).contains_key(id@) && v@ == cache_entries(*m)[id@],
            None => !cache_entries(*m).contains_key(id@),
        },
{
    m.inner.get(id).cloned()
}

/// One entry of a directory scan: a node id (the file name) and the
/// node's value (the file content).
pub struct NodeEntry {
    pub id: String,
    pub value: String,
}

/// The map a directory scan denotes, entry by entry; a later entry for
/// the same id wins. A refresh replaces the whole cache with this, so
/// an id whose backing file is gone from the scan is gone from the
/// cache too.
pub open spec fn scan_map(scan: Seq<NodeEntry>) -> Map<Seq<char>, Seq<char>>
    decreases scan.len(),
{
    if scan.len() == 0 {
        Map::empty()
    } else {
        scan_map(scan.drop_last()).insert(scan.last().id@, scan.last().value@)
    }
}

/// How long a cached directory scan stays fresh, in milliseconds.
pub const REFRESH_MS: u64 = 1000;

/// The named performance profile held by the `mode` control node,
/// scaling the policy thresholds.
#[derive(Clone, Copy, PartialEq, Eq, Structural, Debug)]
pub enum Mode {
    Powersave,
    Balance,
    Performance,
    Fast,
}

/// The mode named by a string, if any.
pub open spec fn mode_from_name_spec(s: Seq<char>) -> Option<Mode> {
    if s == "powersave"@ {
        Some(Mode::Powersave)
    } else if s == "balance"@ {
        Some(Mode::Balance)
    } else if s == "performance"@ {
        Some(Mode::Performance)
    } else if s == "fast"@ {
        Some(Mode::Fast)
    } else {
        None
    }
}

/// The jank tolerance of a mode, in percent of the frame-time budget: a
/// faster profile tolerates less overshoot before a frame counts as
/// janky.
pub open spec fn tolerance_pct_spec(m: Mode) -> u64 {
    match m {
        Mode::Powersave => 150,
        Mode::Balance => 125,
        Mode::Performance => 110,
        Mode::Fast => 100,
    }
}

impl Mode {
    /// Parses a profile name.
    pub fn from_name(s: &str) -> (r: Option<Mode>)
        ensures
            r == mode_from_name_spec(s@),
    {
        if str_eq(s, "powersave") {
            Some(Mode::Powersave)
        } else if str_eq(s, "balance") {
            Some(Mode::Balance)
        } else if str_eq(s, "performance") {
            Some(Mode::Performance)
        } else if str_eq(s, "fast") {
            Some(Mode::Fast)
        } else {
            None
        }
    }

    /// The jank tolerance of this mode, in percent.
    pub fn tolerance_pct(&self) -> (r: u64)
        ensures
            r == tolerance_pct_spec(*self),
    {
        match self {
            Mode::Powersave => 150,
            Mode::Balance => 125,
            Mode::Performance => 110,
            Mode::Fast => 100,
        }
    }
}

/// The Control-Node Store: a cached view over a directory of plain
/// key/value control files. The caller that owns the backing directory
/// performs the filesystem work (it writes, deletes and scans files) and
/// hands the scans in; this store keeps the cache, its refresh
/// timestamp, and the bounded-staleness discipline.
pub struct Node {
    pub cache: CacheMap,
    pub timer: u64,
}

impl Node {
    /// The cached entries, id view to value view.
    pub open spec fn entries(self) -> Map<Seq<char>, Seq<char>> {
        cache_entries(self.cache)
    }

    /// The cache is older than the refresh interval at time `now`
    /// (milliseconds on one monotonic clock).
    pub open spec fn stale(self, now: u64) -> bool {
        now > self.timer + REFRESH_MS
    }

    /// Builds the store at time `now` from a scan of the backing
    /// directory, after the caller has ensured the directory exists and
    /// reset the `mode` file: whatever the scan held, the `mode` node
    /// starts at `balance`.
    pub fn init(scan: &Vec<NodeEntry>, now: u64) -> (r: Node)
        ensures
            r.entries() == scan_map(scan@).insert("mode"@, "balance"@),
            r.timer == now,
    {
        let mut node = Node { cache: cache_new(), timer: now };
        node.refresh(scan, now);
        cache_insert(&mut node.cache, "mode".to_owned(), "balance".to_owned());
        node
    }

    /// Replaces the cache with a fresh directory scan — an id whose
    /// backing file is gone is evicted — and restarts the staleness
    /// clock.
    pub fn refresh(&mut self, scan: &Vec<NodeEntry>, now: u64)
        ensures
            final(self).entries() == scan_map(scan@),
            final(self).timer == now,
    {
        self.cache = cache_new();
        proof {
            assert(scan@.take(0) =~= Seq::<NodeEntry>::empty());
            assert(cache_entries(self.cache) =~= scan_map(scan@.take(0)));
        }
        let mut i: usize = 0;
        while i < scan.len()
            invariant
                i <= scan@.len(),
                cache_entries(self.cache) == scan_map(scan@.take(i as int)),
            decreases scan@.len() - i,
        {
            proof {
                assert(scan@.take(i + 1).drop_last() =~= scan@.take(i as int));
                assert(scan@.take(i + 1).last() == scan@[i as int]);
            }
            cache_insert(&mut self.cache, scan[i].id.clone(), scan[i].value.clone());
            i = i + 1;
        }
        proof {
            assert(scan@.take(scan@.len() as int) =~= scan@);
        }
        self.timer = now;
    }

    /// The cache is due for a refresh at time `now`.
    pub fn needs_refresh(&self, now: u64) -> (r: bool)
        ensures
            r == self.stale(now),
    {
        now > REFRESH_MS && now - REFRESH_MS > self.timer
    }

    /// A pure cache read, with no refresh: the side-effect-free lookup
    /// that policy evaluation uses.
    pub fn lookup(&self, id: &str) -> (r: Option<String>)
        ensures
            match r {
                Some(v) => self.entries().contains_key(id@) && v@ == self.entries()[id@],
                None => !self.entries().contains_key(id@),
            },
    {
        cache_get(&self.cache, id)
    }

    /// Reads the node `id` at time `now`. If the cache has gone stale and
    /// the caller supplied a fresh directory scan, the cache is first
    /// rebuilt from that scan — so an id whose backing file is gone
    /// misses; within the refresh interval the cached value is returned
    /// and no scan is consulted. A miss is a `NodeNotFound` error.
    pub fn get_node(&mut self, id: &str, now: u64, scan: Option<&Vec<NodeEntry>>) -> (r: Result<
        String,
        Error,
    >)
        ensures
            (final(self).entries(), final(self).timer) == after_get(
                *old(self),
                now,
                scan_view(scan),
            ),
            match r {
                Ok(v) => get_view(*old(self), id@, now, scan_view(scan)) == Some(v@)
                    && final(self).entries().contains_key(id@)
                    && v@ == final(self).entries().index(id@),
                Err(e) => get_view(*old(self), id@, now, scan_view(scan)) is None
                    && !final(self).entries().contains_key(id@)
                    && e is NodeNotFound,
            },
    {
        if self.needs_refresh(now) {
            match scan {
                Some(s) => self.refresh(s, now),
                None => (),
            }
        }
        match cache_get(&self.cache, id) {
            Some(v) => Ok(v),
            None => Err(Error::NodeNotFound),
        }
    }

    /// Records a node the caller just wrote to the backing directory:
    /// the cache is updated with the new id and its default value.
    pub fn create_node(&mut self, id: &str, default: &str) -> (r: Result<(), Error>)
        ensures
            r is Ok,
            final(self).entries() == old(self).entries().insert(id@, default@),
            final(self).timer == old(self).timer,
    {
        cache_insert(&mut self.cache, id.to_owned(), default.to_owned());
        Ok(())
    }

    /// Records a node the caller deleted from the backing directory. A
    /// node the cache never saw cannot be deleted: that is the I/O error
    /// the backing filesystem would report for a missing file.
    pub fn remove_node(&mut self, id: &str) -> (r: Result<(), Error>)
        ensures
            final(self).timer == old(self).timer,
            old(self).entries().contains_key(id@) ==> r is Ok
                && final(self).entries() == old(self).entries().remove(id@),
            !old(self).entries().contains_key(id@) ==> (r matches Err(e) && e is Io)
                && final(self).entries() == old(self).entries(),
    {
        proof {
            if !old(self).entries().contains_key(id@) {
                assert(old(self).entries().remove(id@) =~= old(self).entries());
            }
        }
        if cache_remove(&mut self.cache, id) {
            Ok(())
        } else {
            Err(Error::Io)
        }
    }
}

/// The view of an optional directory scan.
pub open spec fn scan_view(scan: Option<&Vec<NodeEntry>>) -> Option<Seq<NodeEntry>> {
    match scan {
        Some(v) => Some(v@),
        None => None,
    }
}

/// The cache state after a `get_node` call at time `now` with scan
/// `scan`: entries first, refresh timestamp second.
pub open spec fn after_get(n: Node, now: u64, scan: Option<Seq<NodeEntry>>) -> (
    Map<Seq<char>, Seq<char>>,
    u64,
) {
    if n.stale(now) && scan is Some {
        (scan_map(scan->Some_0), now)
    } else {
        (n.entries(), n.timer)
    }
}

/// What a `get_node` call at time `now` returns for `id`.
pub open spec fn get_view(n: Node, id: Seq<char>, now: u64, scan: Option<Seq<NodeEntry>>) -> Option<
    Seq<char>,
> {
    let m = after_get(n, now, scan).0;
    if m.contains_key(id) {
        Some(m[id])
    } else {
        None
    }
}

/// Bounded staleness of the control-node cache. Two reads within the
/// refresh interval of the last refresh return identical cached content
/// and leave the cache untouched, whatever directory scans are on offer
/// — no filesystem read is consulted; a read past the interval, given a
/// scan, rebuilds the cache from that scan alone and restarts the
/// clock.
pub proof fn lemma_bounded_staleness(
    n: Node,
    id: Seq<char>,
    now1: u64,
    now2: u64,
    scan1: Option<Seq<NodeEntry>>,
    scan2: Option<Seq<NodeEntry>>,
    now3: u64,
    scan3: Seq<NodeEntry>,
)
    requires
        !n.stale(now1),
        !n.stale(now2),
        n.stale(now3),
    ensures
        after_get(n, now1, scan1) == (n.entries(), n.timer),
        get_view(n, id, now1, scan1) == get_view(n, id, now2, scan2),
        after_get(n, now3, Some(scan3)) == (scan_map(scan3), now3),
{
}

} // verus!
