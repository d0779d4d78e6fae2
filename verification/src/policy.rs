use vstd::prelude::*;

verus! {

/// The decision yielded by policy evaluation for one producer, a total
/// order of severity: `Idle < Limit < Release < ReleaseMax`. `Idle` is
/// the lowest rung, the no-opinion outcome. `Limit` asks to throttle
/// toward the target FPS; `Release` and `ReleaseMax` ask to relax
/// constraints partially or fully.
#[derive(Clone, Copy, PartialEq, Eq, Structural, Debug)]
pub enum Event {
    Idle,
    Limit,
    Release,
    ReleaseMax,
}

/// A control action issued to the external performance controller.
#[derive(Clone, Copy, PartialEq, Eq, Structural, Debug)]
pub enum Action {
    Limit,
    Release,
    ReleaseMax,
}

/// Priority resolution across all producers. Any `ReleaseMax` wins; any
/// `Release` wins next; otherwise only the current record's own
/// `Limit` request is honoured; otherwise no action is issued.
pub open spec fn resolved(events: Seq<Event>, cur: Event) -> Option<Action> {
    if events.contains(Event::ReleaseMax) {
        Some(Action::ReleaseMax)
    } else if events.contains(Event::Release) {
        Some(Action::Release)
    } else if cur == Event::Limit {
        Some(Action::Limit)
    } else {
        None
    }
}

/// A pushed sequence contains exactly the old elements and the new one.
pub(crate) proof fn lemma_push_contains<A>(s: Seq<A>, v: A, x: A)
    ensures
        s.push(v).contains(x) <==> (s.contains(x) || v == x),
{
    if s.contains(x) {
        let j = choose|j: int| 0 <= j < s.len() && s[j] == x;
        assert(s.push(v)[j] == x);
    }
    if v == x {
        assert(s.push(v)[s.len() as int] == x);
    }
    if s.push(v).contains(x) {
        let j = choose|j: int| 0 <= j < s.push(v).len() && s.push(v)[j] == x;
        if j < s.len() {
            assert(s[j] == x);
        }
    }
}

/// Resolves the per-producer events against the current record's own
/// event, by the priority order of `resolved`.
pub fn resolve(events: &Vec<Event>, cur: Event) -> (r: Option<Action>)
    ensures
        r == resolved(events@, cur),
{
    proof {
        assert(events@.take(0) =~= Seq::<Event>::empty());
    }
    let mut has_rmax = false;
    let mut has_rel = false;
    let mut i: usize = 0;
    while i < events.len()
        invariant
            i <= events@.len(),
            has_rmax == events@.take(i as int).contains(Event::ReleaseMax),
            has_rel == events@.take(i as int).contains(Event::Release),
        decreases events@.len() - i,
    {
        proof {
            assert(events@.take(i + 1) =~= events@.take(i as int).push(events@[i as int]));
            lemma_push_contains(events@.take(i as int), events@[i as int], Event::ReleaseMax);
            lemma_push_contains(events@.take(i as int), events@[i as int], Event::Release);
        }
        let e = events[i];
        if e == Event::ReleaseMax {
            has_rmax = true;
        }
        if e == Event::Release {
            has_rel = true;
        }
        i = i + 1;
    }
    proof {
        assert(events@.take(events@.len() as int) =~= events@);
    }
    if has_rmax {
        Some(Action::ReleaseMax)
    } else if has_rel {
        Some(Action::Release)
    } else if cur == Event::Limit {
        Some(Action::Limit)
    } else {
        None
    }
}

/// Resolution is monotonic in priority: whenever any producer's event
/// set contains `ReleaseMax`, the issued action is `release_max` —
/// never `release` or `limit` — regardless of the current record's own
/// event.
pub proof fn lemma_release_max_wins(events: Seq<Event>, cur: Event)
    requires
        events.contains(Event::ReleaseMax),
    ensures
        resolved(events, cur) == Some(Action::ReleaseMax),
{
}

/// The `Release` rung comes next: with no `ReleaseMax` present, any
/// `Release` resolves to `release`, again regardless of the current
/// record's own event — never an action more permissive than the
/// highest-priority event present.
pub proof fn lemma_release_wins_next(events: Seq<Event>, cur: Event)
    requires
        !events.contains(Event::ReleaseMax),
        events.contains(Event::Release),
    ensures
        resolved(events, cur) == Some(Action::Release),
{
}

/// When no producer asks for relief — no `ReleaseMax`, no `Release` —
/// and the current record's own event is `Limit`, the issued action is
/// exactly `limit`.
pub proof fn lemma_limit_when_unopposed(events: Seq<Event>, cur: Event)
    requires
        !events.contains(Event::ReleaseMax),
        !events.contains(Event::Release),
        cur == Event::Limit,
    ensures
        resolved(events, cur) == Some(Action::Limit),
{
}

/// When no producer yields any event above `Idle` and the current
/// record's own event is `Idle`, no action is issued.
pub proof fn lemma_no_action_when_idle(events: Seq<Event>, cur: Event)
    requires
        forall|i: int| 0 <= i < events.len() ==> events[i] == Event::Idle,
        cur == Event::Idle,
    ensures
        resolved(events, cur) is None,
{
    if events.contains(Event::ReleaseMax) {
        let j = choose|j: int| 0 <= j < events.len() && events[j] == Event::ReleaseMax;
        assert(false);
    }
    if events.contains(Event::Release) {
        let j = choose|j: int| 0 <= j < events.len() && events[j] == Event::Release;
        assert(false);
    }
}

} // verus!
