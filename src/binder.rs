//! The listener policy of a bound trigger: what one firing of its event, or
//! the end of one of its delays, does. The host runs the listeners and the
//! timers; this module decides.
use vstd::prelude::*;
use crate::triggers::{QueuePolicy, TriggerSpec, TriggerView, opt_view};

verus! {

/// What a firing, or the end of a delay, leads to.
#[derive(PartialEq, Eq, Structural, Clone, Copy, Debug)]
pub enum Decision {
    /// The listener was removed after a `once` firing: nothing happens.
    Inactive,
    /// The target filter or the `changed` check rejected the firing.
    Discarded,
    /// The downstream action starts now.
    Start,
    /// A throttle window is open: the action is dropped.
    Throttled,
    /// The action waits `delay` milliseconds under `ticket`; the pending
    /// action `cancel`, if any, no longer runs.
    Schedule { ticket: u64, delay: u32, cancel: Option<u64> },
    /// Under `queue:first` an action is already pending: the firing is ignored.
    KeepPending,
    /// The delay that ended belongs to no pending action (it was replaced).
    Stale,
}

/// The outcome of one firing.
#[derive(PartialEq, Eq, Structural, Clone, Copy, Debug)]
pub struct FireResult {
    /// Whether the event must stop propagating (`consume`).
    pub stop_propagation: bool,
    pub decision: Decision,
}

/// One firing of the listened event, as the host observed it.
#[derive(Clone, Debug)]
pub struct Firing {
    /// The time of the firing, in milliseconds.
    pub now: u64,
    /// Whether the node the event was dispatched to matches the target filter.
    pub target_matches: bool,
    /// The current value of the form control, for a control-eliciting event.
    pub value: Option<String>,
}

/// The state that one bound listener keeps between firings.
#[derive(Clone, Debug)]
pub struct ListenerState {
    removed: bool,
    last_value: Option<String>,
    pending: Vec<u64>,
    next_ticket: u64,
    last_start: Option<u64>,
}

pub struct ListenerView {
    pub removed: bool,
    pub last_value: Option<Seq<char>>,
    pub pending: Seq<u64>,
    pub next_ticket: u64,
    pub last_start: Option<u64>,
}

impl View for ListenerState {
    type V = ListenerView;

    closed spec fn view(&self) -> ListenerView {
        ListenerView {
            removed: self.removed,
            last_value: opt_view(self.last_value),
            pending: self.pending@,
            next_ticket: self.next_ticket,
            last_start: self.last_start,
        }
    }
}

/// Whether an action may start at `now` given the start of the previous one.
pub open spec fn throttle_allows(throttle: Option<u32>, last_start: Option<u64>, now: u64) -> bool {
    match throttle {
        None => true,
        Some(w) => match last_start {
            None => true,
            Some(p) => now >= p && now - p >= w,
        },
    }
}

/// Starting the action at `now`, or dropping it inside a throttle window.
pub open spec fn start_at(t: TriggerView, s: ListenerView, now: u64) -> (ListenerView, Decision) {
    if throttle_allows(t.throttle, s.last_start, now) {
        (ListenerView { last_start: Some(now), ..s }, Decision::Start)
    } else {
        (s, Decision::Throttled)
    }
}

/// Whether the trigger delays its action.
pub open spec fn delays(t: TriggerView) -> bool {
    t.delay is Some && t.queue != QueuePolicy::Immediate
}

/// Whether a firing passes the target filter and the `changed` check of a
/// listener that is still attached.
pub open spec fn qualifies(
    t: TriggerView,
    s: ListenerView,
    target_matches: bool,
    value: Option<Seq<char>>,
) -> bool {
    &&& !s.removed
    &&& (t.target is None || target_matches)
    &&& !(t.changed && value is Some && s.last_value == value)
}

/// The state and outcome after a firing at `now`.
pub open spec fn fire_spec(
    t: TriggerView,
    s: ListenerView,
    now: u64,
    target_matches: bool,
    value: Option<Seq<char>>,
) -> (ListenerView, FireResult) {
    if s.removed {
        (s, FireResult { stop_propagation: false, decision: Decision::Inactive })
    } else if !qualifies(t, s, target_matches, value) {
        (s, FireResult { stop_propagation: t.consume, decision: Decision::Discarded })
    } else {
        let s1 = ListenerView {
            removed: t.once,
            last_value: if t.changed && value is Some {
                value
            } else {
                s.last_value
            },
            ..s
        };
        if delays(t) {
            if t.queue == QueuePolicy::First && s1.pending.len() > 0 {
                (s1, FireResult { stop_propagation: t.consume, decision: Decision::KeepPending })
            } else {
                let ticket = s1.next_ticket;
                let cancel = if t.queue == QueuePolicy::Last && s1.pending.len() > 0 {
                    Some(s1.pending[0])
                } else {
                    None
                };
                let s2 = ListenerView {
                    next_ticket: (ticket + 1) as u64,
                    pending: if t.queue == QueuePolicy::Last {
                        seq![ticket]
                    } else {
                        s1.pending.push(ticket)
                    },
                    ..s1
                };
                (
                    s2,
                    FireResult {
                        stop_propagation: t.consume,
                        decision: Decision::Schedule { ticket, delay: t.delay->0, cancel },
                    },
                )
            }
        } else {
            let (s2, d) = start_at(t, s1, now);
            (s2, FireResult { stop_propagation: t.consume, decision: d })
        }
    }
}

/// `s` without the occurrences of `x`.
pub open spec fn without(s: Seq<u64>, x: u64) -> Seq<u64>
    decreases s.len(),
{
    if s.len() == 0 {
        s
    } else if s.last() == x {
        without(s.drop_last(), x)
    } else {
        without(s.drop_last(), x).push(s.last())
    }
}

/// The state and outcome when the delay of `ticket` ends at `now`.
pub open spec fn elapse_spec(t: TriggerView, s: ListenerView, ticket: u64, now: u64) -> (
    ListenerView,
    Decision,
) {
    if s.pending.contains(ticket) {
        start_at(t, ListenerView { pending: without(s.pending, ticket), ..s }, now)
    } else {
        (s, Decision::Stale)
    }
}

fn remove_ticket(v: &Vec<u64>, x: u64) -> (r: (Vec<u64>, bool))
    ensures
        r.0@ == without(v@, x),
        r.1 == v@.contains(x),
{
    let mut out: Vec<u64> = Vec::new();
    let mut found = false;
    let mut i: usize = 0;
    assert(v@.subrange(0, 0) == Seq::<u64>::empty());
    while i < v.len()
        invariant
            i <= v@.len(),
            out@ == without(v@.subrange(0, i as int), x),
            found == v@.subrange(0, i as int).contains(x),
        decreases v@.len() - i,
    {
        let ghost prev = v@.subrange(0, i as int);
        let ghost next = v@.subrange(0, i + 1);
        assert(next.drop_last() == prev);
        assert(next.last() == v@[i as int]);
        if v[i] == x {
            found = true;
            assert(next[i as int] == x);
        } else {
            out.push(v[i]);
            assert(next.contains(x) == prev.contains(x)) by {
                if next.contains(x) {
                    let j = choose|j: int| 0 <= j < next.len() && next[j] == x;
                    assert(prev[j] == x);
                }
                if prev.contains(x) {
                    let j = choose|j: int| 0 <= j < prev.len() && prev[j] == x;
                    assert(next[j] == x);
                }
            }
        }
        i = i + 1;
    }
    assert(v@.subrange(0, v@.len() as int) == v@);
    (out, found)
}

fn start_now(t: &TriggerSpec, s: &mut ListenerState, now: u64) -> (d: Decision)
    ensures
        (final(s)@, d) == start_at(t@, old(s)@, now),
{
    let allowed = match t.throttle {
        None => true,
        Some(w) => match s.last_start {
            None => true,
            Some(p) => now >= p && now - p >= w as u64,
        },
    };
    if allowed {
        s.last_start = Some(now);
        Decision::Start
    } else {
        Decision::Throttled
    }
}

impl ListenerState {
    /// A listener that has not fired yet; `initial_value` is the control's
    /// value at bind time, for `changed`.
    pub fn new(initial_value: Option<String>) -> (r: ListenerState)
        ensures
            r@ == (ListenerView {
                removed: false,
                last_value: opt_view(initial_value),
                pending: Seq::empty(),
                next_ticket: 0,
                last_start: None,
            }),
    {
        ListenerState {
            removed: false,
            last_value: initial_value,
            pending: Vec::new(),
            next_ticket: 0,
            last_start: None,
        }
    }

    /// Whether the listener was removed after its `once` firing.
    pub fn is_removed(&self) -> (r: bool)
        ensures
            r == self@.removed,
    {
        self.removed
    }

    /// Whether a ticket is left for another delayed action.
    pub fn can_schedule(&self) -> (r: bool)
        ensures
            r == (self@.next_ticket < u64::MAX),
    {
        self.next_ticket < u64::MAX
    }

    /// The tickets of the delayed actions that are still pending.
    pub fn pending(&self) -> (r: Vec<u64>)
        ensures
            r@ == self@.pending,
    {
        self.pending.clone()
    }

    /// Applies the policy of `spec` to one firing: `consume`, the target
    /// filter, `changed`, `once`, `delay` under the queue policy, then
    /// `throttle`.
    pub fn fire(&mut self, spec: &TriggerSpec, ev: &Firing) -> (r: FireResult)
        requires
            old(self)@.next_ticket < u64::MAX,
        ensures
            (final(self)@, r) == fire_spec(
                spec@,
                old(self)@,
                ev.now,
                ev.target_matches,
                opt_view(ev.value),
            ),
    {
        if self.removed {
            return FireResult { stop_propagation: false, decision: Decision::Inactive };
        }
        let stop = spec.consume;
        if spec.target.is_some() && !ev.target_matches {
            return FireResult { stop_propagation: stop, decision: Decision::Discarded };
        }
        if spec.changed {
            match (&ev.value, &self.last_value) {
                (Some(v), Some(last)) => {
                    if *v == *last {
                        return FireResult { stop_propagation: stop, decision: Decision::Discarded };
                    }
                },
                _ => {},
            }
            if ev.value.is_some() {
                self.last_value = ev.value.clone();
                assert(opt_view(self.last_value) == opt_view(ev.value));
            }
        }
        self.removed = spec.once;
        match spec.delay {
            Some(d) => {
                if spec.queue != QueuePolicy::Immediate {
                    if spec.queue == QueuePolicy::First && self.pending.len() > 0 {
                        return FireResult { stop_propagation: stop, decision: Decision::KeepPending };
                    }
                    let ticket = self.next_ticket;
                    let cancel = if spec.queue == QueuePolicy::Last && self.pending.len() > 0 {
                        Some(self.pending[0])
                    } else {
                        None
                    };
                    self.next_ticket = ticket + 1;
                    if spec.queue == QueuePolicy::Last {
                        self.pending = vec![ticket];
                        assert(self.pending@ == seq![ticket]);
                    } else {
                        self.pending.push(ticket);
                    }
                    return FireResult {
                        stop_propagation: stop,
                        decision: Decision::Schedule { ticket, delay: d, cancel },
                    };
                }
            },
            None => {},
        }
        let d = start_now(spec, self, ev.now);
        FireResult { stop_propagation: stop, decision: d }
    }

    /// The delay of `ticket` has ended at `now`: the action starts unless the
    /// ticket was replaced or a throttle window is open.
    pub fn timer_elapsed(&mut self, spec: &TriggerSpec, ticket: u64, now: u64) -> (r: Decision)
        ensures
            (final(self)@, r) == elapse_spec(spec@, old(self)@, ticket, now),
    {
        let (rest, found) = remove_ticket(&self.pending, ticket);
        if !found {
            return Decision::Stale;
        }
        self.pending = rest;
        start_now(spec, self, now)
    }
}

/// One input to a listener: a firing of its event, or the end of a delay.
pub enum Input {
    Fire { now: u64, target_matches: bool, value: Option<Seq<char>> },
    Elapse { ticket: u64, now: u64 },
}

pub open spec fn input_time(i: Input) -> u64 {
    match i {
        Input::Fire { now, .. } => now,
        Input::Elapse { now, .. } => now,
    }
}

/// The state and decision after one input.
pub open spec fn step(t: TriggerView, s: ListenerView, i: Input) -> (ListenerView, Decision) {
    match i {
        Input::Fire { now, target_matches, value } => {
            let (s1, r) = fire_spec(t, s, now, target_matches, value);
            (s1, r.decision)
        },
        Input::Elapse { ticket, now } => elapse_spec(t, s, ticket, now),
    }
}

/// What a sequence of inputs leads to: the final state, the decision for
/// each input, and the times at which the action started.
pub struct RunView {
    pub state: ListenerView,
    pub decisions: Seq<Decision>,
    pub starts: Seq<u64>,
}

pub open spec fn run(t: TriggerView, s: ListenerView, ins: Seq<Input>) -> RunView
    decreases ins.len(),
{
    if ins.len() == 0 {
        RunView { state: s, decisions: Seq::empty(), starts: Seq::empty() }
    } else {
        let r = run(t, s, ins.drop_last());
        let (s2, d) = step(t, r.state, ins.last());
        RunView {
            state: s2,
            decisions: r.decisions.push(d),
            starts: if d == Decision::Start {
                r.starts.push(input_time(ins.last()))
            } else {
                r.starts
            },
        }
    }
}

proof fn lemma_step_start(t: TriggerView, s: ListenerView, i: Input)
    ensures
        ({
            let (s2, d) = step(t, s, i);
            &&& d == Decision::Start ==> s2.last_start == Some(input_time(i))
                && throttle_allows(t.throttle, s.last_start, input_time(i))
            &&& d != Decision::Start ==> s2.last_start == s.last_start
            &&& s.removed ==> s2.removed
            &&& (s.removed && i is Fire) ==> d == Decision::Inactive
        }),
{
}

proof fn lemma_run_starts(t: TriggerView, s: ListenerView, ins: Seq<Input>)
    requires
        t.throttle is Some,
        s.last_start is None,
    ensures
        ({
            let r = run(t, s, ins);
            &&& r.state.last_start == if r.starts.len() > 0 {
                Some(r.starts.last())
            } else {
                None
            }
            &&& forall|i: int, j: int|
                0 <= i < j < r.starts.len() ==> #[trigger] r.starts[j] >= #[trigger] r.starts[i]
                    + t.throttle->0
        }),
    decreases ins.len(),
{
    if ins.len() > 0 {
        lemma_run_starts(t, s, ins.drop_last());
        let r0 = run(t, s, ins.drop_last());
        lemma_step_start(t, r0.state, ins.last());
        let r = run(t, s, ins);
        let (s2, d) = step(t, r0.state, ins.last());
        if d == Decision::Start {
            let n = r0.starts.len();
            assert forall|i: int, j: int|
                0 <= i < j < r.starts.len() implies #[trigger] r.starts[j] >= #[trigger] r.starts[i]
                + t.throttle->0 by {
                if j == n && i < n - 1 {
                    assert(r0.starts[n - 1] >= r0.starts[i] + t.throttle->0);
                }
                if j < n {
                    assert(r.starts[j] == r0.starts[j]);
                    assert(r.starts[i] == r0.starts[i]);
                }
            }
        }
    }
}

/// Throttle: along any sequence of firings and delay ends from a listener
/// that has not started an action yet, any two starts of the action are at
/// least the throttle window apart.
pub proof fn lemma_throttle_spacing(t: TriggerView, s: ListenerView, ins: Seq<Input>)
    requires
        t.throttle is Some,
        s.last_start is None,
    ensures
        forall|i: int, j: int|
            0 <= i < j < run(t, s, ins).starts.len() ==> #[trigger] run(t, s, ins).starts[j]
                >= #[trigger] run(t, s, ins).starts[i] + t.throttle->0,
{
    lemma_run_starts(t, s, ins);
}

proof fn lemma_removed_stays(t: TriggerView, s: ListenerView, ins: Seq<Input>)
    requires
        s.removed,
    ensures
        run(t, s, ins).state.removed,
        run(t, s, ins).decisions.len() == ins.len(),
        forall|k: int|
            0 <= k < ins.len() && (#[trigger] ins[k]) is Fire ==> run(t, s, ins).decisions[k]
                == Decision::Inactive,
    decreases ins.len(),
{
    if ins.len() > 0 {
        lemma_removed_stays(t, s, ins.drop_last());
        let r0 = run(t, s, ins.drop_last());
        lemma_step_start(t, r0.state, ins.last());
        assert forall|k: int|
            0 <= k < ins.len() && (#[trigger] ins[k]) is Fire implies run(t, s, ins).decisions[k]
            == Decision::Inactive by {
            if k < ins.len() - 1 {
                assert(ins.drop_last()[k] == ins[k]);
            }
        }
    }
}

/// Once: the first qualifying firing of a `once` trigger acts (it starts,
/// schedules or is throttled) and removes the listener; after it, no firing
/// in any later sequence of inputs has any effect.
pub proof fn lemma_once_fires_once(
    t: TriggerView,
    s: ListenerView,
    now: u64,
    target_matches: bool,
    value: Option<Seq<char>>,
    later: Seq<Input>,
)
    requires
        t.once,
        qualifies(t, s, target_matches, value),
    ensures
        ({
            let (s1, r) = fire_spec(t, s, now, target_matches, value);
            &&& r.decision != Decision::Inactive && r.decision != Decision::Discarded
            &&& s1.removed
            &&& forall|k: int|
                0 <= k < later.len() && (#[trigger] later[k]) is Fire ==> run(
                    t,
                    s1,
                    later,
                ).decisions[k] == Decision::Inactive
        }),
{
    let (s1, r) = fire_spec(t, s, now, target_matches, value);
    lemma_removed_stays(t, s1, later);
}

/// Whether every pending ticket was handed out before the next one.
pub open spec fn tickets_below(s: ListenerView) -> bool {
    forall|k: int| 0 <= k < s.pending.len() ==> #[trigger] s.pending[k] < s.next_ticket
}

/// Queue `last`: a second qualifying firing while the first one's action is
/// pending cancels that action (its delay ends with no effect) and restarts
/// the full delay from this firing.
pub proof fn lemma_queue_last_restarts(
    t: TriggerView,
    s: ListenerView,
    now: u64,
    target_matches: bool,
    value: Option<Seq<char>>,
    later: u64,
)
    requires
        delays(t),
        t.queue == QueuePolicy::Last,
        qualifies(t, s, target_matches, value),
        s.pending.len() == 1,
        tickets_below(s),
        s.next_ticket < u64::MAX,
    ensures
        ({
            let (s1, r) = fire_spec(t, s, now, target_matches, value);
            &&& r.decision == (Decision::Schedule {
                ticket: s.next_ticket,
                delay: t.delay->0,
                cancel: Some(s.pending[0]),
            })
            &&& s1.pending == seq![s.next_ticket]
            &&& elapse_spec(t, s1, s.pending[0], later) == (s1, Decision::Stale)
        }),
{
    let (s1, r) = fire_spec(t, s, now, target_matches, value);
    assert(s.pending[0] < s.next_ticket);
    assert(!s1.pending.contains(s.pending[0])) by {
        if s1.pending.contains(s.pending[0]) {
            let j = choose|j: int| 0 <= j < s1.pending.len() && s1.pending[j] == s.pending[0];
            assert(s1.pending[j] == s.next_ticket);
        }
    }
}

/// Queue `first`: a second qualifying firing while an action is pending
/// changes nothing that is scheduled.
pub proof fn lemma_queue_first_keeps(
    t: TriggerView,
    s: ListenerView,
    now: u64,
    target_matches: bool,
    value: Option<Seq<char>>,
)
    requires
        delays(t),
        t.queue == QueuePolicy::First,
        qualifies(t, s, target_matches, value),
        s.pending.len() > 0,
    ensures
        ({
            let (s1, r) = fire_spec(t, s, now, target_matches, value);
            &&& r.decision == Decision::KeepPending
            &&& s1.pending == s.pending
            &&& s1.next_ticket == s.next_ticket
        }),
{
}

proof fn lemma_without_below(s: Seq<u64>, x: u64, bound: u64)
    requires
        forall|k: int| 0 <= k < s.len() ==> #[trigger] s[k] < bound,
    ensures
        forall|k: int|
            0 <= k < without(s, x).len() ==> #[trigger] without(s, x)[k] < bound,
    decreases s.len(),
{
    if s.len() > 0 {
        let d = s.drop_last();
        assert forall|k: int| 0 <= k < d.len() implies #[trigger] d[k] < bound by {
            assert(d[k] == s[k]);
        }
        lemma_without_below(d, x, bound);
        let w = without(d, x);
        assert(s.last() == s[s.len() - 1]);
        if s.last() != x {
            assert forall|k: int| 0 <= k < w.push(s.last()).len() implies #[trigger] w.push(
                s.last(),
            )[k] < bound by {
                if k < w.len() {
                    assert(w.push(s.last())[k] == w[k]);
                }
            }
        }
    }
}

/// Every input keeps each pending ticket below the next one to be handed
/// out, as long as tickets are left; a new listener has no pending ticket.
pub proof fn lemma_step_keeps_tickets_below(t: TriggerView, s: ListenerView, i: Input)
    requires
        tickets_below(s),
        s.next_ticket < u64::MAX,
    ensures
        tickets_below(step(t, s, i).0),
{
    match i {
        Input::Fire { now, target_matches, value } => {
            let s2 = step(t, s, i).0;
            assert forall|k: int| 0 <= k < s2.pending.len() implies #[trigger] s2.pending[k]
                < s2.next_ticket by {
                if s2.pending.len() > s.pending.len() && k == s.pending.len() {
                } else if s2.pending != s.pending && s2.pending.len() == 1 {
                } else {
                    assert(s2.pending[k] == s.pending[k]);
                }
            }
        },
        Input::Elapse { ticket, now } => {
            lemma_without_below(s.pending, ticket, s.next_ticket);
        },
    }
}

/// What a polling timer does on a tick.
#[derive(PartialEq, Eq, Structural, Clone, Copy, Debug)]
pub enum PollAction {
    /// The element is still in the page: the action runs.
    Fire,
    /// The element has left the page: the timer stops for good.
    Cancel,
}

/// A polling tick: act while the element is attached to the document,
/// cancel the timer once it is not.
pub fn poll_tick(attached: bool) -> (r: PollAction)
    ensures
        r == if attached {
            PollAction::Fire
        } else {
            PollAction::Cancel
        },
{
    if attached {
        PollAction::Fire
    } else {
        PollAction::Cancel
    }
}

/// Queue `last`, over a whole run: two qualifying firings at `t0` and `t1`
/// of a delayed trigger with no throttle, then the end of each delay. The
/// first delay ends with no effect; exactly one action starts, when the delay
/// restarted by the second firing ends.
pub proof fn lemma_queue_last_run(
    t: TriggerView,
    s: ListenerView,
    t0: u64,
    t1: u64,
    e0: u64,
    e1: u64,
)
    requires
        delays(t),
        t.queue == QueuePolicy::Last,
        t.throttle is None,
        !t.once,
        !t.changed,
        t.target is None,
        !s.removed,
        s.pending.len() == 0,
        s.next_ticket < u64::MAX - 1,
    ensures
        ({
            let k = s.next_ticket;
            let ins = seq![
                Input::Fire { now: t0, target_matches: true, value: None },
                Input::Fire { now: t1, target_matches: true, value: None },
                Input::Elapse { ticket: k, now: e0 },
                Input::Elapse { ticket: (k + 1) as u64, now: e1 },
            ];
            let r = run(t, s, ins);
            &&& r.decisions == seq![
                Decision::Schedule { ticket: k, delay: t.delay->0, cancel: None },
                Decision::Schedule { ticket: (k + 1) as u64, delay: t.delay->0, cancel: Some(k) },
                Decision::Stale,
                Decision::Start,
            ]
            &&& r.starts == seq![e1]
        }),
{
    let k = s.next_ticket;
    let ins = seq![
        Input::Fire { now: t0, target_matches: true, value: None },
        Input::Fire { now: t1, target_matches: true, value: None },
        Input::Elapse { ticket: k, now: e0 },
        Input::Elapse { ticket: (k + 1) as u64, now: e1 },
    ];
    assert(ins.drop_last().drop_last().drop_last().drop_last() =~= Seq::<Input>::empty());
    let s1 = step(t, s, ins[0]).0;
    let s2 = step(t, s1, ins[1]).0;
    assert(s2.pending =~= seq![(k + 1) as u64]);
    assert(!s2.pending.contains(k)) by {
        if s2.pending.contains(k) {
            let j = choose|j: int| 0 <= j < s2.pending.len() && s2.pending[j] == k;
            assert(s2.pending[j] == (k + 1) as u64);
        }
    }
    assert(s2.pending.contains((k + 1) as u64)) by {
        assert(s2.pending[0] == (k + 1) as u64);
    }
    assert(without(s2.pending, (k + 1) as u64) =~= Seq::<u64>::empty()) by {
        assert(s2.pending.last() == (k + 1) as u64);
        assert(s2.pending.drop_last() =~= Seq::<u64>::empty());
        assert(without(s2.pending.drop_last(), (k + 1) as u64) =~= Seq::<u64>::empty());
    }
    assert(ins.drop_last().drop_last().drop_last() =~= seq![ins[0]]);
    assert(ins.drop_last().drop_last() =~= seq![ins[0], ins[1]]);
    assert(ins.drop_last() =~= seq![ins[0], ins[1], ins[2]]);
    let r1 = run(t, s, seq![ins[0]]);
    assert(seq![ins[0]].drop_last() =~= Seq::<Input>::empty());
    let r2 = run(t, s, seq![ins[0], ins[1]]);
    assert(seq![ins[0], ins[1]].drop_last() =~= seq![ins[0]]);
    let r0 = run(t, s, Seq::<Input>::empty());
    assert(r1.state == s1 && r1.decisions =~= r0.decisions.push(step(t, s, ins[0]).1));
    assert(r2.state == s2 && r2.decisions =~= r1.decisions.push(step(t, s1, ins[1]).1));
    let r3 = run(t, s, seq![ins[0], ins[1], ins[2]]);
    assert(seq![ins[0], ins[1], ins[2]].drop_last() =~= seq![ins[0], ins[1]]);
    assert(r3.state == s2 && r3.decisions =~= r2.decisions.push(Decision::Stale));
    assert(r3.decisions =~= seq![
        Decision::Schedule { ticket: k, delay: t.delay->0, cancel: None },
        Decision::Schedule { ticket: (k + 1) as u64, delay: t.delay->0, cancel: Some(k) },
        Decision::Stale,
    ]);
    assert(run(t, s, ins).decisions =~= r3.decisions.push(Decision::Start));
    assert(run(t, s, ins).starts =~= seq![e1]);
}

/// Queue `first`, over a whole run: a second qualifying firing while the
/// first one's action is pending schedules nothing; exactly one action
/// starts, when the first delay ends.
pub proof fn lemma_queue_first_run(t: TriggerView, s: ListenerView, t0: u64, t1: u64, e0: u64)
    requires
        delays(t),
        t.queue == QueuePolicy::First,
        t.throttle is None,
        !t.once,
        !t.changed,
        t.target is None,
        !s.removed,
        s.pending.len() == 0,
        s.next_ticket < u64::MAX,
    ensures
        ({
            let k = s.next_ticket;
            let ins = seq![
                Input::Fire { now: t0, target_matches: true, value: None },
                Input::Fire { now: t1, target_matches: true, value: None },
                Input::Elapse { ticket: k, now: e0 },
            ];
            let r = run(t, s, ins);
            &&& r.decisions == seq![
                Decision::Schedule { ticket: k, delay: t.delay->0, cancel: None },
                Decision::KeepPending,
                Decision::Start,
            ]
            &&& r.starts == seq![e0]
        }),
{
    let k = s.next_ticket;
    let ins = seq![
        Input::Fire { now: t0, target_matches: true, value: None },
        Input::Fire { now: t1, target_matches: true, value: None },
        Input::Elapse { ticket: k, now: e0 },
    ];
    let s1 = step(t, s, ins[0]).0;
    assert(s1.pending =~= seq![k]);
    assert(s1.pending.contains(k)) by {
        assert(s1.pending[0] == k);
    }
    assert(without(s1.pending, k) =~= Seq::<u64>::empty()) by {
        assert(s1.pending.last() == k);
        assert(s1.pending.drop_last() =~= Seq::<u64>::empty());
        assert(without(s1.pending.drop_last(), k) =~= Seq::<u64>::empty());
    }
    assert(ins.drop_last() =~= seq![ins[0], ins[1]]);
    assert(seq![ins[0], ins[1]].drop_last() =~= seq![ins[0]]);
    assert(seq![ins[0]].drop_last() =~= Seq::<Input>::empty());
    let r0 = run(t, s, Seq::<Input>::empty());
    let r1 = run(t, s, seq![ins[0]]);
    assert(r1.state == s1 && r1.decisions =~= r0.decisions.push(step(t, s, ins[0]).1));
    let r2 = run(t, s, seq![ins[0], ins[1]]);
    assert(r2.state == step(t, s1, ins[1]).0 && r2.decisions =~= r1.decisions.push(
        Decision::KeepPending,
    ));
    assert(r2.state.pending == s1.pending);
    assert(r2.decisions =~= seq![
        Decision::Schedule { ticket: k, delay: t.delay->0, cancel: None },
        Decision::KeepPending,
    ]);
    assert(run(t, s, ins).decisions =~= r2.decisions.push(Decision::Start));
    assert(run(t, s, ins).starts =~= seq![e0]);
}

} // verus!
