//! A fixed-capacity cooperative scheduler over a simulated monotonic
//! clock. Each registered task owns its pin, wakes at a scheduled
//! instant, runs one cycle (emitting at most one observable event),
//! and suspends again for its fixed interval. `run_until` drives the
//! system up to a horizon and returns every event that occurred, and
//! its contract pins each task's share of those events down to a pure
//! function of that task's initial state alone.

use vstd::prelude::*;

use crate::pin::{flip, InputPin, Level, OutputPin};
use crate::tasks::{
    check_btn, level_after, toggle_led, POLL_INTERVAL_MS, TOGGLE_INTERVAL_MS,
};

verus! {

/// A task's private state: the pin it owns, or nothing for the parked
/// bring-up context, which only sleeps.
#[derive(Clone, Copy, PartialEq, Eq, Structural, Debug)]
pub enum TaskBody {
    InputPoll { btn: InputPin },
    OutputToggle { led: OutputPin },
    IdleWait,
}

/// One registered task: its body, the instant its current wait
/// elapses, and the fixed interval it suspends for after each cycle.
#[derive(Clone, Copy, PartialEq, Eq, Structural, Debug)]
pub struct Task {
    pub body: TaskBody,
    pub wake_at: u64,
    pub interval_ms: u64,
}

/// An observable event of a run: a poll task logged the input level,
/// or a toggle task drove its pin to a new level. `source` is the
/// index of the task in the scheduler's registry; `at` is the instant
/// on the monotonic clock at which the cycle ran.
#[derive(Clone, Copy, PartialEq, Eq, Structural, Debug)]
pub enum Event {
    Poll { source: usize, at: u64, asserted: bool },
    Toggle { source: usize, at: u64, level: Level },
}

/// Which task an event came from.
pub open spec fn event_source(e: Event) -> usize {
    match e {
        Event::Poll { source, .. } => source,
        Event::Toggle { source, .. } => source,
    }
}

/// When an event happened.
pub open spec fn event_at(e: Event) -> u64 {
    match e {
        Event::Poll { at, .. } => at,
        Event::Toggle { at, .. } => at,
    }
}

/// The event one cycle of `body` emits when it runs at instant `at`
/// as task `source`; the parked context emits nothing.
pub open spec fn cycle_event(body: TaskBody, source: usize, at: u64) -> Option<Event> {
    match body {
        TaskBody::InputPoll { btn } => Some(
            Event::Poll { source, at, asserted: btn.level == Level::High },
        ),
        TaskBody::OutputToggle { led } => Some(
            Event::Toggle { source, at, level: flip(led.level) },
        ),
        TaskBody::IdleWait => None,
    }
}

/// A task's body after one cycle: toggling flips the owned output
/// pin, polling and idling leave the body unchanged.
pub open spec fn body_after(body: TaskBody) -> TaskBody {
    match body {
        TaskBody::OutputToggle { led } => TaskBody::OutputToggle {
            led: OutputPin { level: flip(led.level) },
        },
        _ => body,
    }
}

/// The exact sequence of events a task emits on its own, waking first
/// at `wake_at` and every `interval_ms` thereafter, up to and
/// including the horizon `end`. This is a pure function of the task's
/// initial state: no other task appears in it.
pub open spec fn task_trace(
    body: TaskBody,
    wake_at: u64,
    interval_ms: u64,
    source: usize,
    end: u64,
) -> Seq<Event>
    decreases end - wake_at,
{
    if wake_at > end || interval_ms == 0 {
        Seq::empty()
    } else if wake_at + interval_ms > end {
        match cycle_event(body, source, wake_at) {
            Some(e) => seq![e],
            None => Seq::empty(),
        }
    } else {
        let rest = task_trace(
            body_after(body),
            (wake_at + interval_ms) as u64,
            interval_ms,
            source,
            end,
        );
        match cycle_event(body, source, wake_at) {
            Some(e) => seq![e] + rest,
            None => rest,
        }
    }
}

/// The trace a registered task would emit on its own up to `end`.
pub open spec fn trace_of(t: Task, source: usize, end: u64) -> Seq<Event> {
    task_trace(t.body, t.wake_at, t.interval_ms, source, end)
}

/// The subsequence of `events` that task `source` emitted, in order.
pub open spec fn events_from(events: Seq<Event>, source: usize) -> Seq<Event>
    decreases events.len(),
{
    if events.len() == 0 {
        Seq::empty()
    } else {
        let rest = events_from(events.drop_last(), source);
        if event_source(events.last()) == source {
            rest.push(events.last())
        } else {
            rest
        }
    }
}

/// Appending one event extends exactly its own task's subsequence and
/// leaves every other task's subsequence unchanged.
pub proof fn lemma_events_from_push(events: Seq<Event>, e: Event, source: usize)
    ensures
        events_from(events.push(e), source) == (if event_source(e) == source {
            events_from(events, source).push(e)
        } else {
            events_from(events, source)
        }),
{
    assert(events.push(e).drop_last() =~= events);
    assert(events.push(e).last() == e);
}

/// Each task's interval is the one its own cycle logic asks for: the
/// poller waits its poll interval, the toggler its toggle interval,
/// and the parked context any positive time.
pub open spec fn interval_matches(body: TaskBody, interval_ms: u64) -> bool {
    match body {
        TaskBody::InputPoll { .. } => interval_ms == POLL_INTERVAL_MS,
        TaskBody::OutputToggle { .. } => interval_ms == TOGGLE_INTERVAL_MS,
        TaskBody::IdleWait => 1 <= interval_ms,
    }
}

/// A registered task's interval is the one its body asks for.
pub open spec fn interval_ok(t: Task) -> bool {
    interval_matches(t.body, t.interval_ms)
}

/// Why registering a task can fail: the fixed-size registry is full.
#[derive(Clone, Copy, PartialEq, Eq, Structural, Debug)]
pub enum SpawnError {
    CapacityExceeded,
}

/// The cooperative scheduler: a fixed-capacity registry of tasks and
/// the current instant of its monotonic clock. Exactly one task runs
/// at any instant; switches happen only at the timed waits.
pub struct Scheduler {
    pub tasks: Vec<Task>,
    pub now: u64,
    pub capacity: usize,
}

impl Scheduler {
    /// Well-formed: the registry respects its capacity, every task
    /// waits for a future instant, and every task's interval is the
    /// one its kind asks for (in particular, positive).
    pub open spec fn wf(self) -> bool {
        &&& self.tasks@.len() <= self.capacity
        &&& forall|i: int|
            0 <= i < self.tasks@.len() ==> interval_ok(#[trigger] self.tasks@[i])
                && self.tasks@[i].wake_at >= self.now
    }

    /// An empty scheduler with the given registry capacity, whose
    /// clock reads `start`.
    pub fn new(capacity: usize, start: u64) -> (r: Scheduler)
        ensures
            r.wf(),
            r.tasks@.len() == 0,
            r.now == start,
            r.capacity == capacity,
    {
        Scheduler { tasks: Vec::new(), now: start, capacity }
    }

    /// Registers a task whose first wait starts now. Succeeds exactly
    /// when the registry has room; a full registry reports
    /// `CapacityExceeded` and changes nothing.
    pub fn spawn(&mut self, body: TaskBody, interval_ms: u64) -> (r: Result<(), SpawnError>)
        requires
            old(self).wf(),
            interval_matches(body, interval_ms),
            old(self).now + interval_ms <= u64::MAX,
        ensures
            final(self).wf(),
            final(self).now == old(self).now,
            final(self).capacity == old(self).capacity,
            old(self).tasks@.len() < old(self).capacity ==> r == Result::<(), SpawnError>::Ok(())
                && final(self).tasks@ == old(self).tasks@.push(
                (Task {
                    body,
                    wake_at: (old(self).now + interval_ms) as u64,
                    interval_ms,
                }),
            ),
            old(self).tasks@.len() >= old(self).capacity
                ==> r == Result::<(), SpawnError>::Err(SpawnError::CapacityExceeded)
                && final(self).tasks@ == old(self).tasks@,
    {
        if self.tasks.len() < self.capacity {
            let wake_at = self.now + interval_ms;
            self.tasks.push(Task { body, wake_at, interval_ms });
            Ok(())
        } else {
            Err(SpawnError::CapacityExceeded)
        }
    }
}

/// How much clock a task can still consume before the horizon `end`:
/// the termination measure of `run_until`. A task sleeping beyond the
/// horizon consumes nothing.
pub open spec fn credit(t: Task, end: u64) -> nat {
    if t.wake_at <= end {
        (end + t.interval_ms - t.wake_at) as nat
    } else {
        0
    }
}

/// The total remaining work of a registry before the horizon.
pub open spec fn credits(tasks: Seq<Task>, end: u64) -> nat
    decreases tasks.len(),
{
    if tasks.len() == 0 {
        0
    } else {
        credits(tasks.drop_last(), end) + credit(tasks.last(), end)
    }
}

/// Replacing one task exchanges exactly its own credit in the total.
pub proof fn lemma_credits_update(tasks: Seq<Task>, j: int, t: Task, end: u64)
    requires
        0 <= j < tasks.len(),
    ensures
        credits(tasks.update(j, t), end) + credit(tasks[j], end) == credits(tasks, end) + credit(
            t,
            end,
        ),
    decreases tasks.len(),
{
    let upd = tasks.update(j, t);
    if j == tasks.len() - 1 {
        assert(upd.drop_last() =~= tasks.drop_last());
        assert(upd.last() == t);
    } else {
        assert(upd.drop_last() =~= tasks.drop_last().update(j, t));
        assert(upd.last() == tasks.last());
        lemma_credits_update(tasks.drop_last(), j, t, end);
    }
}

/// `j` is the index the scheduler resumes next: no task's wait
/// elapses earlier, and among tasks whose waits elapse at the same
/// instant the lowest index goes first (FIFO readiness).
pub open spec fn picks_next(tasks: Seq<Task>, j: int) -> bool {
    &&& 0 <= j < tasks.len()
    &&& forall|k: int| 0 <= k < tasks.len() ==> (#[trigger] tasks[k]).wake_at >= tasks[j].wake_at
    &&& forall|k: int| 0 <= k < j ==> (#[trigger] tasks[k]).wake_at > tasks[j].wake_at
}

impl Scheduler {
    /// The index of the task the scheduler resumes next, or nothing
    /// if the registry is empty.
    pub fn next_ready(&self) -> (r: Option<usize>)
        ensures
            r is None <==> self.tasks@.len() == 0,
            r matches Some(j) ==> picks_next(self.tasks@, j as int),
    {
        if self.tasks.len() == 0 {
            return None;
        }
        let mut best: usize = 0;
        let mut i: usize = 1;
        while i < self.tasks.len()
            invariant
                1 <= i <= self.tasks@.len(),
                best < i,
                forall|k: int|
                    0 <= k < i ==> (#[trigger] self.tasks@[k]).wake_at >= self.tasks@[best as int].wake_at,
                forall|k: int|
                    0 <= k < best ==> (#[trigger] self.tasks@[k]).wake_at > self.tasks@[best as int].wake_at,
            decreases self.tasks@.len() - i,
        {
            if self.tasks[i].wake_at < self.tasks[best].wake_at {
                best = i;
            }
            i = i + 1;
        }
        Some(best)
    }

    /// Runs every task whose wait elapses by the horizon `end`, in
    /// readiness order, and returns the run's events, oldest first.
    ///
    /// The contract makes the tasks' independence exact: task `i`'s
    /// share of the events is precisely the trace it would emit on
    /// its own, a pure function of that task's initial state and the
    /// horizon, whatever else is registered. And no task terminates:
    /// afterwards every task is still registered with its interval
    /// and kind intact, waiting for an instant beyond the horizon.
    pub fn run_until(&mut self, end: u64) -> (events: Vec<Event>)
        requires
            old(self).wf(),
            forall|i: int|
                0 <= i < old(self).tasks@.len() ==> end + (#[trigger] old(
                    self,
                ).tasks@[i]).interval_ms <= u64::MAX,
        ensures
            final(self).wf(),
            final(self).capacity == old(self).capacity,
            final(self).now >= old(self).now,
            final(self).tasks@.len() == old(self).tasks@.len(),
            forall|i: int|
                0 <= i < old(self).tasks@.len()
                    ==> (#[trigger] final(self).tasks@[i]).interval_ms
                    == old(self).tasks@[i].interval_ms,
            forall|i: int|
                0 <= i < old(self).tasks@.len()
                    ==> (#[trigger] final(self).tasks@[i]).wake_at > end,
            forall|i: int|
                0 <= i < old(self).tasks@.len()
                    ==> events_from(events@, i as usize)
                    == trace_of(#[trigger] old(self).tasks@[i], i as usize, end),
            forall|k: int|
                0 <= k < events@.len()
                    ==> event_source(#[trigger] events@[k]) < old(self).tasks@.len(),
            forall|i: int|
                0 <= i < old(self).tasks@.len()
                    && !((#[trigger] old(self).tasks@[i]).body
                    matches TaskBody::OutputToggle { .. })
                    ==> final(self).tasks@[i].body == old(self).tasks@[i].body,
            forall|i: int|
                0 <= i < old(self).tasks@.len()
                    ==> ((#[trigger] old(self).tasks@[i]).body
                    matches TaskBody::OutputToggle { led }
                    ==> final(self).tasks@[i].body == (TaskBody::OutputToggle {
                    led: OutputPin {
                        level: level_after(
                            led.level,
                            trace_of(old(self).tasks@[i], i as usize, end).len(),
                        ),
                    },
                })),
    {
        let ghost orig = self.tasks@;
        let ghost cap = self.capacity;
        let ghost start_now = self.now;
        let mut events: Vec<Event> = Vec::new();
        loop
            invariant
                self.wf(),
                self.capacity == cap,
                self.now >= start_now,
                self.tasks@.len() == orig.len(),
                forall|i: int|
                    0 <= i < orig.len() ==> (#[trigger] self.tasks@[i]).interval_ms
                        == orig[i].interval_ms,
                forall|i: int|
                    0 <= i < orig.len() ==> end + (#[trigger] orig[i]).interval_ms <= u64::MAX,
                forall|i: int|
                    0 <= i < orig.len() ==> events_from(events@, i as usize) + trace_of(
                        #[trigger] self.tasks@[i],
                        i as usize,
                        end,
                    ) == trace_of(orig[i], i as usize, end),
                forall|k: int|
                    0 <= k < events@.len() ==> event_source(#[trigger] events@[k]) < orig.len(),
                forall|i: int|
                    0 <= i < orig.len() && !((#[trigger] orig[i]).body
                        matches TaskBody::OutputToggle { .. }) ==> self.tasks@[i].body
                        == orig[i].body,
                forall|i: int|
                    0 <= i < orig.len() ==> ((#[trigger] orig[i]).body
                        matches TaskBody::OutputToggle { led } ==> self.tasks@[i].body == (
                    TaskBody::OutputToggle {
                        led: OutputPin {
                            level: level_after(
                                led.level,
                                events_from(events@, i as usize).len(),
                            ),
                        },
                    })),
            ensures
                forall|i: int|
                    0 <= i < orig.len() ==> (#[trigger] self.tasks@[i]).wake_at > end,
            decreases credits(self.tasks@, end),
        {
            let j_opt = self.next_ready();
            let j: usize = match j_opt {
                Some(j) => j,
                None => { break ; },
            };
            let t = self.tasks[j];
            if t.wake_at > end {
                break ;
            }
            let wake = t.wake_at;
            let ghost pre_tasks = self.tasks@;
            let ghost pre_events = events@;
            proof {
                assert(interval_ok(pre_tasks[j as int]));
            }
            self.now = wake;
            match t.body {
                TaskBody::InputPoll { btn } => {
                    let o = check_btn(&btn);
                    events.push(Event::Poll { source: j, at: wake, asserted: o.asserted });
                    let new_wake = wake + o.wait_ms;
                    self.tasks.set(
                        j,
                        Task {
                            body: TaskBody::InputPoll { btn },
                            wake_at: new_wake,
                            interval_ms: t.interval_ms,
                        },
                    );
                },
                TaskBody::OutputToggle { led } => {
                    let mut led = led;
                    let w = toggle_led(&mut led);
                    events.push(Event::Toggle { source: j, at: wake, level: led.level });
                    let new_wake = wake + w;
                    self.tasks.set(
                        j,
                        Task {
                            body: TaskBody::OutputToggle { led },
                            wake_at: new_wake,
                            interval_ms: t.interval_ms,
                        },
                    );
                },
                TaskBody::IdleWait => {
                    let new_wake = wake + t.interval_ms;
                    self.tasks.set(
                        j,
                        Task {
                            body: TaskBody::IdleWait,
                            wake_at: new_wake,
                            interval_ms: t.interval_ms,
                        },
                    );
                },
            }
            proof {
                let ji = j as int;
                let old_t = pre_tasks[ji];
                let new_t = self.tasks@[ji];
                assert(self.tasks@ =~= pre_tasks.update(ji, new_t));
                assert(new_t.body == body_after(old_t.body));
                assert(new_t.wake_at == old_t.wake_at + old_t.interval_ms);
                lemma_credits_update(pre_tasks, ji, new_t, end);
                match cycle_event(old_t.body, j, wake) {
                    Some(e) => {
                        assert(events@ =~= pre_events.push(e));
                        assert forall|i: int| 0 <= i < orig.len() implies #[trigger] events_from(
                            events@,
                            i as usize,
                        ) == (if i == ji {
                            events_from(pre_events, i as usize).push(e)
                        } else {
                            events_from(pre_events, i as usize)
                        }) by {
                            lemma_events_from_push(pre_events, e, i as usize);
                        }
                        assert(trace_of(old_t, j, end) =~= seq![e] + trace_of(new_t, j, end));
                        assert(events_from(pre_events, j).push(e) + trace_of(new_t, j, end)
                            =~= events_from(pre_events, j) + (seq![e] + trace_of(
                            new_t,
                            j,
                            end,
                        )));
                    },
                    None => {
                        assert(events@ =~= pre_events);
                        assert(trace_of(old_t, j, end) =~= trace_of(new_t, j, end));
                    },
                }
                match orig[ji].body {
                    TaskBody::OutputToggle { led } => {
                        crate::tasks::lemma_toggle_alternates(
                            led.level,
                            events_from(pre_events, j).len(),
                        );
                    },
                    _ => {},
                }
            }
        }
        proof {
            assert forall|i: int| 0 <= i < orig.len() implies trace_of(
                self.tasks@[i],
                i as usize,
                end,
            ) == Seq::<Event>::empty() by {
                assert(self.tasks@[i].wake_at > end);
            }
            assert forall|i: int| 0 <= i < orig.len() implies events_from(events@, i as usize)
                =~= trace_of(orig[i], i as usize, end) by {
                assert(events_from(events@, i as usize) + Seq::<Event>::empty() =~= events_from(
                    events@,
                    i as usize,
                ));
            }
        }
        events
    }
}

/// The parked context only sleeps: its trace is empty at every
/// horizon.
pub proof fn lemma_idle_trace_empty(wake_at: u64, interval_ms: u64, source: usize, end: u64)
    ensures
        task_trace(TaskBody::IdleWait, wake_at, interval_ms, source, end).len() == 0,
    decreases end - wake_at,
{
    if wake_at > end || interval_ms == 0 {
    } else if wake_at + interval_ms > end {
    } else {
        lemma_idle_trace_empty((wake_at + interval_ms) as u64, interval_ms, source, end);
    }
}

/// Every event in a task's own trace happens exactly at its scheduled
/// instant — the first wake plus a whole number of intervals — and
/// carries the task's registry index.
pub proof fn lemma_trace_events(
    body: TaskBody,
    wake_at: u64,
    interval_ms: u64,
    source: usize,
    end: u64,
    k: int,
)
    requires
        0 <= k < task_trace(body, wake_at, interval_ms, source, end).len(),
    ensures
        event_at(task_trace(body, wake_at, interval_ms, source, end)[k]) == wake_at + k
            * interval_ms,
        event_source(task_trace(body, wake_at, interval_ms, source, end)[k]) == source,
    decreases end - wake_at,
{
    let tr = task_trace(body, wake_at, interval_ms, source, end);
    if (body matches TaskBody::IdleWait) {
        lemma_idle_trace_empty(wake_at, interval_ms, source, end);
    } else {
        let ev = cycle_event(body, source, wake_at)->0;
        if wake_at + interval_ms > end {
            assert(tr =~= seq![ev]);
            assert(k == 0);
        } else {
            let rest = task_trace(
                body_after(body),
                (wake_at + interval_ms) as u64,
                interval_ms,
                source,
                end,
            );
            assert(tr =~= seq![ev] + rest);
            if k > 0 {
                lemma_trace_events(
                    body_after(body),
                    (wake_at + interval_ms) as u64,
                    interval_ms,
                    source,
                    end,
                    k - 1,
                );
                assert(tr[k] == rest[k - 1]);
                assert((k - 1) * interval_ms + interval_ms == k * interval_ms) by (nonlinear_arith);
            }
        }
        assert(event_at(ev) == wake_at);
        assert(event_source(ev) == source);
    }
}

/// Interval lower bound: successive events of one task are spaced
/// exactly the task's interval apart — so the time between them is
/// never less than the interval the task asked to wait.
pub proof fn lemma_interval_lower_bound(
    body: TaskBody,
    wake_at: u64,
    interval_ms: u64,
    source: usize,
    end: u64,
    k: int,
)
    requires
        0 <= k,
        k + 1 < task_trace(body, wake_at, interval_ms, source, end).len(),
    ensures
        event_at(task_trace(body, wake_at, interval_ms, source, end)[k + 1]) == event_at(
            task_trace(body, wake_at, interval_ms, source, end)[k],
        ) + interval_ms,
{
    lemma_trace_events(body, wake_at, interval_ms, source, end, k);
    lemma_trace_events(body, wake_at, interval_ms, source, end, k + 1);
    assert((k + 1) * interval_ms == k * interval_ms + interval_ms) by (nonlinear_arith);
}

/// At least one toggle interval of wall clock passes between
/// successive toggle events of a registered toggling task.
pub proof fn lemma_toggle_interval(t: Task, source: usize, end: u64, k: int)
    requires
        interval_ok(t),
        t.body matches TaskBody::OutputToggle { .. },
        0 <= k,
        k + 1 < trace_of(t, source, end).len(),
    ensures
        event_at(trace_of(t, source, end)[k + 1]) >= event_at(trace_of(t, source, end)[k])
            + TOGGLE_INTERVAL_MS,
{
    lemma_interval_lower_bound(t.body, t.wake_at, t.interval_ms, source, end, k);
}

/// At least one poll interval of wall clock passes between
/// successive poll events of a registered polling task.
pub proof fn lemma_poll_interval(t: Task, source: usize, end: u64, k: int)
    requires
        interval_ok(t),
        t.body matches TaskBody::InputPoll { .. },
        0 <= k,
        k + 1 < trace_of(t, source, end).len(),
    ensures
        event_at(trace_of(t, source, end)[k + 1]) >= event_at(trace_of(t, source, end)[k])
            + POLL_INTERVAL_MS,
{
    lemma_interval_lower_bound(t.body, t.wake_at, t.interval_ms, source, end, k);
}

/// Toggle property over a toggling task's trace: the k-th toggle
/// event drives the pin to its level after k + 1 toggle cycles, so
/// each event's level is the logical complement of the one before.
pub proof fn lemma_trace_toggle_levels(
    start: Level,
    wake_at: u64,
    interval_ms: u64,
    source: usize,
    end: u64,
    k: int,
)
    requires
        0 <= k < task_trace(
            (TaskBody::OutputToggle { led: OutputPin { level: start } }),
            wake_at,
            interval_ms,
            source,
            end,
        ).len(),
    ensures
        task_trace(
            (TaskBody::OutputToggle { led: OutputPin { level: start } }),
            wake_at,
            interval_ms,
            source,
            end,
        )[k] == (Event::Toggle {
            source,
            at: event_at(
                task_trace(
                    (TaskBody::OutputToggle { led: OutputPin { level: start } }),
                    wake_at,
                    interval_ms,
                    source,
                    end,
                )[k],
            ),
            level: level_after(start, (k + 1) as nat),
        }),
    decreases end - wake_at,
{
    let body = TaskBody::OutputToggle { led: OutputPin { level: start } };
    assert(level_after(start, 0) == start);
    assert(level_after(start, 1) == flip(start));
    if wake_at + interval_ms <= end && k > 0 {
        lemma_trace_toggle_levels(
            flip(start),
            (wake_at + interval_ms) as u64,
            interval_ms,
            source,
            end,
            k - 1,
        );
        lemma_level_after_flip(start, k as nat);
    }
}

/// Toggling from the complement is one cycle further along: the
/// level after n cycles from `flip(s)` is the level after n + 1
/// cycles from `s`.
pub proof fn lemma_level_after_flip(s: Level, n: nat)
    ensures
        level_after(flip(s), n) == level_after(s, n + 1),
    decreases n,
{
    if n == 0 {
        assert(level_after(s, 0) == s);
        assert(level_after(flip(s), 0) == flip(s));
        assert(level_after(s, 1) == flip(level_after(s, 0)));
    } else {
        lemma_level_after_flip(s, (n - 1) as nat);
    }
}

/// Poll idempotence over a polling task's trace: nothing drives the
/// input line between polls, so every poll event carries the same
/// value, the one the pin's level determines.
pub proof fn lemma_trace_poll_values(
    btn: InputPin,
    wake_at: u64,
    interval_ms: u64,
    source: usize,
    end: u64,
    k: int,
)
    requires
        0 <= k < task_trace(
            (TaskBody::InputPoll { btn }),
            wake_at,
            interval_ms,
            source,
            end,
        ).len(),
    ensures
        task_trace((TaskBody::InputPoll { btn }), wake_at, interval_ms, source, end)[k] == (
        Event::Poll {
            source,
            at: event_at(
                task_trace((TaskBody::InputPoll { btn }), wake_at, interval_ms, source, end)[k],
            ),
            asserted: btn.level == Level::High,
        }),
    decreases end - wake_at,
{
    if wake_at + interval_ms <= end && k > 0 {
        lemma_trace_poll_values(
            btn,
            (wake_at + interval_ms) as u64,
            interval_ms,
            source,
            end,
            k - 1,
        );
    }
}

/// The observable content of an event: its instant and payload, with
/// the registry index that produced it stripped off.
pub enum Observation {
    Polled { at: u64, asserted: bool },
    Toggled { at: u64, level: Level },
}

/// What an event looks like to an observer of the pins and the log.
pub open spec fn observe(e: Event) -> Observation {
    match e {
        Event::Poll { at, asserted, .. } => Observation::Polled { at, asserted },
        Event::Toggle { at, level, .. } => Observation::Toggled { at, level },
    }
}

/// The observable content of a whole event sequence.
pub open spec fn observations(events: Seq<Event>) -> Seq<Observation> {
    events.map_values(|e: Event| observe(e))
}

/// Independence: what a task observably does — the instants and
/// payloads of its events — depends only on the task's own state and
/// the horizon, never on the registry index it happens to occupy.
/// Together with `run_until`'s contract, which gives each task its
/// solo trace whatever else is registered, the presence, absence or
/// timing of any other task cannot change a task's observable events.
pub proof fn lemma_independence(
    body: TaskBody,
    wake_at: u64,
    interval_ms: u64,
    s1: usize,
    s2: usize,
    end: u64,
)
    ensures
        observations(task_trace(body, wake_at, interval_ms, s1, end)) == observations(
            task_trace(body, wake_at, interval_ms, s2, end),
        ),
    decreases end - wake_at,
{
    let t1 = task_trace(body, wake_at, interval_ms, s1, end);
    let t2 = task_trace(body, wake_at, interval_ms, s2, end);
    if wake_at > end || interval_ms == 0 {
        assert(observations(t1) =~= observations(t2));
    } else if wake_at + interval_ms > end {
        match body {
            TaskBody::IdleWait => {
                assert(observations(t1) =~= observations(t2));
            },
            _ => {
                assert(t1.len() == 1);
                assert(t2.len() == 1);
                assert(observe(t1[0]) == observe(t2[0]));
                assert(observations(t1) =~= observations(t2));
            },
        }
    } else {
        let r1 = task_trace(body_after(body), (wake_at + interval_ms) as u64, interval_ms, s1, end);
        let r2 = task_trace(body_after(body), (wake_at + interval_ms) as u64, interval_ms, s2, end);
        lemma_independence(body_after(body), (wake_at + interval_ms) as u64, interval_ms, s1, s2, end);
        assert(observations(r1).len() == r1.len());
        assert(observations(r2).len() == r2.len());
        assert(r1.len() == r2.len());
        match body {
            TaskBody::IdleWait => {
                assert(t1 == r1);
                assert(t2 == r2);
                assert(observations(t1) =~= observations(t2));
            },
            _ => {
                assert(t1 =~= seq![t1[0]] + r1);
                assert(t2 =~= seq![t2[0]] + r2);
                assert(observe(t1[0]) == observe(t2[0]));
                assert forall|x: int| 0 <= x < t1.len() implies observe(#[trigger] t1[x])
                    == observe(t2[x]) by {
                    if x > 0 {
                        assert(t1[x] == r1[x - 1]);
                        assert(t2[x] == r2[x - 1]);
                        assert(observations(r1)[x - 1] == observations(r2)[x - 1]);
                    }
                }
                assert(observations(t1) =~= observations(t2));
            },
        }
    }
}

/// Forever property: a polling or toggling task never exhausts its
/// trace — pushing the horizon out by one more interval always adds
/// exactly one more event. With `run_until`'s guarantee that every
/// task stays registered and waiting past any horizon, no task ever
/// reaches a terminal state: the scheduler can always be run further
/// and the tasks always have another cycle to run.
pub proof fn lemma_runs_forever(
    body: TaskBody,
    wake_at: u64,
    interval_ms: u64,
    source: usize,
    end: u64,
)
    requires
        !(body matches TaskBody::IdleWait),
        1 <= interval_ms,
        wake_at <= end,
        end + interval_ms <= u64::MAX,
    ensures
        task_trace(body, wake_at, interval_ms, source, (end + interval_ms) as u64).len()
            == task_trace(body, wake_at, interval_ms, source, end).len() + 1,
    decreases end - wake_at,
{
    let end2 = (end + interval_ms) as u64;
    if wake_at + interval_ms > end {
        assert(task_trace(body, wake_at, interval_ms, source, end).len() == 1);
        assert(task_trace(
            body_after(body),
            (wake_at + interval_ms) as u64,
            interval_ms,
            source,
            end2,
        ).len() == 1);
        assert(task_trace(body, wake_at, interval_ms, source, end2).len() == 2);
    } else {
        lemma_runs_forever(
            body_after(body),
            (wake_at + interval_ms) as u64,
            interval_ms,
            source,
            end,
        );
    }
}

} // verus!
