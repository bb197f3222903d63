//! Telling scans that are stuck from scans that make progress.
//!
//! A sampler looks at the counters of every running scan every few seconds. A scan whose counters
//! stand still with work outstanding is stalled. Tasks that were spawned and never complete mean
//! that task bodies are stuck; tasks that complete and are never yielded mean that the consumer
//! was not woken again. Each scan is judged by its own counters, for the sum over all scans keeps
//! growing while others are healthy.

use std::collections::HashMap;
use vstd::prelude::*;

verus! {

/// What a scan has counted: tasks spawned, tasks completed, results yielded.
#[derive(Clone, Copy, Debug, PartialEq, Eq, Structural)]
pub struct ScanCounters {
    pub id: u64,
    pub spawned: u64,
    pub completed: u64,
    pub yielded: u64,
}

/// Which part of a stalled scan stands still.
#[derive(Clone, Copy, Debug, PartialEq, Eq, Structural)]
pub enum StallMode {
    /// Reads never complete.
    StuckTaskBodies,
    /// Tasks are done, but the consumer is never woken again.
    DrainLostWake,
}

/// `a - b`, or zero.
pub open spec fn less(a: u64, b: u64) -> u64 {
    if a >= b {
        (a - b) as u64
    } else {
        0
    }
}

impl ScanCounters {
    /// The tasks that were spawned and did not complete.
    pub open spec fn in_flight_spec(self) -> u64 {
        less(self.spawned, self.completed)
    }

    /// The tasks that completed and whose result was not yielded.
    pub open spec fn backlog_spec(self) -> u64 {
        less(self.completed, self.yielded)
    }

    /// Whether there is work outstanding.
    pub open spec fn outstanding_spec(self) -> bool {
        self.in_flight_spec() > 0 || self.backlog_spec() > 0
    }

    /// The counters without the scan's number.
    pub open spec fn counts(self) -> (u64, u64, u64) {
        (self.spawned, self.completed, self.yielded)
    }

    /// Returns the tasks that were spawned and did not complete.
    pub fn in_flight(&self) -> (r: u64)
        ensures
            r == self.in_flight_spec(),
    {
        self.spawned.saturating_sub(self.completed)
    }

    /// Returns the tasks that completed and whose result was not yielded.
    pub fn backlog(&self) -> (r: u64)
        ensures
            r == self.backlog_spec(),
    {
        self.completed.saturating_sub(self.yielded)
    }
}

/// The scans that are registered, by number.
#[derive(Debug)]
pub struct ScanRegistry {
    pub next_id: u64,
    pub live: Vec<u64>,
}

/// What a `ScanRegistry` is.
pub struct RegistryView {
    pub next_id: int,
    pub live: Seq<u64>,
}

/// What happens to a registry.
pub enum RegistryStep {
    /// A scan is registered.
    Register,
    /// The scans whose flag is not set were dropped.
    Retain(Seq<bool>),
}

impl RegistryView {
    /// No two scans have one number, and the next number is above all.
    pub open spec fn wf(self) -> bool {
        &&& forall|i: int| 0 <= i < self.live.len() ==> (#[trigger] self.live[i]) < self.next_id
        &&& self.live.no_duplicates()
    }

    /// Whether the step can happen: there is a number left for a scan, and each scan has a flag.
    pub open spec fn allows(self, step: RegistryStep) -> bool {
        match step {
            RegistryStep::Register => 0 <= self.next_id < u64::MAX,
            RegistryStep::Retain(alive) => alive.len() == self.live.len(),
        }
    }

    /// The registry after a step.
    pub open spec fn after(self, step: RegistryStep) -> RegistryView {
        match step {
            RegistryStep::Register => RegistryView {
                next_id: self.next_id + 1,
                live: self.live.push(self.next_id as u64),
            },
            RegistryStep::Retain(alive) => RegistryView {
                next_id: self.next_id,
                live: kept(self.live, alive),
            },
        }
    }

    /// Whether the steps can happen one after another.
    pub open spec fn allows_all(self, steps: Seq<RegistryStep>) -> bool
        decreases steps.len(),
    {
        steps.len() > 0 ==> self.allows_all(steps.drop_last()) && self.after_all(
            steps.drop_last(),
        ).allows(steps.last())
    }

    /// The registry after all of the steps.
    pub open spec fn after_all(self, steps: Seq<RegistryStep>) -> RegistryView
        decreases steps.len(),
    {
        if steps.len() == 0 {
            self
        } else {
            self.after_all(steps.drop_last()).after(steps.last())
        }
    }
}

impl ScanRegistry {
    /// The registry itself.
    pub open spec fn view(&self) -> RegistryView {
        RegistryView { next_id: self.next_id as int, live: self.live@ }
    }

    /// No two scans have one number, and the next number is above all.
    pub open spec fn wf(self) -> bool {
        self@.wf()
    }

    /// Starts with no scan.
    pub fn new() -> (r: Self)
        ensures
            r.wf(),
            r.next_id == 0,
            r.live@ == Seq::<u64>::empty(),
    {
        ScanRegistry { next_id: 0, live: Vec::new() }
    }

    /// Registers a new scan and returns its counters, all zero, under a number of its own.
    pub fn register_scan(&mut self) -> (r: ScanCounters)
        requires
            old(self).wf(),
            old(self).next_id < u64::MAX,
        ensures
            final(self).wf(),
            r == (ScanCounters { id: old(self).next_id, spawned: 0, completed: 0, yielded: 0 }),
            final(self)@ == old(self)@.after(RegistryStep::Register),
            !old(self).live@.contains(r.id),
    {
        let id: u64 = self.next_id;
        self.next_id = id + 1;
        self.live.push(id);
        ScanCounters { id, spawned: 0, completed: 0, yielded: 0 }
    }

    /// Forgets the scans whose stream was dropped, and keeps the others in order.
    pub fn retain_live(&mut self, alive: &Vec<bool>)
        requires
            old(self).wf(),
            alive.len() == old(self).live.len(),
        ensures
            final(self).wf(),
            final(self)@ == old(self)@.after(RegistryStep::Retain(alive@)),
    {
        let mut out: Vec<u64> = Vec::new();
        let mut i: usize = 0;
        assert(self.live@.take(0) =~= Seq::empty());
        assert(alive@.take(0) =~= Seq::empty());
        while i < alive.len()
            invariant
                0 <= i <= alive.len(),
                alive.len() == self.live.len(),
                out@ == kept(self.live@.take(i as int), alive@.take(i as int)),
            decreases alive.len() - i,
        {
            proof {
                assert(self.live@.take(i as int + 1).drop_last() =~= self.live@.take(i as int));
                assert(alive@.take(i as int + 1).drop_last() =~= alive@.take(i as int));
            }
            if alive[i] {
                out.push(self.live[i]);
            }
            i += 1;
        }
        proof {
            assert(self.live@.take(i as int) =~= self.live@);
            assert(alive@.take(i as int) =~= alive@);
            lemma_kept(self.live@, alive@);
            assert forall|k: int| 0 <= k < out.len() implies (#[trigger] out@[k])
                < self.next_id by {
                assert(kept(self.live@, alive@).contains(out@[k]));
                assert(self.live@.contains(out@[k]));
            }
        }
        self.live = out;
    }
}

/// The values whose flag is set, in order.
pub open spec fn kept(values: Seq<u64>, flags: Seq<bool>) -> Seq<u64>
    decreases values.len(),
{
    if values.len() == 0 || flags.len() == 0 {
        Seq::empty()
    } else if flags.last() {
        kept(values.drop_last(), flags.drop_last()).push(values.last())
    } else {
        kept(values.drop_last(), flags.drop_last())
    }
}

proof fn lemma_kept(values: Seq<u64>, flags: Seq<bool>)
    requires
        values.len() == flags.len(),
        values.no_duplicates(),
    ensures
        kept(values, flags).no_duplicates(),
        forall|x: u64| #[trigger] kept(values, flags).contains(x) ==> values.contains(x),
    decreases values.len(),
{
    if values.len() > 0 {
        let v = values.drop_last();
        lemma_kept(v, flags.drop_last());
        let before = kept(v, flags.drop_last());
        let all = kept(values, flags);
        assert forall|x: u64| #[trigger] all.contains(x) implies values.contains(x) by {
            let i = choose|i: int| 0 <= i < all.len() && all[i] == x;
            if i < before.len() {
                assert(before.contains(x));
                let j = choose|j: int| 0 <= j < v.len() && v[j] == x;
                assert(values[j] == x);
            } else {
                assert(values[values.len() - 1] == x);
            }
        }
        if flags.last() {
            assert forall|i: int, j: int|
                0 <= i < all.len() && 0 <= j < all.len() && i != j implies all[i] != all[j] by {
                if i == all.len() - 1 && j < before.len() {
                    assert(before.contains(all[j]));
                    let k = choose|k: int| 0 <= k < v.len() && v[k] == all[j];
                    assert(values[k] == all[j]);
                } else if j == all.len() - 1 && i < before.len() {
                    assert(before.contains(all[i]));
                    let k = choose|k: int| 0 <= k < v.len() && v[k] == all[i];
                    assert(values[k] == all[i]);
                }
            }
        }
    }
}

proof fn lemma_kept_by_flag(values: Seq<u64>, flags: Seq<bool>, i: int)
    requires
        values.len() == flags.len(),
        values.no_duplicates(),
        0 <= i < values.len(),
    ensures
        kept(values, flags).contains(values[i]) == flags[i],
    decreases values.len(),
{
    let v = values.drop_last();
    let f = flags.drop_last();
    let before = kept(v, f);
    let all = kept(values, flags);
    if i < values.len() - 1 {
        lemma_kept_by_flag(v, f, i);
        if before.contains(values[i]) {
            let k = choose|k: int| 0 <= k < before.len() && before[k] == values[i];
            assert(all[k] == values[i]);
        }
        if all.contains(values[i]) {
            let k = choose|k: int| 0 <= k < all.len() && all[k] == values[i];
            assert(values.last() != values[i]);
            assert(before[k] == values[i]);
        }
    } else if flags[i] {
        assert(all[all.len() - 1] == values[i]);
    } else {
        lemma_kept(v, f);
        if before.contains(values[i]) {
            assert(v.contains(values[i]));
            let k = choose|k: int| 0 <= k < v.len() && v[k] == values[i];
            assert(values[k] == values[i]);
        }
    }
}

proof fn lemma_history(r: RegistryView, steps: Seq<RegistryStep>)
    requires
        r.wf(),
        r.allows_all(steps),
    ensures
        r.after_all(steps).wf(),
        r.next_id <= r.after_all(steps).next_id,
        forall|id: u64|
            id < r.next_id && #[trigger] r.after_all(steps).live.contains(id) ==> r.live.contains(
                id,
            ),
    decreases steps.len(),
{
    if steps.len() > 0 {
        lemma_history(r, steps.drop_last());
        let before = r.after_all(steps.drop_last());
        let after = r.after_all(steps);
        match steps.last() {
            RegistryStep::Register => {
                assert forall|id: u64| id < r.next_id && #[trigger] after.live.contains(
                    id,
                ) implies r.live.contains(id) by {
                    let k = choose|k: int| 0 <= k < after.live.len() && after.live[k] == id;
                    assert(before.live[k] == id);
                    assert(before.live.contains(id));
                }
            },
            RegistryStep::Retain(alive) => {
                lemma_kept(before.live, alive);
                assert forall|k: int| 0 <= k < after.live.len() implies (#[trigger] after.live[k])
                    < after.next_id by {
                    assert(kept(before.live, alive).contains(after.live[k]));
                    assert(before.live.contains(after.live[k]));
                }
                assert forall|id: u64| id < r.next_id && #[trigger] after.live.contains(
                    id,
                ) implies r.live.contains(id) by {
                    assert(before.live.contains(id));
                }
            },
        }
    }
}

/// Scans are told apart, and a scan that was dropped is forgotten, whatever else happens to the
/// registry. A scan that is registered after another one has another number, whether or not the
/// other one is still there. A scan whose flag is set stays, and one whose flag is not set is gone
/// with that step and does not come back: the registry keeps no scan that its stream dropped.
pub proof fn law_scans_are_told_apart_and_forgotten(
    r: RegistryView,
    alive: Seq<bool>,
    i: int,
    later: Seq<RegistryStep>,
)
    requires
        r.wf(),
        0 <= r.next_id,
    ensures
        r.allows(RegistryStep::Register) && r.after(RegistryStep::Register).allows_all(later)
            ==> r.next_id < r.after(RegistryStep::Register).after_all(later).next_id,
        r.allows(RegistryStep::Retain(alive)) && 0 <= i < alive.len() ==> r.after(
            RegistryStep::Retain(alive),
        ).live.contains(r.live[i]) == alive[i],
        r.allows(RegistryStep::Retain(alive)) && 0 <= i < alive.len() && !alive[i] && r.after(
            RegistryStep::Retain(alive),
        ).allows_all(later) ==> !r.after(RegistryStep::Retain(alive)).after_all(
            later,
        ).live.contains(r.live[i]),
{
    if r.allows(RegistryStep::Register) && r.after(RegistryStep::Register).allows_all(later) {
        assert(r.after(RegistryStep::Register).wf());
        lemma_history(r.after(RegistryStep::Register), later);
    }
    if r.allows(RegistryStep::Retain(alive)) && 0 <= i < alive.len() {
        lemma_kept_by_flag(r.live, alive, i);
        let pruned = r.after(RegistryStep::Retain(alive));
        lemma_kept(r.live, alive);
        assert forall|k: int| 0 <= k < pruned.live.len() implies (#[trigger] pruned.live[k])
            < pruned.next_id by {
            assert(kept(r.live, alive).contains(pruned.live[k]));
            assert(r.live.contains(pruned.live[k]));
        }
        if pruned.allows_all(later) {
            lemma_history(pruned, later);
        }
    }
}

/// What the sampler remembers of a scan: the counters it saw last, and for how many samples they
/// have stood still.
#[derive(Clone, Copy, Debug, PartialEq, Eq)]
pub struct PerScanPrev {
    pub last: (u64, u64, u64),
    pub stalled_ticks: u64,
}

/// What is reported of a stalled scan.
#[derive(Clone, Copy, Debug, PartialEq, Eq, Structural)]
pub struct StallReport {
    pub counters: ScanCounters,
    pub stalled_ticks: u64,
    pub in_flight: u64,
    pub backlog: u64,
    pub mode: StallMode,
}

/// What is remembered of a scan that was not seen before.
pub open spec fn unseen() -> PerScanPrev {
    PerScanPrev { last: (0, 0, 0), stalled_ticks: 0 }
}

/// What is remembered of a scan before a sample.
pub open spec fn remembered(prev: Map<u64, PerScanPrev>, id: u64) -> PerScanPrev {
    if prev.dom().contains(id) {
        prev[id]
    } else {
        unseen()
    }
}

/// Whether a scan stands still with work outstanding.
pub open spec fn frozen(before: PerScanPrev, c: ScanCounters) -> bool {
    c.counts() == before.last && c.outstanding_spec()
}

/// What is remembered of a scan after a sample.
pub open spec fn sampled(before: PerScanPrev, c: ScanCounters) -> PerScanPrev {
    PerScanPrev {
        last: c.counts(),
        stalled_ticks: if frozen(before, c) {
            (before.stalled_ticks + 1) as u64
        } else if c.counts() != before.last {
            0
        } else {
            before.stalled_ticks
        },
    }
}

/// What is reported of a frozen scan.
pub open spec fn stall_report(before: PerScanPrev, c: ScanCounters) -> StallReport {
    StallReport {
        counters: c,
        stalled_ticks: (before.stalled_ticks + 1) as u64,
        in_flight: c.in_flight_spec(),
        backlog: c.backlog_spec(),
        mode: if c.in_flight_spec() > 0 {
            StallMode::StuckTaskBodies
        } else {
            StallMode::DrainLostWake
        },
    }
}

/// The reports of a sample: one for each frozen scan, in the order of the scans.
pub open spec fn stall_reports(
    prev: Map<u64, PerScanPrev>,
    live: Seq<ScanCounters>,
) -> Seq<StallReport>
    decreases live.len(),
{
    if live.len() == 0 {
        Seq::empty()
    } else {
        let before = remembered(prev, live.last().id);
        let reports = stall_reports(prev, live.drop_last());
        if frozen(before, live.last()) {
            reports.push(stall_report(before, live.last()))
        } else {
            reports
        }
    }
}

/// Whether no two scans have one number.
pub open spec fn distinct_ids(live: Seq<ScanCounters>) -> bool {
    forall|i: int, j: int|
        0 <= i < live.len() && 0 <= j < live.len() && i != j ==> (#[trigger] live[i]).id != (
        #[trigger] live[j]).id
}

/// Samples every live scan, and reports those that stand still with work outstanding. Scans that
/// are no longer live are forgotten.
pub fn sample_per_scan(
    prev: &mut HashMap<u64, PerScanPrev>,
    live: &Vec<ScanCounters>,
) -> (r: Vec<StallReport>)
    requires
        distinct_ids(live@),
        forall|id: u64| #[trigger]
            old(prev)@.dom().contains(id) ==> old(prev)@[id].stalled_ticks < u64::MAX,
    ensures
        forall|id: u64| #[trigger]
            final(prev)@.dom().contains(id) <==> exists|i: int|
                0 <= i < live.len() && (#[trigger] live@[i]).id == id,
        forall|i: int|
            0 <= i < live.len() ==> final(prev)@[(#[trigger] live@[i]).id] == sampled(
                remembered(old(prev)@, live@[i].id),
                live@[i],
            ),
        r@ == stall_reports(old(prev)@, live@),
{
    broadcast use vstd::std_specs::hash::group_hash_axioms;

    let mut next: HashMap<u64, PerScanPrev> = HashMap::new();
    let mut reports: Vec<StallReport> = Vec::new();
    let mut i: usize = 0;
    assert(live@.take(0) =~= Seq::empty());
    while i < live.len()
        invariant
            0 <= i <= live.len(),
            distinct_ids(live@),
            prev@ == old(prev)@,
            forall|id: u64| #[trigger]
                prev@.dom().contains(id) ==> prev@[id].stalled_ticks < u64::MAX,
            forall|id: u64| #[trigger]
                next@.dom().contains(id) <==> exists|j: int|
                    0 <= j < i && (#[trigger] live@[j]).id == id,
            forall|j: int|
                0 <= j < i ==> next@[(#[trigger] live@[j]).id] == sampled(
                    remembered(prev@, live@[j].id),
                    live@[j],
                ),
            reports@ == stall_reports(prev@, live@.take(i as int)),
        decreases live.len() - i,
    {
        broadcast use vstd::std_specs::hash::group_hash_axioms;

        let c = live[i];
        proof {
            assert(live@.take(i as int + 1).drop_last() =~= live@.take(i as int));
            assert(live@.take(i as int + 1).last() == c);
        }
        let before = match prev.get(&c.id) {
            Some(entry) => *entry,
            None => PerScanPrev { last: (0, 0, 0), stalled_ticks: 0 },
        };
        let in_flight: u64 = c.in_flight();
        let backlog: u64 = c.backlog();
        let outstanding = in_flight > 0 || backlog > 0;
        let same = c.spawned == before.last.0 && c.completed == before.last.1 && c.yielded
            == before.last.2;
        let mut stalled_ticks: u64 = before.stalled_ticks;
        if same && outstanding {
            stalled_ticks = stalled_ticks + 1;
            let mode = if in_flight > 0 {
                StallMode::StuckTaskBodies
            } else {
                StallMode::DrainLostWake
            };
            reports.push(StallReport { counters: c, stalled_ticks, in_flight, backlog, mode });
        } else if !same {
            stalled_ticks = 0;
        }
        let ghost former = next@;
        next.insert(
            c.id,
            PerScanPrev { last: (c.spawned, c.completed, c.yielded), stalled_ticks },
        );
        proof {
            assert forall|id: u64| #[trigger] next@.dom().contains(id) implies exists|j: int|
                0 <= j < i + 1 && (#[trigger] live@[j]).id == id by {
                if former.dom().contains(id) {
                    let j = choose|j: int| 0 <= j < i && (#[trigger] live@[j]).id == id;
                    assert(live@[j].id == id);
                } else {
                    assert(live@[i as int].id == id);
                }
            }
        }
        i += 1;
    }
    assert(live@.take(i as int) =~= live@);
    *prev = next;
    reports
}

/// The counters of all scans together, with those of the phases of a task.
#[derive(Clone, Copy, Debug, PartialEq, Eq, Structural)]
pub struct AggregateCounters {
    pub spawned: u64,
    pub completed: u64,
    pub yielded: u64,
    pub task_started: u64,
    pub task_filter_done: u64,
    pub task_project_done: u64,
}

impl AggregateCounters {
    /// The counters that tell progress.
    pub open spec fn scan(self) -> ScanCounters {
        ScanCounters {
            id: 0,
            spawned: self.spawned,
            completed: self.completed,
            yielded: self.yielded,
        }
    }
}

/// What is reported of all scans together.
#[derive(Clone, Copy, Debug, PartialEq, Eq, Structural)]
pub enum AggregateReport {
    /// Nothing is outstanding.
    Idle,
    Progressing { in_flight: u64, backlog: u64 },
    Stalled {
        stalled_ticks: u64,
        in_flight: u64,
        backlog: u64,
        stuck_before_filter: u64,
        stuck_before_project: u64,
    },
}

/// What is reported of all scans together.
pub open spec fn aggregate_report(before: PerScanPrev, c: AggregateCounters) -> AggregateReport {
    let (in_flight, backlog) = (less(c.spawned, c.completed), less(c.completed, c.yielded));
    if in_flight == 0 && backlog == 0 {
        AggregateReport::Idle
    } else if before.last != (c.spawned, c.completed, c.yielded) {
        AggregateReport::Progressing { in_flight, backlog }
    } else {
        AggregateReport::Stalled {
            stalled_ticks: (before.stalled_ticks + 1) as u64,
            in_flight,
            backlog,
            stuck_before_filter: less(c.task_started, c.task_filter_done),
            stuck_before_project: less(c.task_filter_done, c.task_project_done),
        }
    }
}

/// Samples all scans together and returns what is reported. The counters of the phases say where
/// a task body is stuck.
pub fn sample_aggregate(prev: &mut PerScanPrev, c: AggregateCounters) -> (r: AggregateReport)
    requires
        old(prev).stalled_ticks < u64::MAX,
    ensures
        *final(prev) == sampled(*old(prev), c.scan()),
        r == aggregate_report(*old(prev), c),
        r == if frozen(*old(prev), c.scan()) {
            AggregateReport::Stalled {
                stalled_ticks: (old(prev).stalled_ticks + 1) as u64,
                in_flight: c.scan().in_flight_spec(),
                backlog: c.scan().backlog_spec(),
                stuck_before_filter: less(c.task_started, c.task_filter_done),
                stuck_before_project: less(c.task_filter_done, c.task_project_done),
            }
        } else if c.scan().outstanding_spec() {
            AggregateReport::Progressing {
                in_flight: c.scan().in_flight_spec(),
                backlog: c.scan().backlog_spec(),
            }
        } else {
            AggregateReport::Idle
        },
{
    let in_flight: u64 = c.spawned.saturating_sub(c.completed);
    let backlog: u64 = c.completed.saturating_sub(c.yielded);
    let outstanding = in_flight > 0 || backlog > 0;
    let same = c.spawned == prev.last.0 && c.completed == prev.last.1 && c.yielded == prev.last.2;
    prev.last = (c.spawned, c.completed, c.yielded);
    if same && outstanding {
        prev.stalled_ticks = prev.stalled_ticks + 1;
        return AggregateReport::Stalled {
            stalled_ticks: prev.stalled_ticks,
            in_flight,
            backlog,
            stuck_before_filter: c.task_started.saturating_sub(c.task_filter_done),
            stuck_before_project: c.task_filter_done.saturating_sub(c.task_project_done),
        };
    }
    if !same {
        prev.stalled_ticks = 0;
    }
    if outstanding {
        AggregateReport::Progressing { in_flight, backlog }
    } else {
        AggregateReport::Idle
    }
}

proof fn lemma_reports_are_of_frozen_scans(
    prev: Map<u64, PerScanPrev>,
    live: Seq<ScanCounters>,
    k: int,
)
    requires
        0 <= k < stall_reports(prev, live).len(),
    ensures
        exists|i: int|
            0 <= i < live.len() && frozen(remembered(prev, live[i].id), live[i])
                && stall_reports(prev, live)[k] == stall_report(
                remembered(prev, live[i].id),
                #[trigger] live[i],
            ),
    decreases live.len(),
{
    let n = live.len() - 1;
    let reports = stall_reports(prev, live.drop_last());
    if k < reports.len() {
        lemma_reports_are_of_frozen_scans(prev, live.drop_last(), k);
        let i = choose|i: int|
            0 <= i < n && frozen(
                remembered(prev, live.drop_last()[i].id),
                live.drop_last()[i],
            ) && reports[k] == stall_report(
                remembered(prev, live.drop_last()[i].id),
                #[trigger] live.drop_last()[i],
            );
        assert(live[i] == live.drop_last()[i]);
    } else {
        assert(live[n] == live.last());
    }
}

proof fn lemma_frozen_scans_are_reported(
    prev: Map<u64, PerScanPrev>,
    live: Seq<ScanCounters>,
    i: int,
)
    requires
        0 <= i < live.len(),
        frozen(remembered(prev, live[i].id), live[i]),
    ensures
        stall_reports(prev, live).contains(stall_report(remembered(prev, live[i].id), live[i])),
    decreases live.len(),
{
    let report = stall_report(remembered(prev, live[i].id), live[i]);
    let before = stall_reports(prev, live.drop_last());
    let all = stall_reports(prev, live);
    if i < live.len() - 1 {
        assert(live.drop_last()[i] == live[i]);
        lemma_frozen_scans_are_reported(prev, live.drop_last(), i);
        let k = choose|k: int| 0 <= k < before.len() && before[k] == report;
        assert(all[k] == report);
    } else {
        assert(all[all.len() - 1] == report);
    }
}

/// A scan is reported exactly when its own counters stand still with work outstanding, whatever
/// the other scans do.
pub proof fn law_a_scan_is_reported_by_its_own_counters(
    prev: Map<u64, PerScanPrev>,
    live: Seq<ScanCounters>,
    i: int,
)
    requires
        0 <= i < live.len(),
        distinct_ids(live),
    ensures
        frozen(remembered(prev, live[i].id), live[i]) <==> exists|k: int|
            0 <= k < stall_reports(prev, live).len() && (#[trigger] stall_reports(
                prev,
                live,
            )[k]).counters.id == live[i].id,
{
    let reports = stall_reports(prev, live);
    if frozen(remembered(prev, live[i].id), live[i]) {
        lemma_frozen_scans_are_reported(prev, live, i);
        let report = stall_report(remembered(prev, live[i].id), live[i]);
        let k = choose|k: int| 0 <= k < reports.len() && reports[k] == report;
        assert(reports[k].counters.id == live[i].id);
    }
    if exists|k: int| 0 <= k < reports.len() && (#[trigger] reports[k]).counters.id == live[i].id {
        let k = choose|k: int|
            0 <= k < reports.len() && (#[trigger] reports[k]).counters.id == live[i].id;
        lemma_reports_are_of_frozen_scans(prev, live, k);
        let j = choose|j: int|
            0 <= j < live.len() && frozen(remembered(prev, live[j].id), live[j]) && reports[k]
                == stall_report(remembered(prev, live[j].id), #[trigger] live[j]);
        if i != j {
            assert(live[i].id != live[j].id);
        }
    }
}

/// Two samples of one stalled scan count up: what the second reports is one more than what the
/// first reported.
pub proof fn law_stalled_ticks_count_up(before: PerScanPrev, c: ScanCounters)
    requires
        frozen(before, c),
        before.stalled_ticks + 2 <= u64::MAX,
    ensures
        frozen(sampled(before, c), c),
        stall_report(sampled(before, c), c).stalled_ticks == stall_report(before, c).stalled_ticks
            + 1,
{
}

/// A scan that made progress starts to count from zero.
pub proof fn law_progress_clears_the_count(before: PerScanPrev, c: ScanCounters)
    requires
        c.counts() != before.last,
    ensures
        !frozen(before, c),
        sampled(before, c).stalled_ticks == 0,
{
}

/// A scan stands still with work outstanding exactly if no counter of it moved since the last
/// sample, and a task of it did not complete or a result of it was not yielded.
pub proof fn law_what_stands_still(before: PerScanPrev, c: ScanCounters)
    ensures
        frozen(before, c) <==> c.spawned == before.last.0 && c.completed == before.last.1 && c.yielded
            == before.last.2 && (c.spawned > c.completed || c.completed > c.yielded),
        sampled(before, c).last == (c.spawned, c.completed, c.yielded),
{
}

/// A scan that stands still with nothing outstanding is not stalled any longer than before.
pub proof fn law_an_idle_scan_keeps_its_count(before: PerScanPrev, c: ScanCounters)
    requires
        before.last == (c.spawned, c.completed, c.yielded),
        c.spawned <= c.completed <= c.yielded,
    ensures
        !frozen(before, c),
        sampled(before, c) == before,
{
}

/// A report tells how many tasks did not complete and how many results were not yielded. Tasks that
/// did not complete are what holds a scan up; only without any is it a consumer that was not woken.
pub proof fn law_what_a_report_tells(before: PerScanPrev, c: ScanCounters)
    requires
        frozen(before, c),
        before.stalled_ticks < u64::MAX,
    ensures
        ({
            let report = stall_report(before, c);
            &&& report.counters == c
            &&& report.stalled_ticks == before.stalled_ticks + 1
            &&& report.stalled_ticks == sampled(before, c).stalled_ticks
            &&& c.spawned >= c.completed ==> report.in_flight == c.spawned - c.completed
            &&& c.spawned < c.completed ==> report.in_flight == 0
            &&& c.completed >= c.yielded ==> report.backlog == c.completed - c.yielded
            &&& c.completed < c.yielded ==> report.backlog == 0
            &&& report.mode == StallMode::StuckTaskBodies <==> c.spawned > c.completed
            &&& report.mode == StallMode::DrainLostWake <==> c.spawned <= c.completed
        }),
{
}

/// A scan that was not seen before is never reported.
pub proof fn law_a_new_scan_is_not_stalled(prev: Map<u64, PerScanPrev>, c: ScanCounters)
    requires
        !prev.dom().contains(c.id),
    ensures
        !frozen(remembered(prev, c.id), c),
        sampled(remembered(prev, c.id), c).stalled_ticks == 0,
{
}

/// Whether each number is greater than the one before it.
pub open spec fn growing(values: Seq<u64>) -> bool {
    forall|i: int, j: int| 0 <= i < j < values.len() ==> values[i] < values[j]
}

proof fn lemma_kept_grow(values: Seq<u64>, flags: Seq<bool>)
    requires
        growing(values),
        values.len() == flags.len(),
    ensures
        growing(kept(values, flags)),
        kept(values, flags).len() > 0 ==> values.len() > 0 && kept(values, flags).last()
            <= values.last(),
    decreases values.len(),
{
    if values.len() > 0 {
        lemma_kept_grow(values.drop_last(), flags.drop_last());
        let before = kept(values.drop_last(), flags.drop_last());
        if before.len() > 0 {
            assert(values.drop_last().last() == values[values.len() - 2]);
            assert(values[values.len() - 2] < values[values.len() - 1]);
        }
    }
}

/// A registry holds its scans in the order in which they were registered: its numbers grow, whatever
/// happens to it.
pub proof fn law_scans_stay_in_order(r: RegistryView, step: RegistryStep)
    requires
        r.wf(),
        r.allows(step),
        growing(r.live),
    ensures
        growing(r.after(step).live),
        step is Register ==> r.after(step).live.last() == r.next_id && r.after(step).next_id
            == r.next_id + 1,
        step is Retain ==> r.after(step).next_id == r.next_id,
{
    match step {
        RegistryStep::Register => {
            assert forall|i: int, j: int| 0 <= i < j < r.after(step).live.len() implies r.after(
                step,
            ).live[i] < r.after(step).live[j] by {
                assert(r.live[i] < r.next_id);
            }
        },
        RegistryStep::Retain(alive) => {
            lemma_kept_grow(r.live, alive);
        },
    }
}

/// The numbers of the scans that are reported, in order.
pub open spec fn reported_ids(reports: Seq<StallReport>) -> Seq<u64> {
    reports.map_values(|r: StallReport| r.counters.id)
}

/// The reports come in the order of the scans.
pub proof fn law_reports_come_in_order(prev: Map<u64, PerScanPrev>, live: Seq<ScanCounters>)
    requires
        growing(live.map_values(|c: ScanCounters| c.id)),
    ensures
        growing(reported_ids(stall_reports(prev, live))),
        stall_reports(prev, live).len() > 0 ==> live.len() > 0 && stall_reports(
            prev,
            live,
        ).last().counters.id <= live.last().id,
    decreases live.len(),
{
    if live.len() > 0 {
        let ids = live.map_values(|c: ScanCounters| c.id);
        let rest = live.drop_last();
        assert(rest.map_values(|c: ScanCounters| c.id) =~= ids.drop_last());
        law_reports_come_in_order(prev, rest);
        let before = stall_reports(prev, rest);
        let all = stall_reports(prev, live);
        if before.len() > 0 {
            assert(ids[live.len() - 2] < ids[live.len() - 1]);
            assert(rest.last() == live[live.len() - 2]);
        }
        let numbers = reported_ids(all);
        assert forall|i: int, j: int| 0 <= i < j < numbers.len() implies numbers[i]
            < numbers[j] by {
            if j < before.len() {
                assert(reported_ids(before)[i] < reported_ids(before)[j]);
            } else if i < before.len() - 1 {
                assert(reported_ids(before)[i] < reported_ids(before)[before.len() - 1]);
            }
        }
    }
}

/// All scans together are idle exactly if each task completed and each result was yielded; otherwise
/// they are stalled exactly if no counter moved since the last sample. The report tells how many
/// tasks and results are outstanding, and how many tasks started but did not filter, or filtered but
/// did not project.
pub proof fn law_what_is_told_of_all_scans(before: PerScanPrev, c: AggregateCounters)
    requires
        before.stalled_ticks < u64::MAX,
        c.completed <= c.spawned,
        c.yielded <= c.completed,
        c.task_project_done <= c.task_filter_done <= c.task_started,
    ensures
        match aggregate_report(before, c) {
            AggregateReport::Idle => c.spawned == c.completed && c.completed == c.yielded,
            AggregateReport::Progressing { in_flight, backlog } => in_flight == c.spawned
                - c.completed && backlog == c.completed - c.yielded && in_flight + backlog > 0
                && before.last != (c.spawned, c.completed, c.yielded),
            AggregateReport::Stalled {
                stalled_ticks,
                in_flight,
                backlog,
                stuck_before_filter,
                stuck_before_project,
            } => stalled_ticks == before.stalled_ticks + 1 && in_flight == c.spawned - c.completed
                && backlog == c.completed - c.yielded && in_flight + backlog > 0 && before.last == (
                c.spawned,
                c.completed,
                c.yielded,
            ) && stuck_before_filter == c.task_started - c.task_filter_done && stuck_before_project
                == c.task_filter_done - c.task_project_done,
        },
{
}

/// A task is in flight, waits for its result to be yielded, or has been yielded: together these are
/// the tasks that were spawned. Counts that are read out of order never go below zero.
pub proof fn law_each_task_is_somewhere(counters: ScanCounters)
    ensures
        counters.yielded <= counters.completed <= counters.spawned ==> counters.in_flight_spec()
            + counters.backlog_spec() + counters.yielded == counters.spawned,
        counters.in_flight_spec() > 0 <==> counters.completed < counters.spawned,
        counters.backlog_spec() > 0 <==> counters.yielded < counters.completed,
        counters.in_flight_spec() <= counters.spawned,
        counters.backlog_spec() <= counters.completed,
        counters.completed <= counters.spawned ==> counters.completed + counters.in_flight_spec()
            == counters.spawned,
{
}

} // verus!
