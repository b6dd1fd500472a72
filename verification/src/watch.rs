//! Debouncing of file-system changes: a burst of changes leads to one
//! refresh, once the changes have stopped for a while.

use vstd::hash_map::StringHashMap;
use vstd::prelude::*;
use vstd::string::*;

verus! {

/// How long the changes must have stopped before a refresh, in milliseconds.
pub const QUIET_MS: u64 = 300;

/// What the caller is told when it asks.
#[derive(Debug, Clone, Copy, PartialEq, Eq, Structural)]
pub enum Signal {
    /// Nothing has changed.
    Idle,
    /// Something has changed, but too recently to act on.
    Pending,
    /// The changes have stopped: scan again.
    Refresh,
}

/// The paths that changed since the last refresh, and when the last change was seen.
pub struct Debouncer {
    pub pending: StringHashMap<bool>,
    /// Time of the last change, in milliseconds on the caller's clock.
    pub last_change: Option<u64>,
}

/// The state of a debouncer, as sets and numbers.
pub struct Watch {
    pub pending: Set<Seq<char>>,
    pub last_change: Option<u64>,
}

impl View for Debouncer {
    type V = Watch;

    open spec fn view(&self) -> Watch {
        Watch { pending: self.pending@.dom(), last_change: self.last_change }
    }
}

/// The state in which nothing is pending.
pub open spec fn idle() -> Watch {
    Watch { pending: Set::empty(), last_change: None }
}

/// The state after the changes of `paths` were seen at time `now`: the paths
/// are pending too, and if there are any, the last change was now.
pub open spec fn observed(state: Watch, paths: Set<Seq<char>>, now: u64) -> Watch {
    Watch {
        pending: state.pending.union(paths),
        last_change: if paths.is_empty() {
            state.last_change
        } else {
            Some(now)
        },
    }
}

/// Whether the changes have stopped for long enough at time `now`.
pub open spec fn is_quiet(state: Watch, now: u64) -> bool {
    match state.last_change {
        Some(last) => now >= last && now - last >= QUIET_MS,
        None => true,
    }
}

/// What the caller is told at time `now`.
pub open spec fn signal_at(state: Watch, now: u64) -> Signal {
    if state.pending.is_empty() {
        Signal::Idle
    } else if is_quiet(state, now) {
        Signal::Refresh
    } else {
        Signal::Pending
    }
}

/// The state after the caller has asked at time `now`: idle after a refresh,
/// else as before.
pub open spec fn polled(state: Watch, now: u64) -> Watch {
    if signal_at(state, now) == Signal::Refresh {
        idle()
    } else {
        state
    }
}

/// The characters of the first `upto` paths, as a set.
pub open spec fn path_set(paths: Seq<String>, upto: int) -> Set<Seq<char>> {
    Set::new(|p: Seq<char>| exists|i: int| 0 <= i < upto && (#[trigger] paths[i])@ == p)
}

impl Debouncer {
    /// A debouncer with nothing pending.
    pub fn new() -> (watch: Debouncer)
        ensures
            watch@ == idle(),
    {
        let watch = Debouncer { pending: StringHashMap::new(), last_change: None };
        watch
    }

    /// Takes note of the paths that were seen to change at time `now`.
    pub fn observe(&mut self, paths: &Vec<String>, now: u64)
        ensures
            final(self)@ == observed(old(self)@, path_set(paths@, paths@.len() as int), now),
    {
        let mut i: usize = 0;
        while i < paths.len()
            invariant
                i <= paths@.len(),
                self.last_change == old(self).last_change,
                self.pending@.dom() == old(self).pending@.dom().union(path_set(paths@, i as int)),
            decreases paths@.len() - i,
        {
            self.pending.insert(paths[i].clone(), true);
            i += 1;
        }
        if paths.len() > 0 {
            assert(path_set(paths@, paths@.len() as int).contains(paths@[0]@));
            self.last_change = Some(now);
        }
    }

    /// Answers the caller at time `now`. After `Refresh` nothing is pending.
    pub fn poll(&mut self, now: u64) -> (signal: Signal)
        ensures
            signal == signal_at(old(self)@, now),
            final(self)@ == polled(old(self)@, now),
    {
        if self.pending.is_empty() {
            return Signal::Idle;
        }
        let quiet = match self.last_change {
            Some(last) => now >= last && now - last >= QUIET_MS,
            None => true,
        };
        if quiet {
            self.pending.clear();
            self.last_change = None;
            Signal::Refresh
        } else {
            Signal::Pending
        }
    }
}

/// One thing that happens to a debouncer.
pub enum Step {
    /// Changes of these paths are seen.
    Change { at: u64, paths: Set<Seq<char>> },
    /// The caller asks.
    Poll { at: u64 },
}

/// The state after a step.
pub open spec fn after_step(state: Watch, step: Step) -> Watch {
    match step {
        Step::Change { at, paths } => observed(state, paths, at),
        Step::Poll { at } => polled(state, at),
    }
}

/// The state after the first `upto` steps.
pub open spec fn after_steps(state: Watch, steps: Seq<Step>, upto: int) -> Watch
    decreases upto,
{
    if upto <= 0 {
        state
    } else {
        after_step(after_steps(state, steps, upto - 1), steps[upto - 1])
    }
}

/// How often the caller is told to refresh during the first `upto` steps.
pub open spec fn refreshes(state: Watch, steps: Seq<Step>, upto: int) -> nat
    decreases upto,
{
    if upto <= 0 {
        0
    } else {
        refreshes(state, steps, upto - 1) + match steps[upto - 1] {
            Step::Poll { at } => if signal_at(after_steps(state, steps, upto - 1), at)
                == Signal::Refresh {
                1nat
            } else {
                0nat
            },
            Step::Change { .. } => 0nat,
        }
    }
}

/// When a step happens.
pub open spec fn time_of(step: Step) -> u64 {
    match step {
        Step::Change { at, .. } => at,
        Step::Poll { at } => at,
    }
}

/// The steps are one burst: they begin with a change, every change names a
/// path, and every further step comes after the latest change before it,
/// by less than the quiet time.
pub open spec fn is_burst(steps: Seq<Step>) -> bool {
    &&& steps.len() > 0
    &&& steps[0] is Change
    &&& forall|k: int|
        0 <= k < steps.len() ==> ((#[trigger] steps[k]) matches Step::Change { paths, .. }
            ==> !paths.is_empty())
    &&& forall|k: int|
        0 < k < steps.len() ==> last_change_time(steps, k) <= time_of(#[trigger] steps[k])
            && time_of(steps[k]) - last_change_time(steps, k) < QUIET_MS
}

/// The time of the last change among the first `upto` steps.
pub open spec fn last_change_time(steps: Seq<Step>, upto: int) -> u64
    decreases upto,
{
    if upto <= 0 {
        0
    } else if steps[upto - 1] is Change {
        time_of(steps[upto - 1])
    } else {
        last_change_time(steps, upto - 1)
    }
}

proof fn lemma_burst_stays_pending(steps: Seq<Step>, upto: int)
    requires
        is_burst(steps),
        0 < upto <= steps.len(),
    ensures
        refreshes(idle(), steps, upto) == 0,
        !after_steps(idle(), steps, upto).pending.is_empty(),
        after_steps(idle(), steps, upto).last_change == Some(last_change_time(steps, upto)),
    decreases upto,
{
    if upto == 1 {
        assert(refreshes(idle(), steps, 0) == 0);
        // The first step is a change of some path.
        assert(steps[0] is Change);
    } else {
        lemma_burst_stays_pending(steps, upto - 1);
        // A change adds a path; when the caller asks, the quiet time has not passed.
        assert(steps[upto - 1] is Change || steps[upto - 1] is Poll);
    }
}

/// Debounce coalescing: however many changes a burst holds, and however
/// often the caller asks during it, the caller is told to refresh exactly
/// once: at the first time it asks when the quiet time has passed since the
/// last change. Asked again, it is told that nothing has changed.
pub proof fn lemma_burst_gives_one_refresh(steps: Seq<Step>, first_ask: u64, later_ask: u64)
    requires
        is_burst(steps),
        first_ask >= last_change_time(steps, steps.len() as int),
        first_ask - last_change_time(steps, steps.len() as int) >= QUIET_MS,
        later_ask >= first_ask,
    ensures
        refreshes(idle(), steps, steps.len() as int) == 0,
        refreshes(
            idle(),
            steps.push(Step::Poll { at: first_ask }).push(Step::Poll { at: later_ask }),
            (steps.len() + 2) as int,
        ) == 1,
        signal_at(after_steps(idle(), steps, steps.len() as int), first_ask) == Signal::Refresh,
        signal_at(
            polled(after_steps(idle(), steps, steps.len() as int), first_ask),
            later_ask,
        ) == Signal::Idle,
{
    let n = steps.len() as int;
    lemma_burst_stays_pending(steps, n);
    let one = steps.push(Step::Poll { at: first_ask });
    let two = one.push(Step::Poll { at: later_ask });
    lemma_same_prefix(idle(), steps, two, n);
    assert(refreshes(idle(), two, n + 1) == 1);
}

proof fn lemma_same_prefix(state: Watch, a: Seq<Step>, b: Seq<Step>, upto: int)
    requires
        0 <= upto <= a.len() <= b.len(),
        forall|k: int| 0 <= k < a.len() ==> a[k] == b[k],
    ensures
        after_steps(state, a, upto) == after_steps(state, b, upto),
        refreshes(state, a, upto) == refreshes(state, b, upto),
    decreases upto,
{
    if upto > 0 {
        lemma_same_prefix(state, a, b, upto - 1);
    }
}

/// Changes that lie further apart than the quiet time lead to one refresh
/// each, provided the caller asks in between once the quiet time has passed.
pub proof fn lemma_separate_changes_give_two(
    first: Set<Seq<char>>,
    second: Set<Seq<char>>,
    t1: u64,
    ask1: u64,
    t2: u64,
    ask2: u64,
)
    requires
        !first.is_empty(),
        !second.is_empty(),
        t1 <= ask1 <= t2 <= ask2,
        ask1 - t1 >= QUIET_MS,
        ask2 - t2 >= QUIET_MS,
    ensures
        refreshes(
            idle(),
            seq![
                Step::Change { at: t1, paths: first },
                Step::Poll { at: ask1 },
                Step::Change { at: t2, paths: second },
                Step::Poll { at: ask2 },
            ],
            4,
        ) == 2,
{
    let steps = seq![
        Step::Change { at: t1, paths: first },
        Step::Poll { at: ask1 },
        Step::Change { at: t2, paths: second },
        Step::Poll { at: ask2 },
    ];
    assert(refreshes(idle(), steps, 0) == 0);
    assert(refreshes(idle(), steps, 1) == 0);
    assert(refreshes(idle(), steps, 2) == 1);
    assert(refreshes(idle(), steps, 3) == 1);
}

} // verus!
