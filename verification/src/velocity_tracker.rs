//! Velocity estimation from a short history of pointer samples.
//!
//! A tracker keeps the twenty most recent samples of one axis in a ring and
//! estimates, on demand, the velocity at the newest of them.

use vstd::prelude::*;
use crate::fixed::SCALE;
use crate::fixed::divide;
use crate::fixed::lemma_ratio_bounded;
use crate::fixed::lemma_ratio_between;
use crate::fixed::magnitude;
use crate::fixed::magnitude_of;
use crate::fixed::ratio;
use crate::fixed::saturate;
use crate::fixed::saturated;

verus! {

/// The number of samples that a tracker keeps.
pub const HISTORY_SIZE: usize = 20;

/// The age, 100 ms, past which samples no longer count.
pub const HORIZON_MILLISECONDS: i64 = 100_000_000;

/// The jump between two consecutive samples, 40 points, past which the
/// pointer is taken to have stopped in between.
pub const ASSUME_POINTER_MOVE_STOPPED: i64 = 40_000_000;

/// The most samples that the recurrence looks at.
pub const RECURRENCE_SAMPLES: usize = 4;

/// The square of the speed, 0.25 points per millisecond, below which a
/// pointer counts as coming to a halt.
pub const HALT_SPEED_SQUARED: u128 = 62_500_000_000;

/// One observation of a position on one axis.
#[derive(Clone, Copy, Debug, PartialEq, Eq)]
pub struct DataPoint {
    /// When the position was observed, in millionths of a millisecond.
    pub time: i64,
    /// The position, in millionths of a point.
    pub value: i64,
}

/// How a tracker turns its samples into a velocity.
#[derive(Clone, Copy, Debug, PartialEq, Eq)]
pub enum Strategy {
    /// A weighted recurrence over the last few samples.
    Recurrence,
    /// The slope, at the newest sample, of a parabola fitted to all the
    /// samples by least squares.
    Lsq2,
}

impl Strategy {
    /// The number that stands for the strategy where a tracker is asked for
    /// across a language boundary.
    pub open spec fn spec_code(self) -> u8 {
        match self {
            Strategy::Recurrence => 0,
            Strategy::Lsq2 => 1,
        }
    }

    /// The number that stands for the strategy.
    pub fn code(self) -> (code: u8)
        ensures
            code == self.spec_code(),
    {
        match self {
            Strategy::Recurrence => 0,
            Strategy::Lsq2 => 1,
        }
    }

    /// The strategy that `code` stands for, if it stands for one.
    pub fn from_code(code: u8) -> (strategy: Option<Strategy>)
        ensures
            strategy is Some <==> code <= 1,
            strategy is Some ==> strategy->Some_0.spec_code() == code,
    {
        if code == 0 {
            Some(Strategy::Recurrence)
        } else if code == 1 {
            Some(Strategy::Lsq2)
        } else {
            None
        }
    }
}

impl Default for Strategy {
    fn default() -> (strategy: Self)
        ensures
            strategy == Strategy::Recurrence,
    {
        Strategy::Recurrence
    }
}

/// The slot before `slot` in ring order.
pub open spec fn previous_slot(slot: int) -> int {
    if slot == 0 {
        HISTORY_SIZE - 1
    } else {
        slot - 1
    }
}

/// The samples met walking back through the ring from `slot`: at most
/// `budget` of them, ending before the first empty slot. An empty slot is
/// older than anything written and is never read as a sample.
pub open spec fn walk(slots: Seq<Option<DataPoint>>, slot: int, budget: nat) -> Seq<DataPoint>
    decreases budget,
{
    if budget == 0 || !(0 <= slot < slots.len()) {
        Seq::empty()
    } else {
        match slots[slot] {
            None => Seq::empty(),
            Some(point) => seq![point] + walk(slots, previous_slot(slot), (budget - 1) as nat),
        }
    }
}

/// The history after `point` has been recorded: `point` first, then what
/// was there, without the oldest sample once the ring is full.
pub open spec fn pushed(history: Seq<DataPoint>, point: DataPoint) -> Seq<DataPoint> {
    if history.len() < HISTORY_SIZE {
        seq![point] + history
    } else {
        seq![point] + history.take(HISTORY_SIZE - 1)
    }
}

/// A walk never yields more than its budget.
pub(crate) proof fn lemma_walk_bounded(slots: Seq<Option<DataPoint>>, slot: int, budget: nat)
    ensures
        walk(slots, slot, budget).len() <= budget,
    decreases budget,
{
    if budget > 0 && 0 <= slot < slots.len() && slots[slot] is Some {
        lemma_walk_bounded(slots, previous_slot(slot), (budget - 1) as nat);
    }
}

/// A walk with one step less yields the same samples, short of the last
/// one where the longer walk used its whole budget.
proof fn lemma_walk_shortened(slots: Seq<Option<DataPoint>>, slot: int, budget: nat)
    ensures
        walk(slots, slot, budget) == if walk(slots, slot, budget + 1).len() > budget {
            walk(slots, slot, budget + 1).take(budget as int)
        } else {
            walk(slots, slot, budget + 1)
        },
    decreases budget,
{
    let longer = walk(slots, slot, budget + 1);
    let shorter = walk(slots, slot, budget);
    lemma_walk_bounded(slots, slot, budget + 1);
    if !(0 <= slot < slots.len()) || slots[slot] is None {
    } else if budget == 0 {
        assert(longer.take(0) =~= shorter);
    } else {
        let point = slots[slot]->Some_0;
        let before = previous_slot(slot);
        lemma_walk_shortened(slots, before, (budget - 1) as nat);
        lemma_walk_bounded(slots, before, budget);
        let rest_longer = walk(slots, before, budget);
        let rest_shorter = walk(slots, before, (budget - 1) as nat);
        assert(longer == seq![point] + rest_longer);
        assert(shorter == seq![point] + rest_shorter);
        if rest_longer.len() > budget - 1 {
            assert(longer.take(budget as int) =~= seq![point] + rest_longer.take(budget - 1));
        }
    }
}

/// A walk that ends before it reaches a slot does not depend on what that
/// slot holds.
proof fn lemma_walk_skips(
    slots: Seq<Option<DataPoint>>,
    slot: int,
    budget: nat,
    written: int,
    point: DataPoint,
)
    requires
        slots.len() == HISTORY_SIZE,
        0 <= slot < HISTORY_SIZE,
        0 <= written < HISTORY_SIZE,
        budget <= (slot - written + HISTORY_SIZE) % (HISTORY_SIZE as int),
    ensures
        walk(slots.update(written, Some(point)), slot, budget) == walk(slots, slot, budget),
    decreases budget,
{
    if budget > 0 {
        let before = previous_slot(slot);
        assert(slot != written);
        assert((before - written + HISTORY_SIZE) % (HISTORY_SIZE as int) == (slot - written
            + HISTORY_SIZE) % (HISTORY_SIZE as int) - 1);
        lemma_walk_skips(slots, before, (budget - 1) as nat, written, point);
    }
}

/// What a least-squares fit of a parabola `offset + slope * t + curvature *
/// t * t` to the samples found, with `t` the time since the newest sample.
#[derive(Clone, Copy, Debug, PartialEq, Eq)]
pub struct QuadraticFit {
    /// The fitted position at the newest sample.
    pub offset: i64,
    /// The fitted velocity at the newest sample.
    pub slope: i64,
    /// Half the fitted acceleration.
    pub curvature: i64,
}

/// Why the recurrence gave no velocity.
#[derive(Clone, Copy, Debug, PartialEq, Eq)]
pub enum RecurrenceError {
    /// Fewer than two points were given.
    TooFewPoints,
}

/// The fewest samples from which `strategy` estimates a velocity.
pub open spec fn min_samples(strategy: Strategy) -> nat {
    match strategy {
        Strategy::Recurrence => 2,
        Strategy::Lsq2 => 3,
    }
}

/// Whether sample `k` of `history`, newest first, shows that the pointer
/// had stopped: it is older than the horizon, or it lies further than a
/// moving pointer gets from the sample recorded after it.
pub open spec fn stale(history: Seq<DataPoint>, k: int) -> bool
    recommends
        0 <= k < history.len(),
{
    let after = if k == 0 {
        history[0]
    } else {
        history[k - 1]
    };
    ||| history[0].time - history[k].time > HORIZON_MILLISECONDS
    ||| magnitude(history[k].value - after.value) > ASSUME_POINTER_MOVE_STOPPED
}

/// The first sample at or after `from` that is stale, or the length of
/// `history` where there is none.
pub open spec fn first_stale(history: Seq<DataPoint>, from: nat) -> nat
    decreases history.len() - from,
{
    if from >= history.len() {
        history.len()
    } else if stale(history, from as int) {
        from
    } else {
        first_stale(history, from + 1)
    }
}

/// The samples that `strategy` estimates from. The recurrence stops at the
/// first stale sample, so that motion from before a pause does not leak
/// into the estimate; the least-squares fit takes the whole history.
pub open spec fn retained(strategy: Strategy, history: Seq<DataPoint>) -> Seq<DataPoint> {
    match strategy {
        Strategy::Recurrence => history.take(first_stale(history, 0) as int),
        Strategy::Lsq2 => history,
    }
}

/// The velocity between two samples, or nothing where they were taken at
/// the same time.
pub open spec fn instantaneous(older: DataPoint, newer: DataPoint) -> Option<int> {
    if newer.time == older.time {
        None
    } else {
        Some(ratio((newer.value - older.value) * SCALE, newer.time - older.time))
    }
}

/// The running estimate after a further velocity: `0.8 * current + 0.2 *
/// velocity`.
pub open spec fn blended(current: int, velocity: int) -> int {
    ratio(4 * current + velocity, 5)
}

/// The reported velocity: `0.75 * previous + 0.25 * current`.
pub open spec fn settled(previous: int, current: int) -> int {
    ratio(3 * previous + current, 4)
}

/// The last two running estimates, the earlier one first, after `velocity`
/// has been taken in. The first velocity starts the estimate.
pub open spec fn advanced(running: (Option<int>, Option<int>), velocity: Option<int>) -> (
    Option<int>,
    Option<int>,
) {
    match velocity {
        None => running,
        Some(v) => match running.1 {
            None => (None, Some(v)),
            Some(current) => (Some(current), Some(blended(current, v))),
        },
    }
}

/// The last two running estimates once the pairs of consecutive `points`,
/// newest first, have been taken in from the oldest pair down to the pair
/// whose newer point is `points[pair]`.
pub open spec fn running_estimate(points: Seq<DataPoint>, pair: nat) -> (Option<int>, Option<int>)
    decreases points.len() - pair,
{
    if pair + 1 >= points.len() {
        (None, None)
    } else {
        advanced(
            running_estimate(points, pair + 1),
            instantaneous(points[pair as int + 1], points[pair as int]),
        )
    }
}

/// The velocity that the recurrence reports for `points`, newest first. A
/// single velocity is reported as it is, and none at all as 0.
pub open spec fn recurrence_velocity(points: Seq<DataPoint>) -> int {
    let running = running_estimate(points, 0);
    match running.1 {
        None => 0,
        Some(current) => match running.0 {
            None => current,
            Some(previous) => settled(previous, current),
        },
    }
}

/// The `count` newest of `points`, or all of them where there are fewer.
pub open spec fn newest(points: Seq<DataPoint>, count: nat) -> Seq<DataPoint> {
    if points.len() <= count {
        points
    } else {
        points.take(count as int)
    }
}

/// Sample `k` of `window` as the fit takes it: its time counted from the
/// newest sample, so that the newest is at 0 and older ones lie below 0,
/// and held inside the 64-bit range.
pub open spec fn relative(window: Seq<DataPoint>, k: int) -> DataPoint
    recommends
        0 <= k < window.len(),
{
    DataPoint {
        time: saturated(window[k].time - window[0].time) as i64,
        value: window[k].value,
    }
}

/// The velocity that a tracker with `strategy` reports for `history`,
/// newest first, given the outcome `fit` of the least-squares fit: 0 with
/// fewer samples than the strategy needs or where the fit failed.
pub open spec fn estimated(
    strategy: Strategy,
    history: Seq<DataPoint>,
    fit: Option<QuadraticFit>,
) -> int {
    let window = retained(strategy, history);
    if window.len() < min_samples(strategy) {
        0
    } else {
        match strategy {
            Strategy::Recurrence => saturated(
                recurrence_velocity(newest(window, RECURRENCE_SAMPLES as nat)),
            ),
            Strategy::Lsq2 => match fit {
                Some(found) => found.slope as int,
                None => 0,
            },
        }
    }
}

/// No sample before the first stale one is stale, and where the first
/// stale one lies inside the history it is stale.
pub proof fn lemma_first_stale(history: Seq<DataPoint>, from: nat)
    requires
        from <= history.len(),
    ensures
        from <= first_stale(history, from) <= history.len(),
        forall|k: int| from <= k < first_stale(history, from) ==> !stale(history, k),
        first_stale(history, from) < history.len() ==> stale(
            history,
            first_stale(history, from) as int,
        ),
    decreases history.len() - from,
{
    if from < history.len() && !stale(history, from as int) {
        lemma_first_stale(history, from + 1);
    }
}

/// Whatever the fit, a tracker reports 0 while it holds fewer than two
/// samples.
pub proof fn lemma_too_few_samples(
    strategy: Strategy,
    history: Seq<DataPoint>,
    fit: Option<QuadraticFit>,
)
    requires
        history.len() <= 1,
    ensures
        estimated(strategy, history, fit) == 0,
{
    lemma_first_stale(history, 0);
}

/// The velocity between point `pair` of `points`, newest first, and the
/// point before it in time.
pub open spec fn velocity_into(points: Seq<DataPoint>, pair: int) -> Option<int>
    recommends
        0 <= pair < points.len() - 1,
{
    instantaneous(points[pair + 1], points[pair])
}

/// Whether every velocity that there is between consecutive `points`, from
/// pair `from` on, lies between `low` and `high`. Two points taken at the
/// same time have no velocity between them and are passed over.
pub open spec fn velocities_within(points: Seq<DataPoint>, from: int, low: int, high: int) -> bool {
    forall|j: int|
        from <= j < points.len() - 1 && (#[trigger] velocity_into(points, j)) is Some ==> low
            <= velocity_into(points, j)->Some_0 <= high
}

/// Whether there is no velocity between any two consecutive `points` from
/// pair `from` on.
pub open spec fn no_velocity(points: Seq<DataPoint>, from: int) -> bool {
    forall|j: int| from <= j < points.len() - 1 ==> (#[trigger] velocity_into(points, j)) is None
}

/// The running estimates lie among the velocities that went into them, and
/// there is a running estimate as soon as there is a velocity.
proof fn lemma_running_estimate_within(points: Seq<DataPoint>, pair: nat, low: int, high: int)
    requires
        velocities_within(points, pair as int, low, high),
    ensures
        running_estimate(points, pair).1 is None <==> no_velocity(points, pair as int),
        running_estimate(points, pair).1 is None ==> running_estimate(points, pair).0 is None,
        running_estimate(points, pair).1 is Some ==> low <= running_estimate(
            points,
            pair,
        ).1->Some_0 <= high,
        running_estimate(points, pair).0 is Some ==> low <= running_estimate(
            points,
            pair,
        ).0->Some_0 <= high,
    decreases points.len() - pair,
{
    if pair + 1 < points.len() {
        lemma_running_estimate_within(points, pair + 1, low, high);
        let before = running_estimate(points, pair + 1);
        let velocity = velocity_into(points, pair as int);
        assert(running_estimate(points, pair) == advanced(before, velocity));
        assert(no_velocity(points, pair as int) <==> velocity is None && no_velocity(
            points,
            pair as int + 1,
        )) by {
            if velocity is None && no_velocity(points, pair as int + 1) {
                assert forall|j: int| pair <= j < points.len() - 1 implies (
                #[trigger] velocity_into(points, j)) is None by {
                    if j > pair {
                        assert(velocity_into(points, j) is None);
                    }
                }
            }
            if no_velocity(points, pair as int) {
                assert(velocity_into(points, pair as int) is None);
            }
        }
        if velocity is Some && before.1 is Some {
            let v = velocity->Some_0;
            let current = before.1->Some_0;
            assert(low <= v <= high);
            lemma_ratio_between(4 * current + v, 5, low, high);
        }
    }
}

/// The estimate lies among the velocities that it is made from: where the
/// velocities between consecutive points all lie between `low` and `high`,
/// so does what the recurrence reports. Points taken at the same time have
/// no velocity between them and do not count; where no two points differ
/// in time, the recurrence reports 0.
pub proof fn lemma_estimate_between_velocities(points: Seq<DataPoint>, low: int, high: int)
    requires
        velocities_within(points, 0, low, high),
    ensures
        !no_velocity(points, 0) ==> low <= recurrence_velocity(points) <= high,
        no_velocity(points, 0) ==> recurrence_velocity(points) == 0,
{
    lemma_running_estimate_within(points, 0, low, high);
    let running = running_estimate(points, 0);
    if running.1 is Some && running.0 is Some {
        lemma_ratio_between(3 * running.0->Some_0 + running.1->Some_0, 4, low, high);
    }
}

/// A pointer that moves at a constant velocity is estimated at that
/// velocity: where every velocity that there is between consecutive points
/// is the same, and there is one, the recurrence reports it.
pub proof fn lemma_constant_velocity(points: Seq<DataPoint>, velocity: int)
    requires
        velocities_within(points, 0, velocity, velocity),
        !no_velocity(points, 0),
    ensures
        recurrence_velocity(points) == velocity,
{
    lemma_estimate_between_velocities(points, velocity, velocity);
}

/// The largest magnitude of a velocity between two samples.
const VELOCITY_BOUND: i128 = 18_446_744_073_709_551_616_000_000;

/// The recurrence over the `count` newest of `points`, which are held
/// newest first. It needs two points; with more, it blends the velocities
/// between consecutive points from the oldest pair on.
pub fn calculate_recurrence_relation_velocity(points: &Vec<DataPoint>, count: usize) -> (velocity:
    Result<i64, RecurrenceError>)
    ensures
        newest(points@, count as nat).len() < 2 <==> velocity is Err,
        velocity is Ok ==> velocity->Ok_0 == saturated(
            recurrence_velocity(newest(points@, count as nat)),
        ),
{
    let used: usize = if points.len() <= count {
        points.len()
    } else {
        count
    };
    if used < 2 {
        return Err(RecurrenceError::TooFewPoints);
    }
    let ghost window = newest(points@, count as nat);
    let mut previous: Option<i128> = None;
    let mut current: Option<i128> = None;
    let mut pair: usize = used - 1;
    while pair > 0
        invariant
            window == newest(points@, count as nat),
            window.len() == used,
            used <= points@.len(),
            pair < used,
            current is None ==> previous is None,
            previous is Some ==> -VELOCITY_BOUND <= previous->Some_0 <= VELOCITY_BOUND,
            current is Some ==> -VELOCITY_BOUND <= current->Some_0 <= VELOCITY_BOUND,
            running_estimate(window, pair as nat) == (
                match previous {
                    Some(p) => Some(p as int),
                    None => None::<int>,
                },
                match current {
                    Some(c) => Some(c as int),
                    None => None::<int>,
                },
            ),
        decreases pair,
    {
        pair -= 1;
        let older = points[pair + 1];
        let newer = points[pair];
        proof {
            assert(window[pair as int] == newer);
            assert(window[pair as int + 1] == older);
            assert(running_estimate(window, pair as nat) == advanced(
                running_estimate(window, (pair + 1) as nat),
                instantaneous(older, newer),
            ));
        }
        let elapsed: i128 = newer.time as i128 - older.time as i128;
        if elapsed != 0 {
            let moved: i128 = newer.value as i128 - older.value as i128;
            let velocity: i128 = divide(moved * (SCALE as i128), elapsed);
            assert(-VELOCITY_BOUND <= velocity <= VELOCITY_BOUND);
            assert(instantaneous(older, newer) == Some(velocity as int));
            match current {
                None => {
                    current = Some(velocity);
                },
                Some(estimate) => {
                    let mixed: i128 = divide(4 * estimate + velocity, 5);
                    assert(mixed == blended(estimate as int, velocity as int));
                    proof {
                        lemma_ratio_bounded(4 * estimate + velocity, 5, VELOCITY_BOUND as int);
                    }
                    previous = Some(estimate);
                    current = Some(mixed);
                },
            }
        }
    }
    let settled_velocity: i128 = match current {
        None => 0,
        Some(estimate) => match previous {
            None => estimate,
            Some(earlier) => {
                proof {
                    lemma_ratio_bounded(3 * earlier + estimate, 4, VELOCITY_BOUND as int);
                }
                divide(3 * earlier + estimate, 4)
            },
        },
    };
    Ok(saturate(settled_velocity))
}

/// Estimates the velocity of a pointer along one axis.
#[derive(Debug)]
pub struct VelocityTracker {
    strategy: Strategy,
    samples: Vec<Option<DataPoint>>,
    index: usize,
}

impl View for VelocityTracker {
    type V = Seq<DataPoint>;

    /// The samples that the tracker holds, newest first.
    closed spec fn view(&self) -> Seq<DataPoint> {
        walk(self.samples@, self.index as int, HISTORY_SIZE as nat)
    }
}

impl VelocityTracker {
    #[verifier::type_invariant]
    spec fn well_formed(self) -> bool {
        &&& self.samples@.len() == HISTORY_SIZE
        &&& self.index < HISTORY_SIZE
    }

    /// The strategy that the tracker was made with.
    pub closed spec fn strategy(self) -> Strategy {
        self.strategy
    }

    /// A tracker without samples that estimates with `strategy`.
    pub fn with_strategy(strategy: Strategy) -> (tracker: Self)
        ensures
            tracker@ == Seq::<DataPoint>::empty(),
            tracker.strategy() == strategy,
    {
        let mut samples: Vec<Option<DataPoint>> = Vec::new();
        let mut filled: usize = 0;
        while filled < HISTORY_SIZE
            invariant
                filled <= HISTORY_SIZE,
                samples@.len() == filled,
                forall|i: int| 0 <= i < filled ==> samples@[i] is None,
            decreases HISTORY_SIZE - filled,
        {
            samples.push(None);
            filled += 1;
        }
        VelocityTracker { strategy, samples, index: 0 }
    }

    /// A tracker without samples that estimates by recurrence.
    pub fn new() -> (tracker: Self)
        ensures
            tracker@ == Seq::<DataPoint>::empty(),
            tracker.strategy() == Strategy::Recurrence,
    {
        Self::with_strategy(Strategy::Recurrence)
    }

    /// Records the position `value` observed at `time_milliseconds`. Once
    /// twenty samples are held, the oldest one makes room.
    pub fn add_data_point(&mut self, time_milliseconds: i64, value: i64)
        ensures
            final(self)@ == pushed(
                old(self)@,
                (DataPoint { time: time_milliseconds, value }),
            ),
            final(self).strategy() == old(self).strategy(),
    {
        proof {
            use_type_invariant(&*self);
        }
        let data_point = DataPoint { time: time_milliseconds, value };
        let ghost slots = self.samples@;
        let ghost cursor = self.index as int;
        let next: usize = (self.index + 1) % HISTORY_SIZE;
        self.index = next;
        self.samples[next] = Some(data_point);
        proof {
            let written = slots.update(next as int, Some(data_point));
            assert(self.samples@ == written);
            assert(previous_slot(next as int) == cursor);
            lemma_walk_skips(slots, cursor, (HISTORY_SIZE - 1) as nat, next as int, data_point);
            lemma_walk_shortened(slots, cursor, (HISTORY_SIZE - 1) as nat);
            lemma_walk_bounded(slots, cursor, HISTORY_SIZE as nat);
            assert(walk(written, next as int, HISTORY_SIZE as nat) == seq![data_point] + walk(
                written,
                cursor,
                (HISTORY_SIZE - 1) as nat,
            ));
        }
    }

    /// Forgets every sample.
    pub fn reset(&mut self)
        ensures
            final(self)@ == Seq::<DataPoint>::empty(),
            final(self).strategy() == old(self).strategy(),
    {
        proof {
            use_type_invariant(&*self);
        }
        let mut slot: usize = 0;
        while slot < HISTORY_SIZE
            invariant
                slot <= HISTORY_SIZE,
                self.samples@.len() == HISTORY_SIZE,
                self.index < HISTORY_SIZE,
                self.strategy == old(self).strategy,
                forall|i: int| 0 <= i < slot ==> self.samples@[i] is None,
            decreases HISTORY_SIZE - slot,
        {
            self.samples[slot] = None;
            slot += 1;
        }
        self.index = 0;
    }

    /// The fewest samples from which the tracker estimates a velocity.
    pub fn min_sample_size(&self) -> (size: usize)
        ensures
            size == min_samples(self.strategy()),
    {
        match self.strategy {
            Strategy::Recurrence => 2,
            Strategy::Lsq2 => 3,
        }
    }

    /// The samples that the next estimate is made from, newest first.
    pub fn window(&self) -> (window: Vec<DataPoint>)
        ensures
            window@ == retained(self.strategy(), self@),
            window@.len() <= HISTORY_SIZE,
    {
        proof {
            use_type_invariant(self);
            lemma_walk_bounded(self.samples@, self.index as int, HISTORY_SIZE as nat);
        }
        let mut window: Vec<DataPoint> = Vec::new();
        let mut slot: usize = self.index;
        let mut stopped: bool = false;
        while window.len() < HISTORY_SIZE && !stopped
            invariant
                self.samples@.len() == HISTORY_SIZE,
                slot < HISTORY_SIZE,
                window@.len() <= HISTORY_SIZE,
                self@.len() <= HISTORY_SIZE,
                !stopped ==> self@ == window@ + walk(
                    self.samples@,
                    slot as int,
                    (HISTORY_SIZE - window@.len()) as nat,
                ),
                !stopped && self.strategy is Recurrence ==> first_stale(self@, 0) == first_stale(
                    self@,
                    window@.len(),
                ),
                stopped ==> window@ == retained(self.strategy(), self@),
            decreases HISTORY_SIZE - window@.len() + if stopped { 0int } else { 1int },
        {
            let ghost rest = walk(
                self.samples@,
                slot as int,
                (HISTORY_SIZE - window@.len()) as nat,
            );
            match self.samples[slot] {
                None => {
                    proof {
                        assert(rest == Seq::<DataPoint>::empty());
                        assert(self@ =~= window@);
                        lemma_exhausted(self@, window@.len());
                        assert(self@.take(self@.len() as int) =~= self@);
                    }
                    stopped = true;
                },
                Some(sample) => {
                    let ghost k = window@.len() as int;
                    proof {
                        assert(rest[0] == sample);
                        assert(self@[k] == sample);
                        assert(forall|i: int| 0 <= i < k ==> self@[i] == window@[i]);
                    }
                    let halted: bool = match self.strategy {
                        Strategy::Lsq2 => false,
                        Strategy::Recurrence => {
                            let newest_time: i128 = if window.len() == 0 {
                                sample.time as i128
                            } else {
                                window[0].time as i128
                            };
                            let after_value: i128 = if window.len() == 0 {
                                sample.value as i128
                            } else {
                                window[window.len() - 1].value as i128
                            };
                            let age: i128 = newest_time - sample.time as i128;
                            let jump: i128 = sample.value as i128 - after_value;
                            let delta: i128 = if jump < 0 {
                                -jump
                            } else {
                                jump
                            };
                            age > HORIZON_MILLISECONDS as i128 || delta
                                > ASSUME_POINTER_MOVE_STOPPED as i128
                        },
                    };
                    if halted {
                        proof {
                            assert(stale(self@, k));
                            assert(self@.take(k) =~= window@);
                        }
                        stopped = true;
                    } else {
                        proof {
                            assert(self@ =~= window@.push(sample) + walk(
                                self.samples@,
                                previous_slot(slot as int),
                                (HISTORY_SIZE - k - 1) as nat,
                            ));
                        }
                        window.push(sample);
                        slot = if slot == 0 {
                            HISTORY_SIZE - 1
                        } else {
                            slot - 1
                        };
                    }
                },
            }
        }
        proof {
            if !stopped {
                assert(self@ =~= window@);
                lemma_exhausted(self@, window@.len());
                assert(self@.take(self@.len() as int) =~= self@);
            }
        }
        window
    }

    /// The samples that a least-squares fit is made to: those of `window`,
    /// newest first, with their times counted from the newest.
    pub fn fit_samples(&self) -> (samples: Vec<DataPoint>)
        ensures
            samples@.len() == retained(self.strategy(), self@).len(),
            forall|k: int|
                0 <= k < samples@.len() ==> samples@[k] == relative(
                    retained(self.strategy(), self@),
                    k,
                ),
    {
        let window = self.window();
        let mut samples: Vec<DataPoint> = Vec::new();
        let mut k: usize = 0;
        while k < window.len()
            invariant
                k <= window@.len(),
                samples@.len() == k,
                forall|i: int| 0 <= i < k ==> samples@[i] == relative(window@, i),
            decreases window@.len() - k,
        {
            let age: i64 = saturate(window[k].time as i128 - window[0].time as i128);
            samples.push(DataPoint { time: age, value: window[k].value });
            k += 1;
        }
        samples
    }

    /// The estimated velocity at the newest sample, 0 while the samples are
    /// too few. The least-squares strategy reports the slope of `fit`, the
    /// parabola fitted to the samples of `fit_samples`, or 0 where the fit
    /// failed; the recurrence takes no notice of `fit`.
    pub fn calculate(&self, fit: Option<QuadraticFit>) -> (velocity: i64)
        ensures
            velocity == estimated(self.strategy(), self@, fit),
    {
        let window = self.window();
        if window.len() < self.min_sample_size() {
            return 0;
        }
        match self.strategy {
            Strategy::Recurrence => {
                match calculate_recurrence_relation_velocity(&window, RECURRENCE_SAMPLES) {
                    Ok(velocity) => velocity,
                    Err(_) => 0,
                }
            },
            Strategy::Lsq2 => match fit {
                Some(found) => found.slope,
                None => 0,
            },
        }
    }

    /// Whether a pointer moving at the given velocities along the two axes
    /// is coming to a halt: whether its speed is below 0.25 points per
    /// millisecond.
    pub fn approaching_halt(horizontal_velocity: i64, vertical_velocity: i64) -> (halting: bool)
        ensures
            halting == (horizontal_velocity * horizontal_velocity + vertical_velocity
                * vertical_velocity < HALT_SPEED_SQUARED),
    {
        let horizontal: u128 = magnitude_of(horizontal_velocity) as u128;
        let vertical: u128 = magnitude_of(vertical_velocity) as u128;
        proof {
            assert(horizontal * horizontal <= 0x4000_0000_0000_0000_0000_0000_0000_0000)
                by (nonlinear_arith)
                requires
                    horizontal <= 0x8000_0000_0000_0000,
            ;
            assert(vertical * vertical <= 0x4000_0000_0000_0000_0000_0000_0000_0000)
                by (nonlinear_arith)
                requires
                    vertical <= 0x8000_0000_0000_0000,
            ;
            assert(horizontal * horizontal == horizontal_velocity * horizontal_velocity)
                by (nonlinear_arith)
                requires
                    horizontal == magnitude(horizontal_velocity as int),
            ;
            assert(vertical * vertical == vertical_velocity * vertical_velocity)
                by (nonlinear_arith)
                requires
                    vertical == magnitude(vertical_velocity as int),
            ;
        }
        horizontal * horizontal + vertical * vertical < HALT_SPEED_SQUARED
    }
}

/// A tracker never holds more samples than its ring has slots.
pub proof fn lemma_history_bounded(tracker: VelocityTracker)
    ensures
        tracker@.len() <= HISTORY_SIZE,
{
    lemma_walk_bounded(tracker.samples@, tracker.index as int, HISTORY_SIZE as nat);
}

/// After `reset` a tracker estimates as one that was just made: both hold
/// no samples, and with the same strategy they report the same velocity, 0,
/// and go on to report the same whatever is recorded next.
pub proof fn lemma_reset_is_fresh(
    after_reset: VelocityTracker,
    fresh: VelocityTracker,
    fit: Option<QuadraticFit>,
    next: DataPoint,
)
    requires
        after_reset@ == Seq::<DataPoint>::empty(),
        fresh@ == Seq::<DataPoint>::empty(),
        after_reset.strategy() == fresh.strategy(),
    ensures
        estimated(after_reset.strategy(), after_reset@, fit) == estimated(
            fresh.strategy(),
            fresh@,
            fit,
        ),
        estimated(after_reset.strategy(), after_reset@, fit) == 0,
        pushed(after_reset@, next) == pushed(fresh@, next),
{
    lemma_too_few_samples(after_reset.strategy(), after_reset@, fit);
}

/// Where no sample from `from` on is stale, nothing is: the first stale
/// sample is the end of the history.
proof fn lemma_exhausted(history: Seq<DataPoint>, from: nat)
    requires
        from == history.len(),
    ensures
        first_stale(history, from) == history.len(),
{
}

impl Default for VelocityTracker {
    fn default() -> (tracker: Self)
        ensures
            tracker@ == Seq::<DataPoint>::empty(),
            tracker.strategy() == Strategy::Recurrence,
    {
        Self::new()
    }
}

} // verus!
