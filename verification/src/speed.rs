//! A simple speed meter.
//!
//! Time is divided into small slices, and what came in during each slice is kept in a queue of
//! limited length. When the queue is full its first element is discarded, so that the queue is a
//! sliding window. The speed that is read from the meter is the average within that window.
//!
//! Points in time and durations are counted in nanoseconds; a point in time is counted from any
//! moment that stays the same for one meter.

use std::collections::VecDeque;

use vstd::pervasive::unreached;
use vstd::prelude::*;

verus! {

/// What a `SpeedMeter` holds.
#[verifier::ext_equal]
pub struct MeterView {
    /// When the current slice began.
    pub last_instant: u128,
    /// What came in since then.
    pub current_increment: u64,
    /// The slices in the window, the oldest first: what came in, and how long the slice took.
    pub time_slices: Seq<(u64, u128)>,
    /// The greatest length of the window.
    pub slice_window_size: usize,
    /// The shortest time that makes a slice.
    pub min_slice: u128,
}

/// The time from `from` to `to`, zero where `to` is the earlier one.
pub open spec fn elapsed(from: u128, to: u128) -> u128 {
    if from <= to {
        (to - from) as u128
    } else {
        0
    }
}

/// The window after `slice` has come in: at its full length the oldest slice leaves.
pub open spec fn slide(slices: Seq<(u64, u128)>, window: nat, slice: (u64, u128)) -> Seq<(u64, u128)> {
    if slices.len() > 0 && slices.len() >= window {
        slices.drop_first().push(slice)
    } else {
        slices.push(slice)
    }
}

/// The sum of what came in during `slices`.
pub open spec fn total_increment(slices: Seq<(u64, u128)>) -> nat
    decreases slices.len(),
{
    if slices.len() == 0 {
        0
    } else {
        total_increment(slices.drop_last()) + slices.last().0 as nat
    }
}

/// The time that `slices` took together.
pub open spec fn total_time(slices: Seq<(u64, u128)>) -> nat
    decreases slices.len(),
{
    if slices.len() == 0 {
        0
    } else {
        total_time(slices.drop_last()) + slices.last().1 as nat
    }
}

/// The slices that a window of length `window` shows of all slices there ever were: the last
/// ones, and at least one.
pub open spec fn recent(history: Seq<(u64, u128)>, window: nat) -> Seq<(u64, u128)> {
    let shown: nat = if window == 0 {
        1
    } else {
        window
    };
    if history.len() <= shown {
        history
    } else {
        history.skip(history.len() - shown)
    }
}

impl MeterView {
    /// Whether the counter of the current slice can take `delta` more.
    pub open spec fn has_room(self, delta: u64) -> bool {
        self.current_increment + delta <= u64::MAX
    }

    /// Whether the sums over the window fit the types in which they are given.
    pub open spec fn totals_fit(self) -> bool {
        total_increment(self.time_slices) <= u64::MAX && total_time(self.time_slices) <= u128::MAX
    }

    /// Whether a slice is complete at `now`.
    pub open spec fn slice_complete(self, now: u128) -> bool {
        elapsed(self.last_instant, now) >= self.min_slice
    }

    /// The meter after `delta` has come in at `now`: it either counts toward the current slice or
    /// completes it.
    pub open spec fn added(self, delta: u64, now: u128) -> MeterView {
        let increment = (self.current_increment + delta) as u64;
        if self.slice_complete(now) {
            MeterView {
                last_instant: now,
                current_increment: 0,
                time_slices: slide(
                    self.time_slices,
                    self.slice_window_size as nat,
                    (increment, elapsed(self.last_instant, now)),
                ),
                ..self
            }
        } else {
            MeterView { current_increment: increment, ..self }
        }
    }
}

/// The sums over the first slices are at most those over all.
proof fn lemma_totals_of_prefix(slices: Seq<(u64, u128)>, n: int)
    requires
        0 <= n <= slices.len(),
    ensures
        total_increment(slices.take(n)) <= total_increment(slices),
        total_time(slices.take(n)) <= total_time(slices),
    decreases slices.len(),
{
    if n < slices.len() {
        lemma_totals_of_prefix(slices.drop_last(), n);
        assert(slices.drop_last().take(n) =~= slices.take(n));
    } else {
        assert(slices.take(n) =~= slices);
    }
}

/// The window always shows the most recent of all slices that there ever were.
pub proof fn law_window_shows_recent(meter: MeterView, history: Seq<(u64, u128)>, delta: u64, now: u128)
    requires
        meter.has_room(delta),
        meter.time_slices == recent(history, meter.slice_window_size as nat),
    ensures
        meter.added(delta, now).time_slices == recent(
            if meter.slice_complete(now) {
                history.push(((meter.current_increment + delta) as u64, elapsed(meter.last_instant, now)))
            } else {
                history
            },
            meter.slice_window_size as nat,
        ),
{
    if meter.slice_complete(now) {
        let slice = ((meter.current_increment + delta) as u64, elapsed(meter.last_instant, now));
        assert(meter.added(delta, now).time_slices =~= recent(
            history.push(slice),
            meter.slice_window_size as nat,
        ));
    }
}

/// The window never grows beyond its greatest length, or beyond one slice where that is zero.
pub proof fn law_window_is_bounded(meter: MeterView, delta: u64, now: u128)
    requires
        meter.time_slices.len() <= meter.slice_window_size || meter.time_slices.len() <= 1,
    ensures
        ({
            let after = meter.added(delta, now);
            after.time_slices.len() <= after.slice_window_size || after.time_slices.len() <= 1
        }),
{
}

/// Nothing that comes in is lost before its slice is complete: what `added` counts stands in the
/// current slice or in the newest slice of the window.
pub proof fn law_every_increment_is_counted(meter: MeterView, delta: u64, now: u128)
    requires
        meter.has_room(delta),
    ensures
        ({
            let after = meter.added(delta, now);
            if meter.slice_complete(now) {
                &&& after.time_slices.last().0 == meter.current_increment + delta
                &&& after.current_increment == 0
            } else {
                &&& after.time_slices == meter.time_slices
                &&& after.current_increment == meter.current_increment + delta
            }
        }),
{
}

/// Every slice of the window counts in full, both what came in and the time it took, however many
/// slices there are; an empty window comes to nothing.
pub proof fn law_every_slice_counts(slices: Seq<(u64, u128)>, slice: (u64, u128))
    ensures
        total_increment(Seq::empty()) == 0,
        total_time(Seq::empty()) == 0,
        total_increment(slices.push(slice)) == total_increment(slices) + slice.0,
        total_time(slices.push(slice)) == total_time(slices) + slice.1,
{
    assert(slices.push(slice).drop_last() =~= slices);
}

/// The sums over a window that is put together from two parts are those over the parts.
pub proof fn law_totals_add_up(first: Seq<(u64, u128)>, second: Seq<(u64, u128)>)
    ensures
        total_increment(first + second) == total_increment(first) + total_increment(second),
        total_time(first + second) == total_time(first) + total_time(second),
    decreases second.len(),
{
    if second.len() > 0 {
        assert((first + second).drop_last() =~= first + second.drop_last());
        law_totals_add_up(first, second.drop_last());
    } else {
        assert(first + second =~= first);
    }
}

/// The sums can be given exactly where they fit their types.
pub proof fn law_totals_fit(meter: MeterView)
    ensures
        meter.totals_fit() <==> total_increment(meter.time_slices) < 0x1_0000_0000_0000_0000 && total_time(
            meter.time_slices,
        ) < 0x1_0000_0000_0000_0000_0000_0000_0000_0000,
{
}

/// A slice is complete as soon as the shortest time has passed since it began. It then comes into
/// the window with all that came in and the whole time that passed, at most the oldest slice
/// leaves, and only where the window is full, and the next slice begins with nothing at once.
pub proof fn law_slices_follow_each_other(meter: MeterView, delta: u64, now: u128)
    requires
        meter.current_increment + delta <= u64::MAX,
        meter.last_instant <= now,
    ensures
        meter.has_room(delta),
        meter.slice_complete(now) <==> now - meter.last_instant >= meter.min_slice,
        ({
            let after = meter.added(delta, now);
            let slice = ((meter.current_increment + delta) as u64, (now - meter.last_instant) as u128);
            &&& after.min_slice == meter.min_slice
            &&& after.slice_window_size == meter.slice_window_size
            &&& now - meter.last_instant >= meter.min_slice ==> {
                &&& after.last_instant == now
                &&& after.current_increment == 0
                &&& meter.time_slices.len() < meter.slice_window_size ==> after.time_slices == meter.time_slices.push(
                    slice,
                )
                &&& meter.time_slices.len() >= meter.slice_window_size && meter.time_slices.len() > 0
                    ==> after.time_slices == meter.time_slices.skip(1).push(slice)
                &&& meter.time_slices.len() == 0 ==> after.time_slices == seq![slice]
            }
            &&& now - meter.last_instant < meter.min_slice ==> {
                &&& after.last_instant == meter.last_instant
                &&& after.current_increment == meter.current_increment + delta
                &&& after.time_slices == meter.time_slices
            }
        }),
{
    let slice = ((meter.current_increment + delta) as u64, (now - meter.last_instant) as u128);
    assert(meter.time_slices.skip(1) =~= meter.time_slices.drop_first() || meter.time_slices.len() == 0);
    if meter.time_slices.len() == 0 {
        assert(meter.time_slices.push(slice) =~= seq![slice]);
    }
}

/// A point in time before the current slice began counts as its beginning, so that no time has
/// passed.
pub proof fn law_time_does_not_run_back(meter: MeterView, delta: u64, now: u128)
    requires
        meter.current_increment + delta <= u64::MAX,
        now < meter.last_instant,
    ensures
        meter.has_room(delta),
        meter.slice_complete(now) <==> meter.min_slice == 0,
        meter.added(delta, now).current_increment == meter.added(delta, meter.last_instant).current_increment,
        meter.added(delta, now).time_slices == meter.added(delta, meter.last_instant).time_slices,
        meter.added(delta, now).slice_window_size == meter.slice_window_size,
        meter.added(delta, now).min_slice == meter.min_slice,
        meter.added(delta, now).last_instant == (if meter.min_slice == 0 {
            now
        } else {
            meter.last_instant
        }),
{
}

/// What a window shows of all slices are the last ones of them, as many as it holds, and one where
/// it holds none.
pub proof fn law_recent_slices_are_the_last(history: Seq<(u64, u128)>, window: nat)
    ensures
        history.len() <= window ==> recent(history, window) == history,
        0 < window < history.len() ==> recent(history, window) == history.subrange(
            history.len() - window,
            history.len() as int,
        ),
        window == 0 && history.len() > 0 ==> recent(history, window) == seq![history.last()],
{
    if 0 < window < history.len() {
        assert(recent(history, window) =~= history.subrange(history.len() - window, history.len() as int));
    }
    if window == 0 && history.len() > 0 {
        assert(recent(history, window) =~= seq![history.last()]);
    }
}

/// Measures how fast something comes in.
#[derive(Debug)]
pub struct SpeedMeter {
    last_instant: u128,
    current_increment: u64,
    time_slices: VecDeque<(u64, u128)>,
    slice_window_size: usize,
    min_slice: u128,
}

impl View for SpeedMeter {
    type V = MeterView;

    closed spec fn view(&self) -> MeterView {
        MeterView {
            last_instant: self.last_instant,
            current_increment: self.current_increment,
            time_slices: self.time_slices@,
            slice_window_size: self.slice_window_size,
            min_slice: self.min_slice,
        }
    }
}

impl SpeedMeter {
    /// A meter with an empty window, whose first slice begins at `now`.
    pub fn new(min_slice: u128, slice_window_size: usize, now: u128) -> (meter: SpeedMeter)
        ensures
            meter@.last_instant == now,
            meter@.current_increment == 0,
            meter@.time_slices == Seq::<(u64, u128)>::empty(),
            meter@.slice_window_size == slice_window_size,
            meter@.min_slice == min_slice,
    {
        SpeedMeter {
            last_instant: now,
            current_increment: 0,
            time_slices: VecDeque::new(),
            slice_window_size,
            min_slice,
        }
    }

    /// Whether `add` can count `delta`.
    pub fn has_room(&self, delta: u64) -> (room: bool)
        ensures
            room == self@.has_room(delta),
    {
        delta <= u64::MAX - self.current_increment
    }

    /// Counts `delta`, which came in at `now`. The result says whether a slice is complete now.
    pub fn add(&mut self, delta: u64, now: u128) -> (complete: bool)
        requires
            old(self)@.has_room(delta),
        ensures
            final(self)@ == old(self)@.added(delta, now),
            complete == old(self)@.slice_complete(now),
    {
        self.current_increment = self.current_increment + delta;
        let since_last: u128 = if self.last_instant <= now {
            now - self.last_instant
        } else {
            0
        };

        if since_last >= self.min_slice {
            // Where the window is full it has to slide.
            if self.time_slices.len() >= self.slice_window_size {
                self.time_slices.pop_front();
            }
            // A slice seldom takes exactly `min_slice`, so what it did take is kept.
            self.time_slices.push_back((self.current_increment, since_last));
            self.last_instant = now;
            self.current_increment = 0;
            true
        } else {
            false
        }
    }

    /// What came in during the slices of the window, and the time they took; nothing where one of
    /// the sums does not fit.
    pub fn totals(&self) -> (totals: Option<(u64, u128)>)
        ensures
            totals is Some <==> self@.totals_fit(),
            totals matches Some(sums) ==> {
                &&& sums.0 == total_increment(self@.time_slices)
                &&& sums.1 == total_time(self@.time_slices)
            },
    {
        let ghost slices = self.time_slices@;
        let mut sum_incr: u64 = 0;
        let mut sum_dur: u128 = 0;
        let mut i: usize = 0;
        while i < self.time_slices.len()
            invariant
                slices == self.time_slices@,
                i <= slices.len(),
                sum_incr == total_increment(slices.take(i as int)),
                sum_dur == total_time(slices.take(i as int)),
            decreases slices.len() - i,
        {
            let slice = self.time_slices[i];
            proof {
                assert(slices.take(i + 1).drop_last() =~= slices.take(i as int));
                lemma_totals_of_prefix(slices, i + 1);
            }
            if slice.0 > u64::MAX - sum_incr || slice.1 > u128::MAX - sum_dur {
                return None;
            }
            sum_incr = sum_incr + slice.0;
            sum_dur = sum_dur + slice.1;
            i += 1;
        }
        assert(slices.take(i as int) =~= slices);
        Some((sum_incr, sum_dur))
    }

    /// The average speed within the window, as what came in and the time in which it did.
    pub fn get_speed_per_sec(&self) -> (speed: (u64, u128))
        requires
            self@.totals_fit(),
        ensures
            speed.0 == total_increment(self@.time_slices),
            speed.1 == total_time(self@.time_slices),
    {
        match self.totals() {
            Some(speed) => speed,
            None => unreached(),
        }
    }
}

} // verus!
