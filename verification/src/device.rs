//! Devices: what the CPU notifies of every cycle that passes.

use vstd::prelude::*;

verus! {

/// Something that is notified once for every cycle that passes, with the
/// number of that cycle.
pub trait Device: Sized {
    /// The device as it is after a notification of cycle `cycle`.
    spec fn notified(self, cycle: u64) -> Self;

    /// Notifies the device of cycle `current_cycle`.
    fn tick(&mut self, current_cycle: u64)
        ensures
            *final(self) == old(self).notified(current_cycle),
    ;
}

/// The device after it has been notified of the `n` cycles that follow cycle
/// `start`, one by one and in order: `start + 1`, `start + 2`, up to
/// `start + n`.
pub open spec fn notified_through<D: Device>(d: D, start: u64, n: nat) -> D
    decreases n,
{
    if n == 0 {
        d
    } else {
        notified_through(d, start, (n - 1) as nat).notified((start + n) as u64)
    }
}

/// Notifying of `a + b` cycles is notifying of `a` cycles and then of `b`
/// more.
pub proof fn lemma_notified_through_split<D: Device>(d: D, start: u64, a: nat, b: nat)
    requires
        start + a + b <= u64::MAX,
    ensures
        notified_through(d, start, a + b) == notified_through(
            notified_through(d, start, a),
            (start + a) as u64,
            b,
        ),
    decreases b,
{
    if b > 0 {
        lemma_notified_through_split(d, start, a, (b - 1) as nat);
        assert(a + b - 1 == a + (b - 1) as nat);
    }
}

/// One notification: which device was notified, by its place in the order of
/// attachment, and of which cycle.
pub struct Notification {
    /// The place of the device in the order of attachment, from 0.
    pub device: int,
    /// The cycle that the device was notified of.
    pub cycle: u64,
}

/// The notifications of one cycle: every one of `count` devices once, in the
/// order of attachment.
pub open spec fn round(count: nat, cycle: u64) -> Seq<Notification> {
    Seq::new(count, |j: int| Notification { device: j, cycle })
}

/// The notifications of the `n` cycles that follow cycle `start`: cycle by
/// cycle, and within each cycle device by device in the order of attachment.
pub open spec fn rounds(count: nat, start: u64, n: nat) -> Seq<Notification>
    decreases n,
{
    if n == 0 {
        Seq::empty()
    } else {
        rounds(count, start, (n - 1) as nat) + round(count, (start + n) as u64)
    }
}

/// The notifications of `a + b` cycles are those of `a` cycles and then those
/// of `b` more.
pub proof fn lemma_rounds_split(count: nat, start: u64, a: nat, b: nat)
    requires
        start + a + b <= u64::MAX,
    ensures
        rounds(count, start, a + b) == rounds(count, start, a) + rounds(
            count,
            (start + a) as u64,
            b,
        ),
    decreases b,
{
    if b == 0 {
        assert(rounds(count, start, a) + Seq::<Notification>::empty() =~= rounds(count, start, a));
    } else {
        lemma_rounds_split(count, start, a, (b - 1) as nat);
        assert(a + b - 1 == a + (b - 1) as nat);
        assert(rounds(count, start, a + b) =~= rounds(count, start, a) + rounds(
            count,
            (start + a) as u64,
            b,
        ));
    }
}

/// What a timer holds.
pub struct TimerState {
    /// The cycles between two firings.
    pub period: u64,
    /// The cycle at which the timer fires next.
    pub next: u64,
    /// How often the timer has fired.
    pub fired: u64,
}

/// `n`, or the largest `u64` where `n` is larger.
pub open spec fn saturated(n: int) -> u64 {
    if n > u64::MAX {
        u64::MAX
    } else {
        n as u64
    }
}

impl TimerState {
    /// A timer of period `period` that has not fired: it fires first at
    /// cycle `period`.
    pub open spec fn fresh(period: u64) -> TimerState {
        TimerState { period, next: period, fired: 0 }
    }

    /// The timer after a notification of cycle `cycle`. It fires when the
    /// cycle has reached `next`, and then moves `next` on by one period. Both
    /// numbers stop at the largest `u64`.
    pub open spec fn ticked(self, cycle: u64) -> TimerState {
        if cycle >= self.next {
            TimerState {
                period: self.period,
                next: saturated(self.next + self.period),
                fired: saturated(self.fired + 1),
            }
        } else {
            self
        }
    }

    /// The timer after notifications of the `n` cycles that follow `start`.
    pub open spec fn ticked_through(self, start: u64, n: nat) -> TimerState
        decreases n,
    {
        if n == 0 {
            self
        } else {
            self.ticked_through(start, (n - 1) as nat).ticked((start + n) as u64)
        }
    }
}

/// A timer that fires every `period` cycles.
pub struct TimerDevice {
    period: u64,
    next: u64,
    fired: u64,
}

impl View for TimerDevice {
    type V = TimerState;

    closed spec fn view(&self) -> TimerState {
        TimerState { period: self.period, next: self.next, fired: self.fired }
    }
}

impl TimerDevice {
    /// A timer that fires every `period` cycles, first at cycle `period`.
    pub fn new(period: u64) -> (t: TimerDevice)
        ensures
            t@ == TimerState::fresh(period),
    {
        TimerDevice { period, next: period, fired: 0 }
    }

    /// The cycles between two firings.
    pub fn period(&self) -> (p: u64)
        ensures
            p == self@.period,
    {
        self.period
    }

    /// The cycle at which the timer fires next.
    pub fn next(&self) -> (n: u64)
        ensures
            n == self@.next,
    {
        self.next
    }

    /// How often the timer has fired.
    pub fn fired(&self) -> (n: u64)
        ensures
            n == self@.fired,
    {
        self.fired
    }

    /// A notified timer is a ticked timer.
    pub proof fn lemma_notified(self, cycle: u64)
        ensures
            self.notified(cycle)@ == self@.ticked(cycle),
    {
    }

    /// A timer notified of a run of cycles is a timer ticked through them.
    pub proof fn lemma_notified_through(self, start: u64, n: nat)
        ensures
            notified_through(self, start, n)@ == self@.ticked_through(start, n),
        decreases n,
    {
        if n > 0 {
            self.lemma_notified_through(start, (n - 1) as nat);
            notified_through(self, start, (n - 1) as nat).lemma_notified((start + n) as u64);
        }
    }
}

impl Device for TimerDevice {
    closed spec fn notified(self, cycle: u64) -> TimerDevice {
        if cycle >= self.next {
            TimerDevice {
                period: self.period,
                next: saturated(self.next + self.period),
                fired: saturated(self.fired + 1),
            }
        } else {
            self
        }
    }

    fn tick(&mut self, current_cycle: u64) {
        if current_cycle >= self.next {
            self.next = if self.next > u64::MAX - self.period {
                u64::MAX
            } else {
                self.next + self.period
            };
            if self.fired < u64::MAX {
                self.fired = self.fired + 1;
            }
        }
    }
}

/// A fresh timer of a period of at least 1, notified of every cycle from 1 to
/// `total`, has fired once for every full period in `total`, as long as the
/// next firing is a cycle that `u64` can hold.
pub proof fn lemma_timer_fires_every_period(period: u64, total: nat)
    requires
        period >= 1,
        total + period <= u64::MAX,
    ensures
        TimerState::fresh(period).ticked_through(0, total).fired == total / (period as nat),
        TimerState::fresh(period).ticked_through(0, total).next == (total / (period as nat) + 1)
            * period,
        TimerState::fresh(period).ticked_through(0, total).period == period,
    decreases total,
{
    let p = period as int;
    if total == 0 {
        assert(0int / p == 0) by (nonlinear_arith)
            requires
                p >= 1,
        ;
        assert((0 + 1) * p == p) by (nonlinear_arith);
    } else {
        let t = total as int;
        lemma_timer_fires_every_period(period, (total - 1) as nat);
        let q = (t - 1) / p;
        assert(q * p <= t - 1 < (q + 1) * p && q >= 0) by (nonlinear_arith)
            requires
                q == (t - 1) / p,
                p >= 1,
                t >= 1,
        ;
        if t >= (q + 1) * p {
            assert(t == (q + 1) * p);
            assert(t / p == q + 1) by (nonlinear_arith)
                requires
                    t == (q + 1) * p,
                    p >= 1,
            ;
            assert((q + 1) * p + p == (q + 1 + 1) * p) by (nonlinear_arith);
            assert(q + 1 <= t) by (nonlinear_arith)
                requires
                    t == (q + 1) * p,
                    p >= 1,
                    q >= 0,
            ;
        } else {
            assert(t / p == q) by (nonlinear_arith)
                requires
                    q * p <= t < (q + 1) * p,
                    p >= 1,
            ;
        }
    }
}

/// A fresh timer of period 5, notified of every cycle from 1 to a total
/// between 5 and 9, has fired exactly once.
pub proof fn lemma_timer_of_five_fires_once(total: nat)
    requires
        5 <= total <= 9,
    ensures
        TimerState::fresh(5).ticked_through(0, total).fired == 1,
{
    lemma_timer_fires_every_period(5, total);
}

} // verus!
