//! Deferred-ratio speed scheduling. Tape is recorded at the host rate, so the
//! rate at which it must be played back is the ratio of the speed now to the
//! speed in effect when the stretch under the playback cursor was recorded.
//! Each change of speed is queued with the tape position at which playback
//! reaches the tape recorded under it, and retired once that position passes.
//!
//! Speeds are fixed-point numbers with eight fractional bits. Tape positions
//! count speed units times samples and wrap around at `2^32`; a position is
//! reached once the position now lies less than `2^31` units past it.
use crate::tape::{bumped, ring_view, wrap};
use vstd::arithmetic::div_mod::{lemma_add_mod_noop_right, lemma_fundamental_div_mod, lemma_mod_bound};
use vstd::prelude::*;

verus! {

/// A change of tape speed, to take effect on the playback side once the tape
/// position reaches `timestamp`.
#[derive(Clone, Copy, Debug, PartialEq, Eq, Structural)]
pub struct SpeedChange {
    pub timestamp: u32,
    pub speed: u32,
}

impl Default for SpeedChange {
    fn default() -> (r: Self)
        ensures
            r.timestamp == 0,
            r.speed == 0,
    {
        SpeedChange { timestamp: 0, speed: 0 }
    }
}

/// A bounded first-in first-out ring of speed changes.
pub struct SpeedChangeQueue {
    changes: Vec<SpeedChange>,
    read_pos: usize,
    len: usize,
}

impl View for SpeedChangeQueue {
    type V = Seq<SpeedChange>;

    /// The queued changes, oldest first.
    closed spec fn view(&self) -> Seq<SpeedChange> {
        ring_view(self.changes@, self.read_pos as int, self.len as int)
    }
}

/// The queue `q`, with room for `cap` changes, after `c` is offered to it: a
/// full queue turns the change away.
pub open spec fn enqueued(q: Seq<SpeedChange>, cap: nat, c: SpeedChange) -> Seq<SpeedChange> {
    if q.len() < cap {
        q.push(c)
    } else {
        q
    }
}

impl SpeedChangeQueue {
    /// The cursor lies in the ring and the queue fits it.
    pub closed spec fn wf(&self) -> bool {
        &&& self.len <= self.changes@.len()
        &&& self.changes@.len() == 0 ==> self.read_pos == 0
        &&& self.changes@.len() > 0 ==> self.read_pos < self.changes@.len()
    }

    /// How many changes the queue can hold.
    pub closed spec fn cap(&self) -> nat {
        self.changes@.len()
    }

    /// An empty queue with room for `capacity` changes.
    pub fn new(capacity: usize) -> (r: Self)
        ensures
            r.wf(),
            r@ == Seq::<SpeedChange>::empty(),
            r.cap() == capacity,
    {
        let mut changes: Vec<SpeedChange> = Vec::with_capacity(capacity);
        while changes.len() < capacity
            invariant
                changes@.len() <= capacity,
            decreases capacity - changes@.len(),
        {
            changes.push(SpeedChange::default());
        }
        let r = SpeedChangeQueue { changes, read_pos: 0, len: 0 };
        assert(r@ =~= Seq::<SpeedChange>::empty());
        r
    }

    /// Number of queued changes.
    pub fn len(&self) -> (r: usize)
        requires
            self.wf(),
        ensures
            r == self@.len(),
    {
        self.len
    }

    /// Appends `c` unless the queue is full; the result says whether it was
    /// taken.
    pub fn push(&mut self, c: SpeedChange) -> (taken: bool)
        requires
            old(self).wf(),
        ensures
            final(self).wf(),
            final(self).cap() == old(self).cap(),
            taken == (old(self)@.len() < old(self).cap()),
            final(self)@ == enqueued(old(self)@, old(self).cap(), c),
    {
        let cap = self.changes.len();
        if self.len >= cap {
            return false;
        }
        let ghost q = self@;
        let slot: usize = if self.len < cap - self.read_pos {
            self.read_pos + self.len
        } else {
            self.len - (cap - self.read_pos)
        };
        assert(slot == wrap(self.read_pos + self.len, cap as int));
        self.changes[slot] = c;
        self.len = self.len + 1;
        assert forall|i: int| 0 <= i < q.len() implies #[trigger] self@[i] == q[i] by {
            assert(wrap(self.read_pos + i, cap as int) != slot);
        }
        assert(self@ =~= q.push(c));
        true
    }

    /// The oldest queued change, if any.
    pub fn front(&self) -> (r: Option<SpeedChange>)
        requires
            self.wf(),
        ensures
            r == if self@.len() > 0 {
                Some(self@[0])
            } else {
                None::<SpeedChange>
            },
    {
        if self.len == 0 {
            None
        } else {
            Some(self.changes[self.read_pos])
        }
    }

    /// Drops the oldest queued change.
    pub fn pop(&mut self)
        requires
            old(self).wf(),
            old(self)@.len() > 0,
        ensures
            final(self).wf(),
            final(self).cap() == old(self).cap(),
            final(self)@ == old(self)@.skip(1),
    {
        let ghost q = self@;
        let cap = self.changes.len();
        self.read_pos = if self.read_pos + 1 < cap {
            self.read_pos + 1
        } else {
            0
        };
        self.len = self.len - 1;
        assert(self@ =~= q.skip(1));
    }

    /// Drops every queued change.
    pub fn clear(&mut self)
        requires
            old(self).wf(),
        ensures
            final(self).wf(),
            final(self).cap() == old(self).cap(),
            final(self)@ == Seq::<SpeedChange>::empty(),
    {
        self.read_pos = 0;
        self.len = 0;
        assert(self@ =~= Seq::<SpeedChange>::empty());
    }
}

/// Units by which tape position `now` lies past position `ts`, modulo `2^32`.
pub open spec fn tape_gap(now: u32, ts: u32) -> int {
    if now >= ts {
        now - ts
    } else {
        now - ts + 0x1_0000_0000
    }
}

/// Whether tape position `now` has reached position `ts`.
pub open spec fn is_due(now: u32, ts: u32) -> bool {
    tape_gap(now, ts) < 0x8000_0000
}

/// How many changes at the front of `q` have come due at position `now`.
pub open spec fn due_run(q: Seq<SpeedChange>, now: u32) -> nat
    decreases q.len(),
{
    if q.len() == 0 {
        0
    } else if is_due(now, q[0].timestamp) {
        1 + due_run(q.skip(1), now)
    } else {
        0
    }
}

/// No more changes come due than are queued.
pub proof fn lemma_due_run_len(q: Seq<SpeedChange>, now: u32)
    ensures
        due_run(q, now) <= q.len(),
    decreases q.len(),
{
    if q.len() > 0 {
        lemma_due_run_len(q.skip(1), now);
    }
}

/// The changes that `due_run` counts have come due, and the one after them
/// has not.
pub proof fn lemma_due_run_bounds(q: Seq<SpeedChange>, now: u32)
    ensures
        due_run(q, now) <= q.len(),
        forall|i: int| 0 <= i < due_run(q, now) ==> is_due(now, #[trigger] q[i].timestamp),
        due_run(q, now) < q.len() ==> !is_due(now, q[due_run(q, now) as int].timestamp),
    decreases q.len(),
{
    if q.len() > 0 && is_due(now, q[0].timestamp) {
        let rest = q.skip(1);
        lemma_due_run_bounds(rest, now);
        assert forall|i: int| 0 <= i < due_run(q, now) implies is_due(
            now,
            #[trigger] q[i].timestamp,
        ) by {
            if i > 0 {
                assert(q[i] == rest[i - 1]);
            }
        }
        if due_run(q, now) < q.len() {
            assert(q[due_run(q, now) as int] == rest[due_run(rest, now) as int]);
        }
    }
}

/// An unbounded tape position as the scheduler's wrapping position.
pub open spec fn wrapped(p: int) -> u32 {
    (p % 0x1_0000_0000) as u32
}

/// Moving a wrapped position on agrees with moving the unbounded one.
pub proof fn lemma_wrapped_after(p: int, units: nat)
    requires
        p >= 0,
    ensures
        tape_after(wrapped(p), units) == wrapped(p + units),
{
    lemma_mod_bound(p, 0x1_0000_0000);
    lemma_add_mod_noop_right(units as int, p, 0x1_0000_0000);
}

/// Where two unbounded positions lie less than `2^31` units apart, the
/// wrapped comparison tells whether one has been reached.
pub proof fn lemma_due_iff_reached(now: int, at: int)
    requires
        now >= 0,
        at >= 0,
        -0x8000_0000 <= now - at < 0x8000_0000,
    ensures
        is_due(wrapped(now), wrapped(at)) == (at <= now),
{
    lemma_fundamental_div_mod(now, 0x1_0000_0000);
    lemma_fundamental_div_mod(at, 0x1_0000_0000);
    lemma_mod_bound(now, 0x1_0000_0000);
    lemma_mod_bound(at, 0x1_0000_0000);
}

/// Consecutive positions of `ps` lie at least `g` apart.
pub open spec fn spaced(ps: Seq<int>, g: int) -> bool {
    forall|i: int| 0 <= i && i + 1 < ps.len() ==> #[trigger] ps[i + 1] - ps[i] >= g
}

proof fn lemma_spread(ps: Seq<int>, g: int, j: int)
    requires
        spaced(ps, g),
        0 <= j < ps.len(),
    ensures
        ps[j] - ps[0] >= j * g,
    decreases j,
{
    if j > 0 {
        lemma_spread(ps, g, j - 1);
        assert(ps[(j - 1) + 1] - ps[j - 1] >= g);
        assert(j * g == (j - 1) * g + g) by (nonlinear_arith);
    } else {
        assert(j * g == 0) by (nonlinear_arith)
            requires
                j == 0,
        ;
    }
}

/// Positions spaced by a non-negative gap never go back.
pub proof fn lemma_spaced_ordered(ps: Seq<int>, g: int, i: int, j: int)
    requires
        spaced(ps, g),
        g >= 0,
        0 <= i <= j < ps.len(),
    ensures
        ps[i] <= ps[j],
    decreases j - i,
{
    if i < j {
        lemma_spaced_ordered(ps, g, i, j - 1);
        assert(ps[(j - 1) + 1] - ps[j - 1] >= g);
    }
}

/// Positions at least `g` apart within a window of `span` units number at
/// most `span / g + 1`.
pub proof fn lemma_spaced_count(ps: Seq<int>, hi: int, span: int, g: int)
    requires
        g > 0,
        span > 0,
        spaced(ps, g),
        forall|i: int| 0 <= i < ps.len() ==> hi - span < #[trigger] ps[i] <= hi,
    ensures
        ps.len() <= span / g + 1,
{
    if ps.len() > 1 {
        let n = ps.len() - 1;
        lemma_spread(ps, g, n);
        assert(n * g < span);
        lemma_fundamental_div_mod(span, g);
        lemma_mod_bound(span, g);
        if n > span / g {
            assert(n * g >= (span / g + 1) * g) by (nonlinear_arith)
                requires
                    n >= span / g + 1,
                    g > 0,
            ;
            assert((span / g + 1) * g == g * (span / g) + g) by (nonlinear_arith);
        }
    }
}

/// Tape position `now` plus `units`, modulo `2^32`.
pub open spec fn tape_after(now: u32, units: nat) -> u32 {
    ((now + units) % 0x1_0000_0000) as u32
}

/// The change queued when the speed becomes `speed` at position `now`: it is
/// due once the playback side has crossed `span` units of tape.
pub open spec fn change_at(now: u32, span: u32, speed: u32) -> SpeedChange {
    SpeedChange { timestamp: tape_after(now, span as nat), speed }
}

/// The queue after a request for speed `speed` at position `now`: a new speed
/// is offered to it.
pub open spec fn queued_for(
    q: Seq<SpeedChange>,
    cap: nat,
    current: u32,
    now: u32,
    span: u32,
    speed: u32,
) -> Seq<SpeedChange> {
    if speed != current {
        enqueued(q, cap, change_at(now, span, speed))
    } else {
        q
    }
}

/// The recorded speed after the first `k` changes of `q` are retired.
pub open spec fn retired_speed(q: Seq<SpeedChange>, k: nat, recorded: u32) -> u32 {
    if k > 0 {
        q[k - 1].speed
    } else {
        recorded
    }
}

/// The queue of `s` after it is asked for speed `speed`.
pub open spec fn speed_queue(s: SpeedScheduler, speed: u32) -> Seq<SpeedChange> {
    queued_for(s.pending(), s.queue_cap(), s.current(), s.position(), s.span(), speed)
}

/// How many changes of that queue are retired right away.
pub open spec fn retired_now(s: SpeedScheduler, speed: u32) -> nat {
    due_run(speed_queue(s, speed), s.position())
}

/// A scheduler asked for the speed it already runs at, with nothing pending,
/// queues nothing and retires nothing: its play ratio stays as it was.
pub proof fn lemma_held_speed_keeps_ratio(s: SpeedScheduler, speed: u32)
    requires
        s.current() == speed,
        s.pending().len() == 0,
    ensures
        speed_queue(s, speed).len() == 0,
        retired_now(s, speed) == 0,
        retired_speed(speed_queue(s, speed), retired_now(s, speed), s.recorded()) == s.recorded(),
{
}

/// Tracks the speed now and the speed at which the tape under the playback
/// cursor was recorded, with the changes between the two in a queue.
pub struct SpeedScheduler {
    current_speed: u32,
    recorded_speed: u32,
    now: u32,
    span: u32,
    changes: SpeedChangeQueue,
    dropped: u64,
}

impl SpeedScheduler {
    pub closed spec fn wf(&self) -> bool {
        &&& self.changes.wf()
        &&& self.span < 0x8000_0000
    }

    /// The speed now.
    pub closed spec fn current(&self) -> u32 {
        self.current_speed
    }

    /// The speed at which the tape under the playback cursor was recorded.
    pub closed spec fn recorded(&self) -> u32 {
        self.recorded_speed
    }

    /// The tape position now.
    pub closed spec fn position(&self) -> u32 {
        self.now
    }

    /// Units of tape between the record and the playback cursor.
    pub closed spec fn span(&self) -> u32 {
        self.span
    }

    /// Changes not yet retired, oldest first.
    pub closed spec fn pending(&self) -> Seq<SpeedChange> {
        self.changes@
    }

    /// How many changes can be pending.
    pub closed spec fn queue_cap(&self) -> nat {
        self.changes.cap()
    }

    /// Changes turned away by a full queue.
    pub closed spec fn dropped_changes(&self) -> u64 {
        self.dropped
    }

    /// A scheduler at speed `speed` at position zero, with `span` units of
    /// tape between the cursors and room for `capacity` pending changes.
    pub fn new(speed: u32, span: u32, capacity: usize) -> (r: Self)
        requires
            span < 0x8000_0000,
        ensures
            r.wf(),
            r.current() == speed,
            r.recorded() == speed,
            r.position() == 0,
            r.span() == span,
            r.pending() == Seq::<SpeedChange>::empty(),
            r.queue_cap() == capacity,
            r.dropped_changes() == 0,
    {
        SpeedScheduler {
            current_speed: speed,
            recorded_speed: speed,
            now: 0,
            span,
            changes: SpeedChangeQueue::new(capacity),
            dropped: 0,
        }
    }

    /// The speed now.
    pub fn current_speed(&self) -> (r: u32)
        ensures
            r == self.current(),
    {
        self.current_speed
    }

    /// The speed at which the tape being played was recorded.
    pub fn recorded_speed(&self) -> (r: u32)
        ensures
            r == self.recorded(),
    {
        self.recorded_speed
    }

    /// The tape position now.
    pub fn timestamp(&self) -> (r: u32)
        ensures
            r == self.position(),
    {
        self.now
    }

    /// Changes turned away by a full queue so far.
    pub fn dropped(&self) -> (r: u64)
        ensures
            r == self.dropped_changes(),
    {
        self.dropped
    }

    /// Number of pending changes.
    pub fn pending_len(&self) -> (r: usize)
        requires
            self.wf(),
        ensures
            r == self.pending().len(),
    {
        self.changes.len()
    }

    /// Takes the speed for the next stretch of audio. A new speed becomes the
    /// speed now and is queued to reach the playback side one span of tape
    /// later; then every queued change that has come due is retired, the last
    /// of them giving the recorded speed. The result says whether the play
    /// ratio, speed now over recorded speed, may have changed.
    pub fn update(&mut self, speed: u32) -> (changed: bool)
        requires
            old(self).wf(),
        ensures
            final(self).wf(),
            final(self).pending() == speed_queue(*old(self), speed).skip(
                retired_now(*old(self), speed) as int,
            ),
            final(self).recorded() == retired_speed(
                speed_queue(*old(self), speed),
                retired_now(*old(self), speed),
                old(self).recorded(),
            ),
            changed == (speed != old(self).current() || retired_now(*old(self), speed) > 0),
            final(self).current() == speed,
            final(self).position() == old(self).position(),
            final(self).span() == old(self).span(),
            final(self).queue_cap() == old(self).queue_cap(),
            final(self).dropped_changes() == if speed != old(self).current()
                && old(self).pending().len() >= old(self).queue_cap() {
                bumped(old(self).dropped_changes())
            } else {
                old(self).dropped_changes()
            },
    {
        let mut changed = false;
        if speed != self.current_speed {
            let change = SpeedChange { timestamp: self.now.wrapping_add(self.span), speed };
            assert(change == change_at(self.now, self.span, speed));
            let taken = self.changes.push(change);
            if !taken && self.dropped < u64::MAX {
                self.dropped = self.dropped + 1;
            }
            self.current_speed = speed;
            changed = true;
        }
        let ghost q = self.changes@;
        assert(q == queued_for(
            old(self).changes@,
            old(self).changes.cap(),
            old(self).current_speed,
            old(self).now,
            old(self).span,
            speed,
        ));
        let ghost start_recorded = self.recorded_speed;
        let ghost k: nat = 0;
        loop
            invariant
                self.wf(),
                self.now == old(self).now,
                self.span == old(self).span,
                self.current_speed == speed,
                self.dropped == if speed != old(self).current_speed && old(self).changes@.len()
                    >= old(self).changes.cap() {
                    bumped(old(self).dropped)
                } else {
                    old(self).dropped
                },
                self.changes.cap() == old(self).changes.cap(),
                k <= q.len(),
                self.changes@ == q.skip(k as int),
                due_run(q, self.now) == k + due_run(self.changes@, self.now),
                self.recorded_speed == retired_speed(q, k, start_recorded),
                changed == (speed != old(self).current_speed || k > 0),
            ensures
                due_run(self.changes@, self.now) == 0,
            decreases self.changes@.len(),
        {
            match self.changes.front() {
                Some(c) => {
                    if self.now.wrapping_sub(c.timestamp) < 0x8000_0000 {
                        proof {
                            assert(self.changes@.skip(1) =~= q.skip((k + 1) as int));
                        }
                        self.recorded_speed = c.speed;
                        self.changes.pop();
                        changed = true;
                        proof {
                            k = k + 1;
                        }
                    } else {
                        assert(due_run(self.changes@, self.now) == 0);
                        break;
                    }
                },
                None => {
                    assert(due_run(self.changes@, self.now) == 0);
                    break;
                },
            }
        }
        changed
    }

    /// Moves the tape on by `len` samples at the speed now.
    pub fn advance(&mut self, len: usize)
        requires
            old(self).wf(),
            len <= u32::MAX,
        ensures
            final(self).wf(),
            final(self).position() == tape_after(
                old(self).position(),
                old(self).current() as nat * len as nat,
            ),
            final(self).current() == old(self).current(),
            final(self).recorded() == old(self).recorded(),
            final(self).span() == old(self).span(),
            final(self).pending() == old(self).pending(),
            final(self).queue_cap() == old(self).queue_cap(),
            final(self).dropped_changes() == old(self).dropped_changes(),
    {
        let l = len as u64;
        let v = self.current_speed as u64;
        assert(v * l <= 0xffff_fffe_0000_0001) by (nonlinear_arith)
            requires
                l <= 0xffff_ffff,
                v <= 0xffff_ffff,
        ;
        let total: u64 = self.now as u64 + v * l;
        self.now = (total % 0x1_0000_0000) as u32;
    }

    /// Starts over at speed `speed` at position zero with nothing pending.
    pub fn reset(&mut self, speed: u32)
        requires
            old(self).wf(),
        ensures
            final(self).wf(),
            final(self).current() == speed,
            final(self).recorded() == speed,
            final(self).position() == 0,
            final(self).span() == old(self).span(),
            final(self).pending() == Seq::<SpeedChange>::empty(),
            final(self).queue_cap() == old(self).queue_cap(),
            final(self).dropped_changes() == old(self).dropped_changes(),
    {
        self.current_speed = speed;
        self.recorded_speed = speed;
        self.now = 0;
        self.changes.clear();
    }
}

} // verus!
