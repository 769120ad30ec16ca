//! The tape: a fixed-capacity circular store of audio history with a record
//! cursor and a playback cursor.
use vstd::prelude::*;

verus! {

/// Slot of a ring with `cap` slots reached by `a`, for `0 <= a < 2 * cap`.
pub open spec fn wrap(a: int, cap: int) -> int {
    if a < cap {
        a
    } else {
        a - cap
    }
}

/// What the tape holds after `s` is recorded behind the unread samples `q` on a
/// tape with room for `cap` samples: the newest `cap` samples win.
pub open spec fn recorded<T>(q: Seq<T>, s: Seq<T>, cap: nat) -> Seq<T> {
    let all = q + s;
    if all.len() <= cap {
        all
    } else {
        all.subrange(all.len() - cap, all.len() as int)
    }
}

/// How many of `count` requested samples a tape holding `avail` unread samples
/// can serve.
pub open spec fn served(avail: nat, count: nat) -> nat {
    if count <= avail {
        count
    } else {
        avail
    }
}

/// What a request for `count` samples hands back from the unread samples `q`:
/// the oldest ones it holds, then `fill` for each sample that it lacks.
pub open spec fn played<T>(q: Seq<T>, count: nat, fill: T) -> Seq<T> {
    let k = served(q.len(), count);
    q.take(k as int) + Seq::new((count - k) as nat, |_i: int| fill)
}

/// A diagnostic counter raised once, stopping at its largest value.
pub open spec fn bumped(c: u64) -> u64 {
    if c < u64::MAX {
        (c + 1) as u64
    } else {
        c
    }
}

/// The tape after each step of `steps` in turn records its samples and then
/// plays as many samples as its count asks for, starting from the unread
/// samples `q` on a tape with room for `cap` samples.
pub open spec fn run_tape<T>(q: Seq<T>, steps: Seq<(Seq<T>, nat)>, cap: nat) -> Seq<T>
    decreases steps.len(),
{
    if steps.len() == 0 {
        q
    } else {
        let before = run_tape(q, steps.drop_last(), cap);
        let after = recorded(before, steps.last().0, cap);
        after.skip(served(after.len(), steps.last().1) as int)
    }
}

/// Everything that the steps of `run_tape` play, in order, padded with `fill`.
pub open spec fn run_played<T>(q: Seq<T>, steps: Seq<(Seq<T>, nat)>, cap: nat, fill: T) -> Seq<
    T,
>
    decreases steps.len(),
{
    if steps.len() == 0 {
        Seq::empty()
    } else {
        let before = run_tape(q, steps.drop_last(), cap);
        let after = recorded(before, steps.last().0, cap);
        run_played(q, steps.drop_last(), cap, fill) + played(after, steps.last().1, fill)
    }
}

/// No step of `run_tape` overwrites an unread sample or asks for more than the
/// tape holds.
pub open spec fn run_clean<T>(q: Seq<T>, steps: Seq<(Seq<T>, nat)>, cap: nat) -> bool
    decreases steps.len(),
{
    if steps.len() == 0 {
        true
    } else {
        let before = run_tape(q, steps.drop_last(), cap);
        &&& run_clean(q, steps.drop_last(), cap)
        &&& before.len() + steps.last().0.len() <= cap
        &&& steps.last().1 <= before.len() + steps.last().0.len()
    }
}

/// Everything that the steps record, in order.
pub open spec fn run_recorded<T>(steps: Seq<(Seq<T>, nat)>) -> Seq<T>
    decreases steps.len(),
{
    if steps.len() == 0 {
        Seq::empty()
    } else {
        run_recorded(steps.drop_last()) + steps.last().0
    }
}

/// First in, first out: where no recording overflows the tape and no request
/// starves, what is played, followed by what is still unread, is exactly what
/// the tape held followed by everything recorded, in order and across every
/// wrap of the cursors.
pub proof fn lemma_tape_is_fifo<T>(q: Seq<T>, steps: Seq<(Seq<T>, nat)>, cap: nat, fill: T)
    requires
        run_clean(q, steps, cap),
    ensures
        run_played(q, steps, cap, fill) + run_tape(q, steps, cap) == q + run_recorded(steps),
    decreases steps.len(),
{
    if steps.len() > 0 {
        let rest = steps.drop_last();
        lemma_tape_is_fifo(q, rest, cap, fill);
        let before = run_tape(q, rest, cap);
        let s = steps.last().0;
        let k = steps.last().1;
        let after = recorded(before, s, cap);
        assert(after == before + s);
        assert(played(after, k, fill) =~= after.take(k as int));
        assert(after.take(k as int) + after.skip(k as int) =~= after);
        assert(run_played(q, steps, cap, fill) + run_tape(q, steps, cap) =~= run_played(
            q,
            rest,
            cap,
            fill,
        ) + after);
        assert(q + run_recorded(steps) =~= (q + run_recorded(rest)) + s);
    }
}

/// The steps that record each block of `blocks` and then play as many samples
/// as it holds.
pub open spec fn block_steps<T>(blocks: Seq<Seq<T>>) -> Seq<(Seq<T>, nat)> {
    Seq::new(blocks.len(), |i: int| (blocks[i], blocks[i].len()))
}

/// A tape that plays each block's length right after recording the block is a
/// pure delay: where the samples already on it and any one block fit, what it
/// plays is what it held followed by the blocks, cut to the blocks' length, so
/// every recorded sample comes out `q.len()` samples later.
pub proof fn lemma_equal_rates_delay<T>(q: Seq<T>, blocks: Seq<Seq<T>>, cap: nat, fill: T)
    requires
        forall|i: int| 0 <= i < blocks.len() ==> q.len() + #[trigger] blocks[i].len() <= cap,
    ensures
        run_clean(q, block_steps(blocks), cap),
        run_tape(q, block_steps(blocks), cap).len() == q.len(),
        run_played(q, block_steps(blocks), cap, fill) == (q + run_recorded(
            block_steps(blocks),
        )).take(run_recorded(block_steps(blocks)).len() as int),
    decreases blocks.len(),
{
    let steps = block_steps(blocks);
    if blocks.len() > 0 {
        let rest = blocks.drop_last();
        lemma_equal_rates_delay(q, rest, cap, fill);
        assert(steps.drop_last() =~= block_steps(rest));
        assert(blocks.last() == blocks[blocks.len() - 1]);
    }
    lemma_played_len(q, steps, cap, fill);
    lemma_tape_is_fifo(q, steps, cap, fill);
    let p = run_played(q, steps, cap, fill);
    let all = q + run_recorded(steps);
    assert(p == (p + run_tape(q, steps, cap)).take(p.len() as int));
}

/// What the steps play is as long as what they ask for; under equal record and
/// play counts that is the length of what they record.
proof fn lemma_played_len<T>(q: Seq<T>, steps: Seq<(Seq<T>, nat)>, cap: nat, fill: T)
    requires
        forall|i: int| 0 <= i < steps.len() ==> #[trigger] steps[i].1 == steps[i].0.len(),
    ensures
        run_played(q, steps, cap, fill).len() == run_recorded(steps).len(),
    decreases steps.len(),
{
    if steps.len() > 0 {
        lemma_played_len(q, steps.drop_last(), cap, fill);
        assert(steps.last() == steps[steps.len() - 1]);
    }
}

/// A circular tape of samples. Recording past the unread region overwrites the
/// oldest unread samples; playing past it pads with silence. Both events are
/// counted.
pub struct DelayLine<T> {
    buffer: Vec<T>,
    read_pos: usize,
    write_pos: usize,
    unread: usize,
    silence: T,
    starving: bool,
    underruns: u64,
    overflows: u64,
}

/// The `u` samples of the ring `buf` that start at slot `rp`.
pub open spec fn ring_view<T>(buf: Seq<T>, rp: int, u: int) -> Seq<T> {
    Seq::new(u as nat, |i: int| buf[wrap(rp + i, buf.len() as int)])
}

impl<T> View for DelayLine<T> {
    type V = Seq<T>;

    /// The unread samples, oldest first.
    closed spec fn view(&self) -> Seq<T> {
        ring_view(self.buffer@, self.read_pos as int, self.unread as int)
    }
}

/// Two contiguous runs, one up to the end of the ring and one from its start,
/// write the `m` samples of `s` after `skip` at the slots that follow `wp`.
proof fn lemma_runs_by_offset<T>(
    old_buf: Seq<T>,
    new_buf: Seq<T>,
    s: Seq<T>,
    skip: int,
    wp: int,
    m: int,
    first: int,
)
    requires
        new_buf.len() == old_buf.len(),
        0 <= wp < old_buf.len(),
        0 <= m <= old_buf.len(),
        0 <= skip,
        skip + m == s.len(),
        first == if m < old_buf.len() - wp { m } else { old_buf.len() - wp },
        forall|p: int|
            0 <= p < old_buf.len() ==> #[trigger] new_buf[p] == if wp <= p < wp + first {
                s[skip + p - wp]
            } else if p < m - first {
                s[skip + first + p]
            } else {
                old_buf[p]
            },
    ensures
        forall|o: int|
            0 <= o < old_buf.len() ==> #[trigger] new_buf[wrap(wp + o, old_buf.len() as int)] == if o
                < m {
                s[skip + o]
            } else {
                old_buf[wrap(wp + o, old_buf.len() as int)]
            },
{
    let cap = old_buf.len() as int;
    assert forall|o: int| 0 <= o < cap implies #[trigger] new_buf[wrap(wp + o, cap)] == if o < m {
        s[skip + o]
    } else {
        old_buf[wrap(wp + o, cap)]
    } by {
        let p = wrap(wp + o, cap);
        assert(new_buf[p] == if wp <= p < wp + first {
            s[skip + p - wp]
        } else if p < m - first {
            s[skip + first + p]
        } else {
            old_buf[p]
        });
    }
}

/// The ring after a recording, read from its new playback cursor, holds what
/// `recorded` says.
proof fn lemma_record_view<T>(
    old_buf: Seq<T>,
    new_buf: Seq<T>,
    s: Seq<T>,
    skip: int,
    rp: int,
    u: int,
    m: int,
)
    requires
        new_buf.len() == old_buf.len(),
        0 <= rp < old_buf.len(),
        0 <= u <= old_buf.len(),
        skip == if s.len() > old_buf.len() { s.len() - old_buf.len() } else { 0 },
        m == s.len() - skip,
        forall|o: int|
            0 <= o < old_buf.len() ==> #[trigger] new_buf[wrap(
                wrap(rp + u, old_buf.len() as int) + o,
                old_buf.len() as int,
            )] == if o < m {
                s[skip + o]
            } else {
                old_buf[wrap(wrap(rp + u, old_buf.len() as int) + o, old_buf.len() as int)]
            },
    ensures
        ({
            let cap = old_buf.len() as int;
            let wp = wrap(rp + u, cap);
            let nwp = if m < cap - wp { wp + m } else { m - (cap - wp) };
            if m > cap - u {
                ring_view(new_buf, nwp, cap)
            } else {
                ring_view(new_buf, rp, u + m)
            }
        }) == recorded(ring_view(old_buf, rp, u), s, old_buf.len()),
{
    let cap = old_buf.len() as int;
    let wp = wrap(rp + u, cap);
    let nwp = if m < cap - wp { wp + m } else { m - (cap - wp) };
    let q = ring_view(old_buf, rp, u);
    let target = recorded(q, s, cap as nat);
    if m > cap - u {
        let v = ring_view(new_buf, nwp, cap);
        assert forall|i: int| 0 <= i < cap implies v[i] == target[i] by {
            if m + i < cap {
                let o = m + i;
                assert(new_buf[wrap(wp + o, cap)] == old_buf[wrap(wp + o, cap)]);
                assert(wrap(nwp + i, cap) == wrap(wp + o, cap));
                let j = u + m + i - cap;
                assert(wrap(wp + o, cap) == wrap(rp + j, cap));
                assert(q[j] == old_buf[wrap(rp + j, cap)]);
            } else {
                let o = m + i - cap;
                assert(new_buf[wrap(wp + o, cap)] == s[skip + o]);
                assert(wrap(nwp + i, cap) == wrap(wp + o, cap));
            }
        }
        assert(v =~= target);
    } else {
        let v = ring_view(new_buf, rp, u + m);
        assert forall|i: int| 0 <= i < u + m implies v[i] == target[i] by {
            if i < u {
                let o = i + cap - u;
                assert(new_buf[wrap(wp + o, cap)] == old_buf[wrap(wp + o, cap)]);
                assert(wrap(rp + i, cap) == wrap(wp + o, cap));
            } else {
                let o = i - u;
                assert(new_buf[wrap(wp + o, cap)] == s[skip + o]);
                assert(wrap(rp + i, cap) == wrap(wp + o, cap));
            }
        }
        assert(v =~= target);
    }
}

impl<T: Copy> DelayLine<T> {
    /// The cursors lie on the tape, and the unread region runs from the
    /// playback cursor to the record cursor.
    pub closed spec fn wf(&self) -> bool {
        let cap = self.buffer@.len();
        &&& self.unread <= cap
        &&& cap == 0 ==> self.read_pos == 0 && self.write_pos == 0
        &&& cap > 0 ==> self.read_pos < cap && self.write_pos < cap
        &&& cap > 0 ==> self.write_pos == wrap(self.read_pos + self.unread, cap as int)
    }

    /// How many samples the tape holds.
    pub closed spec fn cap(&self) -> nat {
        self.buffer@.len()
    }

    /// The value that pads a starved request.
    pub closed spec fn fill(&self) -> T {
        self.silence
    }

    /// Whether the last request was starved.
    pub closed spec fn in_underrun(&self) -> bool {
        self.starving
    }

    /// Number of underrun episodes: runs of starved requests.
    pub closed spec fn underrun_episodes(&self) -> u64 {
        self.underruns
    }

    /// Number of recordings that overwrote unread samples.
    pub closed spec fn overflow_events(&self) -> u64 {
        self.overflows
    }

    /// The unread samples fit on the tape.
    pub proof fn lemma_unread_fits(&self)
        requires
            self.wf(),
        ensures
            self@.len() <= self.cap(),
    {
    }

    /// An empty tape with room for `capacity` samples, padding with `silence`.
    pub fn new(capacity: usize, silence: T) -> (r: Self)
        ensures
            r.wf(),
            r@ == Seq::<T>::empty(),
            r.cap() == capacity,
            r.fill() == silence,
            !r.in_underrun(),
            r.underrun_episodes() == 0,
            r.overflow_events() == 0,
    {
        let mut buffer: Vec<T> = Vec::with_capacity(capacity);
        while buffer.len() < capacity
            invariant
                buffer@.len() <= capacity,
            decreases capacity - buffer@.len(),
        {
            buffer.push(silence);
        }
        let r = DelayLine {
            buffer,
            read_pos: 0,
            write_pos: 0,
            unread: 0,
            silence,
            starving: false,
            underruns: 0,
            overflows: 0,
        };
        assert(r@ =~= Seq::<T>::empty());
        r
    }

    /// Records `samples` behind the unread ones, copying in at most two runs
    /// split at the end of the tape. Where they do not fit, the oldest unread
    /// samples are overwritten; the result says whether that happened.
    pub fn write(&mut self, samples: &[T]) -> (overflowed: bool)
        requires
            old(self).wf(),
        ensures
            final(self).wf(),
            final(self).cap() == old(self).cap(),
            final(self).fill() == old(self).fill(),
            final(self)@ == recorded(old(self)@, samples@, old(self).cap()),
            overflowed == (old(self)@.len() + samples@.len() > old(self).cap()),
            final(self).overflow_events() == if overflowed {
                bumped(old(self).overflow_events())
            } else {
                old(self).overflow_events()
            },
            final(self).underrun_episodes() == old(self).underrun_episodes(),
            final(self).in_underrun() == old(self).in_underrun(),
    {
        let ghost q = self@;
        let n = samples.len();
        let cap = self.buffer.len();
        let overflowed = n > cap - self.unread;
        if overflowed && self.overflows < u64::MAX {
            self.overflows = self.overflows + 1;
        }
        if cap == 0 {
            assert(self@ =~= recorded(q, samples@, 0));
            return overflowed;
        }
        let skip: usize = if n > cap {
            n - cap
        } else {
            0
        };
        let m: usize = n - skip;
        let wp: usize = self.write_pos;
        let first: usize = if m < cap - wp {
            m
        } else {
            cap - wp
        };
        let ghost old_buf = self.buffer@;
        let ghost s0 = *self;
        let mut k: usize = 0;
        while k < first
            invariant
                s0.wf(),
                s0.buffer@ == old_buf,
                s0.write_pos == wp,
                self.buffer@.len() == cap,
                self.read_pos == s0.read_pos,
                self.write_pos == s0.write_pos,
                self.unread == s0.unread,
                self.silence == s0.silence,
                self.starving == s0.starving,
                self.underruns == s0.underruns,
                self.overflows == s0.overflows,
                k <= first,
                first <= m,
                m <= cap,
                wp + first <= cap,
                skip + m == n,
                n == samples@.len(),
                forall|p: int|
                    0 <= p < cap ==> #[trigger] self.buffer@[p] == if wp <= p < wp + k {
                        samples@[skip + p - wp]
                    } else {
                        old_buf[p]
                    },
            decreases first - k,
        {
            self.buffer[wp + k] = samples[skip + k];
            k = k + 1;
        }
        let mut j: usize = 0;
        while j < m - first
            invariant
                s0.wf(),
                s0.buffer@ == old_buf,
                s0.write_pos == wp,
                self.buffer@.len() == cap,
                self.read_pos == s0.read_pos,
                self.write_pos == s0.write_pos,
                self.unread == s0.unread,
                self.silence == s0.silence,
                self.starving == s0.starving,
                self.underruns == s0.underruns,
                self.overflows == s0.overflows,
                j <= m - first,
                first <= m,
                m <= cap,
                wp + first <= cap,
                m > first ==> wp + first == cap,
                skip + m == n,
                n == samples@.len(),
                forall|p: int|
                    0 <= p < cap ==> #[trigger] self.buffer@[p] == if wp <= p < wp + first {
                        samples@[skip + p - wp]
                    } else if p < j {
                        samples@[skip + first + p]
                    } else {
                        old_buf[p]
                    },
            decreases m - first - j,
        {
            self.buffer[j] = samples[skip + first + j];
            j = j + 1;
        }
        self.write_pos = if m < cap - wp {
            wp + m
        } else {
            m - (cap - wp)
        };
        if m > cap - self.unread {
            self.unread = cap;
            self.read_pos = self.write_pos;
        } else {
            self.unread = self.unread + m;
        }
        proof {
            lemma_runs_by_offset(old_buf, self.buffer@, samples@, skip as int, wp as int, m as int, first as int);
            lemma_record_view(old_buf, self.buffer@, samples@, skip as int, s0.read_pos as int, s0.unread as int, m as int);
            assert(q == ring_view(old_buf, s0.read_pos as int, s0.unread as int));
        }
        overflowed
    }

    /// Plays `count` samples into the front of `out`, copying in at most two runs split
    /// at the end of the tape. A request beyond the unread samples is served
    /// with what there is and padded with silence; the result says whether
    /// that happened. A starved request that follows a served one starts an
    /// underrun episode.
    pub fn read(&mut self, out: &mut [T], count: usize) -> (starved: bool)
        requires
            old(self).wf(),
            count <= old(out)@.len(),
        ensures
            final(self).wf(),
            final(self).cap() == old(self).cap(),
            final(self).fill() == old(self).fill(),
            final(out)@ == played(old(self)@, count as nat, old(self).fill()) + old(out)@.skip(
                count as int,
            ),
            final(self)@ == old(self)@.skip(served(old(self)@.len(), count as nat) as int),
            starved == (count > old(self)@.len()),
            final(self).in_underrun() == starved,
            final(self).underrun_episodes() == if starved && !old(self).in_underrun() {
                bumped(old(self).underrun_episodes())
            } else {
                old(self).underrun_episodes()
            },
            final(self).overflow_events() == old(self).overflow_events(),
    {
        let ghost q = self@;
        let ghost out0 = out@;
        let cap = self.buffer.len();
        let rp = self.read_pos;
        let k: usize = if count <= self.unread {
            count
        } else {
            self.unread
        };
        let first: usize = if k < cap - rp {
            k
        } else {
            cap - rp
        };
        let mut i: usize = 0;
        while i < first
            invariant
                self.wf(),
                self@ == q,
                self.read_pos == rp,
                self.buffer@.len() == cap,
                k <= self.unread,
                k <= count,
                first <= k,
                rp + first <= cap,
                i <= first,
                out@.len() == out0.len(),
                count <= out0.len(),
                forall|t: int| count <= t < out0.len() ==> #[trigger] out@[t] == out0[t],
                forall|t: int| 0 <= t < i ==> #[trigger] out@[t] == q[t],
            decreases first - i,
        {
            out[i] = self.buffer[rp + i];
            i = i + 1;
        }
        let mut j: usize = 0;
        while j < k - first
            invariant
                self.wf(),
                self@ == q,
                self.read_pos == rp,
                self.buffer@.len() == cap,
                k <= self.unread,
                k <= count,
                first <= k,
                rp + first <= cap,
                k > first ==> rp + first == cap,
                j <= k - first,
                out@.len() == out0.len(),
                count <= out0.len(),
                forall|t: int| count <= t < out0.len() ==> #[trigger] out@[t] == out0[t],
                forall|t: int| 0 <= t < first + j ==> #[trigger] out@[t] == q[t],
            decreases k - first - j,
        {
            out[first + j] = self.buffer[j];
            j = j + 1;
        }
        let mut t: usize = k;
        while t < count
            invariant
                k <= t <= count,
                k <= q.len(),
                out@.len() == out0.len(),
                count <= out0.len(),
                forall|x: int| count <= x < out0.len() ==> #[trigger] out@[x] == out0[x],
                forall|x: int| 0 <= x < k ==> #[trigger] out@[x] == q[x],
                forall|x: int| k <= x < t ==> #[trigger] out@[x] == self.silence,
            decreases count - t,
        {
            out[t] = self.silence;
            t = t + 1;
        }
        let starved = count > self.unread;
        if starved && !self.starving && self.underruns < u64::MAX {
            self.underruns = self.underruns + 1;
        }
        self.starving = starved;
        self.read_pos = if k < cap - rp {
            rp + k
        } else {
            k - (cap - rp)
        };
        self.unread = self.unread - k;
        proof {
            assert(out@ =~= played(q, count as nat, self.silence) + out0.skip(count as int));
            assert(self@ =~= q.skip(k as int));
        }
        starved
    }

    /// Clears the tape and threads `lead` samples of silence ahead of the
    /// playback cursor, which delays what is recorded next by `lead` samples.
    /// The diagnostic counters are kept; the underrun episode ends.
    pub fn reset(&mut self, lead: usize)
        requires
            old(self).wf(),
            lead <= old(self).cap(),
        ensures
            final(self).wf(),
            final(self).cap() == old(self).cap(),
            final(self).fill() == old(self).fill(),
            final(self)@ == Seq::new(lead as nat, |_i: int| old(self).fill()),
            !final(self).in_underrun(),
            final(self).underrun_episodes() == old(self).underrun_episodes(),
            final(self).overflow_events() == old(self).overflow_events(),
    {
        let cap = self.buffer.len();
        let mut i: usize = 0;
        while i < cap
            invariant
                self.buffer@.len() == cap,
                lead <= cap,
                i <= cap,
                self.underruns == old(self).underruns,
                self.overflows == old(self).overflows,
                self.silence == old(self).silence,
                forall|t: int| 0 <= t < i ==> #[trigger] self.buffer@[t] == self.silence,
            decreases cap - i,
        {
            self.buffer[i] = self.silence;
            i = i + 1;
        }
        self.read_pos = 0;
        self.write_pos = if lead < cap {
            lead
        } else {
            0
        };
        self.unread = lead;
        self.starving = false;
        assert(self@ =~= Seq::new(lead as nat, |_i: int| self.silence));
    }

    /// Room of the tape, in samples.
    pub fn capacity(&self) -> (r: usize)
        ensures
            r == self.cap(),
    {
        self.buffer.len()
    }

    /// Number of unread samples.
    pub fn available(&self) -> (r: usize)
        requires
            self.wf(),
        ensures
            r == self@.len(),
    {
        self.unread
    }

    /// Number of underrun episodes so far.
    pub fn underruns(&self) -> (r: u64)
        ensures
            r == self.underrun_episodes(),
    {
        self.underruns
    }

    /// Number of overflowing recordings so far.
    pub fn overflows(&self) -> (r: u64)
        ensures
            r == self.overflow_events(),
    {
        self.overflows
    }
}

} // verus!
