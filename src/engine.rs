//! The block processor of the tape delay. Each chunk of host audio is
//! recorded onto the tape at the host rate; then as many tape samples as the
//! chunk's play ratio calls for are played into a staging area, from which a
//! rate converter makes one chunk of output.
use crate::pull::{
    lemma_rescaled_same,
    lemma_equal_speeds_pull_len, lemma_pull_bound, pull, pull_carry, pull_count, rescale_carry,
    rescaled,
};
use crate::schedule::{
    lemma_held_speed_keeps_ratio,
    lemma_due_iff_reached, lemma_due_run_bounds, lemma_due_run_len, lemma_spaced_count,
    lemma_spaced_ordered, lemma_wrapped_after, retired_now, retired_speed, spaced, speed_queue,
    tape_after, wrapped, SpeedChange, SpeedScheduler,
};
use crate::tape::{
    block_steps, bumped, lemma_equal_rates_delay, played, recorded, run_clean, run_played,
    run_recorded, served, DelayLine,
};
use vstd::arithmetic::div_mod::{lemma_div_is_ordered_by_denominator, lemma_fundamental_div_mod};
use vstd::prelude::*;
use vstd::slice::slice_subrange;

verus! {

/// Fixed-point scale of a tape speed: eight fractional bits.
pub const SPEED_ONE: u32 = 256;

/// Largest host block, in samples.
pub const MAX_BLOCK_SIZE: usize = 16384;

/// Largest number of sample frames of tape, at unit speed.
pub const MAX_TAPE_FRAMES: u64 = 8388607;

/// Largest number of tape samples that one chunk may consume.
pub const MAX_PULL: u64 = 16777216;

/// Why a configuration cannot run.
#[derive(Clone, Copy, Debug, PartialEq, Eq, Structural)]
pub enum ConfigError {
    /// The sample rate is zero.
    ZeroSampleRate,
    /// Only one input and one output channel are supported.
    UnsupportedChannels,
    /// The chunk size is zero, exceeds the largest block, or does not divide
    /// it, or the largest block exceeds the supported bound.
    InvalidBlockSize,
    /// The slowest speed is zero or exceeds the fastest, or the initial speed
    /// lies outside the two.
    InvalidSpeedRange,
    /// The tape holds no time.
    ZeroCapacity,
    /// The tape holds more frames than supported.
    TapeTooLong,
    /// At the widest ratio of speeds one chunk would consume more tape than
    /// supported.
    RatioTooWide,
    /// At the fastest speed one chunk moves the tape position by `2^31`
    /// units or more, beyond what wrapping positions can compare.
    TravelTooFar,
}

/// What the delay is set up with. Speeds are fixed-point with eight
/// fractional bits.
#[derive(Clone, Copy, Debug, PartialEq, Eq, Structural)]
pub struct DelayConfig {
    /// Host sample rate, in Hz.
    pub sample_rate: u32,
    /// Largest block the host hands over, in samples.
    pub max_block_size: usize,
    /// Samples per chunk: the granularity at which the play ratio is updated.
    pub chunk_size: usize,
    /// Audio channels.
    pub channels: u32,
    /// Slowest tape speed.
    pub min_speed: u32,
    /// Fastest tape speed.
    pub max_speed: u32,
    /// Tape speed at the start.
    pub initial_speed: u32,
    /// Seconds of audio that the tape holds at unit speed.
    pub tape_seconds: u32,
}

/// Frames of tape at unit speed.
pub open spec fn tape_frames(c: DelayConfig) -> nat {
    c.tape_seconds as nat * c.sample_rate as nat
}

/// Units of tape position from the record to the playback cursor.
pub open spec fn tape_span(c: DelayConfig) -> nat {
    tape_frames(c) * SPEED_ONE as nat
}

/// Samples the tape must hold: the delay at the slowest speed and two
/// blocks of margin.
pub open spec fn tape_capacity(c: DelayConfig) -> nat {
    tape_span(c) / (c.min_speed as nat) + 2 * (c.max_block_size as nat)
}

/// Samples of silence ahead of the first recorded sample: the delay at the
/// initial speed.
pub open spec fn lead_samples(c: DelayConfig) -> nat {
    tape_span(c) / (c.initial_speed as nat)
}

/// Room for pending speed changes: at most one per chunk, each pending while
/// the tape moves on by one span, which takes at least
/// `span / (min_speed * chunk_size)` chunks.
pub open spec fn queue_capacity(c: DelayConfig) -> nat {
    tape_span(c) / (c.min_speed as nat * c.chunk_size as nat) + 2
}

/// Room in the staging area: the most tape that one chunk can consume.
pub open spec fn staging_len(c: DelayConfig) -> nat {
    c.chunk_size as nat * c.max_speed as nat / (c.min_speed as nat) + 1
}

/// The first check that `c` fails, if any.
pub open spec fn config_error(c: DelayConfig) -> Option<ConfigError> {
    if c.sample_rate == 0 {
        Some(ConfigError::ZeroSampleRate)
    } else if c.channels != 1 {
        Some(ConfigError::UnsupportedChannels)
    } else if c.chunk_size == 0 || c.max_block_size > MAX_BLOCK_SIZE || c.chunk_size
        > c.max_block_size || c.max_block_size % c.chunk_size != 0 {
        Some(ConfigError::InvalidBlockSize)
    } else if c.min_speed == 0 || c.min_speed > c.max_speed || c.initial_speed < c.min_speed
        || c.initial_speed > c.max_speed {
        Some(ConfigError::InvalidSpeedRange)
    } else if c.tape_seconds == 0 {
        Some(ConfigError::ZeroCapacity)
    } else if tape_frames(c) > MAX_TAPE_FRAMES {
        Some(ConfigError::TapeTooLong)
    } else if staging_len(c) > MAX_PULL {
        Some(ConfigError::RatioTooWide)
    } else if c.chunk_size as nat * c.max_speed as nat >= 0x8000_0000 {
        Some(ConfigError::TravelTooFar)
    } else {
        None
    }
}

/// What happened in one chunk.
#[derive(Clone, Copy, Debug, PartialEq, Eq, Structural)]
pub struct ChunkReport {
    /// Tape samples played into the staging area.
    pub pulled: usize,
    /// The play ratio is `current_speed / recorded_speed`.
    pub current_speed: u32,
    pub recorded_speed: u32,
    /// The play ratio may differ from the previous chunk's.
    pub ratio_changed: bool,
    /// Recording overwrote unread tape.
    pub overflowed: bool,
    /// The tape could not serve the whole pull; the rest is silence.
    pub starved: bool,
}

/// A variable-speed tape delay on one channel of samples of type `T`.
pub struct VariSpeedDelay<T> {
    config: DelayConfig,
    tape: DelayLine<T>,
    schedule: SpeedScheduler,
    carry: u32,
    staging: Vec<T>,
    staged: usize,
    /// The tape position counted without wrapping.
    travelled: Ghost<int>,
    /// The unwrapped position at which pending changes were last retired.
    drained: Ghost<int>,
    /// The unwrapped position at which each pending change was queued.
    queued_at: Ghost<Seq<int>>,
}

/// Fewest units of tape that one chunk moves on.
pub open spec fn min_travel(c: DelayConfig) -> int {
    (c.min_speed as nat * c.chunk_size as nat) as int
}

/// Most units of tape that one chunk moves on.
pub open spec fn max_travel(c: DelayConfig) -> int {
    (c.max_speed as nat * c.chunk_size as nat) as int
}

impl<T: Copy> VariSpeedDelay<T> {
    /// The parts agree with the configuration, every speed in play lies in
    /// its range, and the carried fraction is less than one sample.
    pub closed spec fn wf(&self) -> bool {
        let c = self.config;
        &&& config_error(c) is None
        &&& self.tape.wf()
        &&& self.tape.cap() == tape_capacity(c)
        &&& self.schedule.wf()
        &&& self.schedule.span() == tape_span(c)
        &&& self.schedule.queue_cap() == queue_capacity(c)
        &&& c.min_speed <= self.schedule.current() <= c.max_speed
        &&& c.min_speed <= self.schedule.recorded() <= c.max_speed
        &&& forall|i: int|
            0 <= i < self.schedule.pending().len() ==> c.min_speed <= (
            #[trigger] self.schedule.pending()[i]).speed <= c.max_speed
        &&& self.carry < self.schedule.recorded()
        &&& self.staging@.len() == staging_len(c)
        &&& self.staged <= self.staging@.len()
        &&& self.positions_wf()
    }

    /// Each pending change was queued at an unwrapped position within one
    /// span behind the last retirement, one chunk's travel or more after the
    /// one before it, and the tape has moved on by one chunk since.
    closed spec fn positions_wf(&self) -> bool {
        let c = self.config;
        let span = tape_span(c) as int;
        let ps = self.queued_at@;
        &&& 0 <= self.drained@ <= self.travelled@
        &&& self.travelled@ - self.drained@ <= max_travel(c)
        &&& self.schedule.position() == wrapped(self.travelled@)
        &&& ps.len() == self.schedule.pending().len()
        &&& forall|i: int|
            0 <= i < ps.len() ==> 0 <= #[trigger] ps[i] && self.drained@ - span < ps[i]
                <= self.drained@
        &&& forall|i: int|
            0 <= i < ps.len() ==> (#[trigger] self.schedule.pending()[i]).timestamp == wrapped(
                ps[i] + span,
            )
        &&& spaced(ps, min_travel(c))
        &&& ps.len() > 0 ==> self.travelled@ - self.drained@ >= min_travel(c)
    }

    /// Sets the delay up for `config`, padding starved playback with
    /// `silence`, or says which check the configuration fails. The tape
    /// starts with the delay at the initial speed threaded as silence.
    pub fn initialize(config: DelayConfig, silence: T) -> (r: Result<Self, ConfigError>)
        ensures
            match r {
                Ok(d) => {
                    &&& config_error(config) is None
                    &&& d.wf()
                    &&& d.config_spec() == config
                    &&& d.tape_spec()@ == Seq::new(lead_samples(config), |_i: int| silence)
                    &&& d.tape_spec().fill() == silence
                    &&& d.tape_spec().cap() == tape_capacity(config)
                    &&& d.schedule_spec().span() == tape_span(config)
                    &&& d.schedule_spec().queue_cap() == queue_capacity(config)
                    &&& !d.tape_spec().in_underrun()
                    &&& d.tape_spec().underrun_episodes() == 0
                    &&& d.tape_spec().overflow_events() == 0
                    &&& d.schedule_spec().current() == config.initial_speed
                    &&& d.schedule_spec().recorded() == config.initial_speed
                    &&& d.schedule_spec().position() == 0
                    &&& d.schedule_spec().pending() == Seq::<SpeedChange>::empty()
                    &&& d.schedule_spec().dropped_changes() == 0
                    &&& d.carry_spec() == 0
                    &&& d.staged_spec() == Seq::<T>::empty()
                },
                Err(e) => config_error(config) == Some(e),
            },
    {
        if config.sample_rate == 0 {
            return Err(ConfigError::ZeroSampleRate);
        }
        if config.channels != 1 {
            return Err(ConfigError::UnsupportedChannels);
        }
        if config.chunk_size == 0 || config.max_block_size > MAX_BLOCK_SIZE || config.chunk_size
            > config.max_block_size || config.max_block_size % config.chunk_size != 0 {
            return Err(ConfigError::InvalidBlockSize);
        }
        if config.min_speed == 0 || config.min_speed > config.max_speed || config.initial_speed
            < config.min_speed || config.initial_speed > config.max_speed {
            return Err(ConfigError::InvalidSpeedRange);
        }
        if config.tape_seconds == 0 {
            return Err(ConfigError::ZeroCapacity);
        }
        let secs = config.tape_seconds as u64;
        let rate = config.sample_rate as u64;
        assert(secs * rate <= 0xffff_fffe_0000_0001) by (nonlinear_arith)
            requires
                secs <= 0xffff_ffff,
                rate <= 0xffff_ffff,
        ;
        let frames: u64 = secs * rate;
        if frames > MAX_TAPE_FRAMES {
            return Err(ConfigError::TapeTooLong);
        }
        let chunk = config.chunk_size as u64;
        let max = config.max_speed as u64;
        let min = config.min_speed as u64;
        assert(chunk * max <= 16384 * 0xffff_ffff) by (nonlinear_arith)
            requires
                chunk <= 16384,
                max <= 0xffff_ffff,
        ;
        let pull_room: u64 = chunk * max / min + 1;
        if pull_room > MAX_PULL {
            return Err(ConfigError::RatioTooWide);
        }
        if chunk * max >= 0x8000_0000 {
            return Err(ConfigError::TravelTooFar);
        }
        let span: u64 = frames * 256;
        let capacity: u64 = span / min + 2 * (config.max_block_size as u64);
        let lead: u64 = span / (config.initial_speed as u64);
        assert(chunk * min <= 16384 * 0xffff_ffff) by (nonlinear_arith)
            requires
                chunk <= 16384,
                min <= 0xffff_ffff,
        ;
        assert(chunk * min > 0) by (nonlinear_arith)
            requires
                chunk > 0,
                min > 0,
        ;
        let queue: u64 = span / (chunk * min) + 2;
        proof {
            lemma_div_is_ordered_by_denominator(span as int, min as int, config.initial_speed as int);
            lemma_div_is_ordered_by_denominator(span as int, 1, min as int);
            lemma_div_is_ordered_by_denominator(span as int, 1, (chunk * min) as int);
        }
        let mut tape = DelayLine::new(capacity as usize, silence);
        tape.reset(lead as usize);
        let schedule = SpeedScheduler::new(config.initial_speed, span as u32, queue as usize);
        let mut staging: Vec<T> = Vec::with_capacity(pull_room as usize);
        while (staging.len() as u64) < pull_room
            invariant
                staging@.len() <= pull_room,
                pull_room <= MAX_PULL,
            decreases pull_room - staging@.len(),
        {
            staging.push(silence);
        }
        let d = VariSpeedDelay {
            config,
            tape,
            schedule,
            carry: 0,
            staging,
            staged: 0,
            travelled: Ghost(0),
            drained: Ghost(0),
            queued_at: Ghost(Seq::empty()),
        };
        assert(d.staged_spec() =~= Seq::<T>::empty());
        assert(frames == tape_frames(config));
        assert(span == tape_span(config));
        assert(config_error(config) is None);
        assert(capacity == tape_capacity(config));
        assert(chunk * min == config.min_speed as nat * config.chunk_size as nat) by (
        nonlinear_arith)
            requires
                chunk == config.chunk_size,
                min == config.min_speed,
        ;
        assert(queue == queue_capacity(config));
        assert(pull_room == staging_len(config));
        assert(d.wf());
        Ok(d)
    }

    /// Runs one chunk of host audio at tape speed `speed`. The scheduler takes
    /// the speed and retires the changes that have come due, the carried
    /// fraction follows the recorded speed, and the tape moves on; then the
    /// chunk is recorded, and the tape samples that the chunk's play ratio
    /// `speed / recorded speed` calls for are played into the staging area,
    /// padded with silence where the tape runs dry.
    #[verifier::rlimit(40)]
    pub fn process_chunk(&mut self, input: &[T], speed: u32) -> (r: ChunkReport)
        requires
            old(self).wf(),
            input@.len() == old(self).config_spec().chunk_size,
            old(self).config_spec().min_speed <= speed <= old(self).config_spec().max_speed,
        ensures
            final(self).wf(),
            chunk_step(*old(self), input@, speed, *final(self), r),
    {
        let ghost s0 = self.schedule;
        let len = input.len();
        let old_recorded = self.schedule.recorded_speed();
        let ghost span = tape_span(self.config) as int;
        let ghost g = min_travel(self.config);
        let ghost here = self.travelled@;
        let ghost ps0 = self.queued_at@;
        proof {
            assert(g > 0) by (nonlinear_arith)
                requires
                    g == self.config.min_speed as nat * self.config.chunk_size as nat,
                    self.config.min_speed > 0,
                    self.config.chunk_size > 0,
            ;
            assert(span > 0) by (nonlinear_arith)
                requires
                    span == self.config.tape_seconds as nat * self.config.sample_rate as nat * 256,
                    self.config.tape_seconds > 0,
                    self.config.sample_rate > 0,
            ;
            lemma_spaced_count(ps0, self.drained@, span, g);
            assert(ps0.len() < self.schedule.queue_cap());
        }
        let changed = self.schedule.update(speed);
        let ghost ps1 = if speed != s0.current() {
            ps0.push(here)
        } else {
            ps0
        };
        proof {
            let q = speed_queue(s0, speed);
            let k = retired_now(s0, speed);
            if speed != s0.current() {
                lemma_wrapped_after(here, span as nat);
                assert(q[q.len() - 1].timestamp == wrapped(here + span));
                if ps0.len() > 0 {
                    assert(ps1[(ps0.len() - 1) + 1] - ps1[ps0.len() - 1] >= g);
                }
            }
            assert(ps1.len() == q.len());
            assert forall|i: int| 0 <= i < ps1.len() implies 0 <= #[trigger] ps1[i] && old(
                self,
            ).drained@ - span < ps1[i] <= here && q[i].timestamp == wrapped(ps1[i] + span) by {
                if i < ps0.len() {
                    assert(ps1[i] == ps0[i]);
                    assert(q[i] == s0.pending()[i]);
                    assert(0 <= ps0[i]);
                    assert(old(self).drained@ - span < ps0[i] <= old(self).drained@);
                    assert(s0.pending()[i].timestamp == wrapped(ps0[i] + span));
                } else {
                    assert(ps1[i] == here);
                }
            }
            assert(spaced(ps1, g)) by {
                assert forall|i: int| 0 <= i && i + 1 < ps1.len() implies #[trigger] ps1[i + 1]
                    - ps1[i] >= g by {
                    if i + 1 < ps0.len() {
                        assert(ps1[i + 1] == ps0[i + 1]);
                        assert(ps1[i] == ps0[i]);
                    }
                }
            }
            lemma_due_run_bounds(q, s0.position());
            assert forall|i: int| k <= i < ps1.len() implies here - span < #[trigger] ps1[i] by {
                lemma_due_iff_reached(here, ps1[k as int] + span);
                lemma_spaced_ordered(ps1, g, k as int, i);
            }
            lemma_due_run_len(q, s0.position());
            assert forall|i: int| 0 <= i < q.len() implies self.config.min_speed <= (
            #[trigger] q[i]).speed <= self.config.max_speed by {
                if i < s0.pending().len() {
                    assert(q[i] == s0.pending()[i]);
                }
            }
            assert forall|i: int|
                0 <= i < self.schedule.pending().len() implies self.config.min_speed <= (
            #[trigger] self.schedule.pending()[i]).speed <= self.config.max_speed by {
                assert(self.schedule.pending()[i] == q[i + k]);
            }
            if k > 0 {
                assert(q[k - 1].speed == self.schedule.recorded());
            }
        }
        let recorded_speed = self.schedule.recorded_speed();
        let carry = rescale_carry(self.carry, old_recorded, recorded_speed);
        self.schedule.advance(len);
        proof {
            let k = retired_now(s0, speed);
            let ps2 = ps1.skip(k as int);
            let moved = speed as nat * len as nat;
            lemma_wrapped_after(here, moved);
            assert(g <= moved <= max_travel(self.config)) by (nonlinear_arith)
                requires
                    g == self.config.min_speed as nat * self.config.chunk_size as nat,
                    max_travel(self.config) == self.config.max_speed as nat
                        * self.config.chunk_size as nat,
                    moved == speed as nat * len as nat,
                    len == self.config.chunk_size,
                    self.config.min_speed <= speed <= self.config.max_speed,
            ;
            self.travelled = Ghost(here + moved);
            self.drained = Ghost(here);
            self.queued_at = Ghost(ps2);
            assert forall|i: int| 0 <= i < ps2.len() implies (
            #[trigger] self.schedule.pending()[i]).timestamp == wrapped(ps2[i] + span) by {
                assert(ps2[i] == ps1[i + k]);
            }
            assert(spaced(ps2, g)) by {
                assert forall|i: int| 0 <= i && i + 1 < ps2.len() implies #[trigger] ps2[i + 1]
                    - ps2[i] >= g by {
                    assert(ps2[i + 1] == ps1[(i + k) + 1]);
                }
            }
        }
        let overflowed = self.tape.write(input);
        let (pulled, next_carry) = pull(carry, len, speed, recorded_speed);
        proof {
            lemma_pull_bound(
                carry as nat,
                len as nat,
                speed as nat,
                recorded_speed as nat,
                self.config.chunk_size as nat,
                self.config.min_speed as nat,
                self.config.max_speed as nat,
            );
        }
        let n = pulled as usize;
        let ghost staging0 = self.staging@;
        let starved = self.tape.read(self.staging.as_mut_slice(), n);
        self.carry = next_carry;
        self.staged = n;
        proof {
            assert(self.staged_spec() =~= played(
                recorded(old(self).tape@, input@, old(self).tape.cap()),
                n as nat,
                old(self).tape.fill(),
            ));
        }
        ChunkReport {
            pulled: n,
            current_speed: speed,
            recorded_speed,
            ratio_changed: changed,
            overflowed,
            starved,
        }
    }

    /// Clears the tape back to the delay at the initial speed, empties the
    /// speed queue and drops the carried fraction, keeping every allocation.
    /// The diagnostic counters are kept.
    pub fn reset(&mut self)
        requires
            old(self).wf(),
        ensures
            final(self).wf(),
            final(self).config_spec() == old(self).config_spec(),
            final(self).tape_spec()@ == Seq::new(
                lead_samples(old(self).config_spec()),
                |_i: int| old(self).tape_spec().fill(),
            ),
            final(self).tape_spec().fill() == old(self).tape_spec().fill(),
            final(self).tape_spec().cap() == old(self).tape_spec().cap(),
            final(self).schedule_spec().span() == old(self).schedule_spec().span(),
            final(self).schedule_spec().queue_cap() == old(self).schedule_spec().queue_cap(),
            !final(self).tape_spec().in_underrun(),
            final(self).tape_spec().underrun_episodes() == old(self).tape_spec().underrun_episodes(),
            final(self).tape_spec().overflow_events() == old(self).tape_spec().overflow_events(),
            final(self).schedule_spec().current() == old(self).config_spec().initial_speed,
            final(self).schedule_spec().recorded() == old(self).config_spec().initial_speed,
            final(self).schedule_spec().position() == 0,
            final(self).schedule_spec().pending() == Seq::<SpeedChange>::empty(),
            final(self).schedule_spec().dropped_changes() == old(
                self,
            ).schedule_spec().dropped_changes(),
            final(self).carry_spec() == 0,
            final(self).staged_spec() == Seq::<T>::empty(),
    {
        let span = (self.config.tape_seconds as u64) * (self.config.sample_rate as u64) * 256;
        let lead = span / (self.config.initial_speed as u64);
        proof {
            lemma_div_is_ordered_by_denominator(
                span as int,
                self.config.min_speed as int,
                self.config.initial_speed as int,
            );
        }
        self.tape.reset(lead as usize);
        self.schedule.reset(self.config.initial_speed);
        self.carry = 0;
        self.staged = 0;
        proof {
            self.travelled = Ghost(0);
            self.drained = Ghost(0);
            self.queued_at = Ghost(Seq::empty());
        }
        assert(self.staged_spec() =~= Seq::<T>::empty());
    }

    /// How many chunks make up a host block of `block_len` samples, or `None`
    /// where the block is empty, larger than the largest block, or not a
    /// whole number of chunks.
    pub fn chunk_count(&self, block_len: usize) -> (r: Option<usize>)
        requires
            self.wf(),
        ensures
            r == if 0 < block_len <= self.config_spec().max_block_size && block_len
                % self.config_spec().chunk_size == 0 {
                Some((block_len / self.config_spec().chunk_size) as usize)
            } else {
                None::<usize>
            },
    {
        if 0 < block_len && block_len <= self.config.max_block_size && block_len
            % self.config.chunk_size == 0 {
            Some(block_len / self.config.chunk_size)
        } else {
            None
        }
    }

    /// The configuration the delay runs with.
    pub fn config(&self) -> (r: DelayConfig)
        ensures
            r == self.config_spec(),
    {
        self.config
    }

    /// Samples per chunk.
    pub fn chunk_size(&self) -> (r: usize)
        ensures
            r == self.config_spec().chunk_size,
    {
        self.config.chunk_size
    }

    /// The tape samples played in the last chunk, for the rate converter.
    pub fn staged(&self) -> (r: &[T])
        requires
            self.wf(),
        ensures
            r@ == self.staged_spec(),
    {
        slice_subrange(self.staging.as_slice(), 0, self.staged)
    }

    /// The tape.
    pub fn tape(&self) -> (r: &DelayLine<T>)
        ensures
            *r == self.tape_spec(),
    {
        &self.tape
    }

    /// The speed scheduler.
    pub fn scheduler(&self) -> (r: &SpeedScheduler)
        ensures
            *r == self.schedule_spec(),
    {
        &self.schedule
    }

    /// Every speed in play is positive.
    pub proof fn lemma_speeds_positive(&self)
        requires
            self.wf(),
        ensures
            self.schedule_spec().current() > 0,
            self.schedule_spec().recorded() > 0,
    {
    }

    /// The carried fraction is less than one sample.
    pub proof fn lemma_carry_below_recorded(&self)
        requires
            self.wf(),
        ensures
            self.carry_spec() < self.schedule_spec().recorded(),
    {
    }

    proof fn lemma_sizes(&self)
        requires
            self.wf(),
        ensures
            config_error(self.config_spec()) is None,
            self.tape_spec().cap() == tape_capacity(self.config_spec()),
            self.schedule_spec().span() == tape_span(self.config_spec()),
            self.schedule_spec().queue_cap() == queue_capacity(self.config_spec()),
            self.tape_spec()@.len() <= self.tape_spec().cap(),
            self.schedule_spec().pending().len() < self.schedule_spec().queue_cap(),
    {
        let c = self.config;
        let span = tape_span(c) as int;
        let g = min_travel(c);
        assert(g > 0) by (nonlinear_arith)
            requires
                g == c.min_speed as nat * c.chunk_size as nat,
                c.min_speed > 0,
                c.chunk_size > 0,
        ;
        assert(span > 0) by (nonlinear_arith)
            requires
                span == c.tape_seconds as nat * c.sample_rate as nat * 256,
                c.tape_seconds > 0,
                c.sample_rate > 0,
        ;
        lemma_spaced_count(self.queued_at@, self.drained@, span, g);
        self.tape.lemma_unread_fits();
    }

    pub closed spec fn config_spec(&self) -> DelayConfig {
        self.config
    }

    /// The tape.
    pub closed spec fn tape_spec(&self) -> DelayLine<T> {
        self.tape
    }

    /// The speed scheduler.
    pub closed spec fn schedule_spec(&self) -> SpeedScheduler {
        self.schedule
    }

    /// The fraction of a tape sample carried into the next chunk, in units
    /// of one over the recorded speed.
    pub closed spec fn carry_spec(&self) -> nat {
        self.carry as nat
    }

    /// The tape samples played in the last chunk.
    pub closed spec fn staged_spec(&self) -> Seq<T> {
        self.staging@.take(self.staged as int)
    }
}

/// Held at one speed with the tape recorded at that same speed, the delay is
/// a pure delay: every chunk pulls exactly as many tape samples as it
/// records, the carried fraction stays put, and what the tape plays is what it
/// held (`q`, the lead) followed by the input, cut to the input's length. The
/// rate converter then runs at a ratio of one.
pub proof fn lemma_steady_speed_is_pure_delay<T>(
    q: Seq<T>,
    blocks: Seq<Seq<T>>,
    cap: nat,
    fill: T,
    carry: nat,
    speed: nat,
)
    requires
        carry < speed,
        forall|i: int| 0 <= i < blocks.len() ==> q.len() + #[trigger] blocks[i].len() <= cap,
    ensures
        forall|i: int|
            0 <= i < blocks.len() ==> pull_count(carry, #[trigger] blocks[i].len(), speed, speed)
                == blocks[i].len() && pull_carry(carry, blocks[i].len(), speed, speed) == carry,
        run_clean(q, block_steps(blocks), cap),
        run_played(q, block_steps(blocks), cap, fill) == (q + run_recorded(
            block_steps(blocks),
        )).take(run_recorded(block_steps(blocks)).len() as int),
{
    assert forall|i: int| 0 <= i < blocks.len() implies pull_count(
        carry,
        #[trigger] blocks[i].len(),
        speed,
        speed,
    ) == blocks[i].len() && pull_carry(carry, blocks[i].len(), speed, speed) == carry by {
        lemma_equal_speeds_pull_len(carry, blocks[i].len(), speed);
    }
    lemma_equal_rates_delay(q, blocks, cap, fill);
}

/// One chunk of `process_chunk`: `d0` takes `input` at speed `speed` and
/// becomes `d1`, reporting `r`.
pub open spec fn chunk_step<T: Copy>(
    d0: VariSpeedDelay<T>,
    input: Seq<T>,
    speed: u32,
    d1: VariSpeedDelay<T>,
    r: ChunkReport,
) -> bool {
    let s0 = d0.schedule_spec();
    let s1 = d1.schedule_spec();
    let q = speed_queue(s0, speed);
    let k = retired_now(s0, speed);
    let rec = retired_speed(q, k, s0.recorded());
    let carry = rescaled(d0.carry_spec(), s0.recorded() as nat, rec as nat);
    let len = input.len();
    let taped = recorded(d0.tape_spec()@, input, d0.tape_spec().cap());
    let t1 = d1.tape_spec();
    &&& s1.current() == speed
    &&& s1.recorded() == rec
    &&& s1.pending() == q.skip(k as int)
    &&& s1.position() == tape_after(s0.position(), speed as nat * len)
    &&& s1.span() == s0.span()
    &&& s1.queue_cap() == s0.queue_cap()
    &&& s0.pending().len() < s0.queue_cap()
    &&& s1.dropped_changes() == s0.dropped_changes()
    &&& r.current_speed == speed
    &&& r.recorded_speed == rec
    &&& r.ratio_changed == (speed != s0.current() || k > 0)
    &&& r.pulled == pull_count(carry, len, speed as nat, rec as nat)
    &&& d1.carry_spec() == pull_carry(carry, len, speed as nat, rec as nat)
    &&& r.overflowed == (d0.tape_spec()@.len() + len > d0.tape_spec().cap())
    &&& r.starved == (r.pulled > taped.len())
    &&& t1@ == taped.skip(served(taped.len(), r.pulled as nat) as int)
    &&& d1.staged_spec() == played(
        taped,
        r.pulled as nat,
        d0.tape_spec().fill(),
    )
    &&& t1.fill() == d0.tape_spec().fill()
    &&& t1.cap() == d0.tape_spec().cap()
    &&& t1.overflow_events() == if r.overflowed {
        bumped(d0.tape_spec().overflow_events())
    } else {
        d0.tape_spec().overflow_events()
    }
    &&& t1.in_underrun() == r.starved
    &&& t1.underrun_episodes() == if r.starved && !d0.tape_spec().in_underrun() {
        bumped(d0.tape_spec().underrun_episodes())
    } else {
        d0.tape_spec().underrun_episodes()
    }
    &&& d1.config_spec() == d0.config_spec()
}

/// A run of chunks: each `states[i]` takes `inputs[i]` at speed `speeds[i]`
/// and becomes `states[i + 1]`, reporting `reports[i]`; every state is well
/// formed, as `process_chunk` keeps it.
pub open spec fn chunk_run<T: Copy>(
    states: Seq<VariSpeedDelay<T>>,
    inputs: Seq<Seq<T>>,
    speeds: Seq<u32>,
    reports: Seq<ChunkReport>,
) -> bool {
    &&& states.len() == inputs.len() + 1
    &&& speeds.len() == inputs.len()
    &&& reports.len() == inputs.len()
    &&& forall|i: int| 0 <= i < states.len() ==> (#[trigger] states[i]).wf()
    &&& forall|i: int|
        0 <= i < inputs.len() ==> chunk_step(
            states[i],
            #[trigger] inputs[i],
            speeds[i],
            states[i + 1],
            reports[i],
        )
}

/// The input of the first `n` chunks, in order.
pub open spec fn run_input<T>(inputs: Seq<Seq<T>>, n: nat) -> Seq<T>
    decreases n,
{
    if n == 0 {
        Seq::empty()
    } else {
        run_input(inputs, (n - 1) as nat) + inputs[n - 1]
    }
}

/// The tape samples played by the first `n` chunks, in order.
pub open spec fn run_staged<T: Copy>(states: Seq<VariSpeedDelay<T>>, n: nat) -> Seq<T>
    decreases n,
{
    if n == 0 {
        Seq::empty()
    } else {
        run_staged(states, (n - 1) as nat) + states[n as int].staged_spec()
    }
}

/// Tape samples pulled by the first `n` chunks.
pub open spec fn run_pulled(reports: Seq<ChunkReport>, n: nat) -> nat
    decreases n,
{
    if n == 0 {
        0
    } else {
        run_pulled(reports, (n - 1) as nat) + reports[n - 1].pulled as nat
    }
}

/// First in, first out over a run of chunks: where no chunk overflows the
/// tape or starves, what the chunks play, followed by what is still on the
/// tape, is what the tape held at the start followed by every input sample,
/// in order and across every wrap of the cursors.
pub proof fn lemma_run_is_fifo<T: Copy>(
    states: Seq<VariSpeedDelay<T>>,
    inputs: Seq<Seq<T>>,
    speeds: Seq<u32>,
    reports: Seq<ChunkReport>,
    n: nat,
)
    requires
        chunk_run(states, inputs, speeds, reports),
        n <= inputs.len(),
        forall|i: int| 0 <= i < n ==> !(#[trigger] reports[i]).overflowed && !reports[i].starved,
    ensures
        run_staged(states, n) + states[n as int].tape_spec()@ == states[0].tape_spec()@ + run_input(
            inputs,
            n,
        ),
    decreases n,
{
    if n > 0 {
        let m = (n - 1) as int;
        lemma_run_is_fifo(states, inputs, speeds, reports, (n - 1) as nat);
        let d0 = states[m];
        let d1 = states[m + 1];
        assert(chunk_step(d0, inputs[m], speeds[m], d1, reports[m]));
        assert(!reports[m].overflowed && !reports[m].starved);
        let taped = recorded(d0.tape_spec()@, inputs[m], d0.tape_spec().cap());
        assert(taped == d0.tape_spec()@ + inputs[m]);
        let k = reports[m].pulled;
        assert(d1.staged_spec() =~= taped.take(k as int));
        assert(d1.staged_spec() + d1.tape_spec()@ =~= taped);
        assert(run_staged(states, n) + d1.tape_spec()@ =~= run_staged(states, (n - 1) as nat) + (
        d1.staged_spec() + d1.tape_spec()@));
        assert(states[0].tape_spec()@ + run_input(inputs, n) =~= (states[0].tape_spec()@
            + run_input(inputs, (n - 1) as nat)) + inputs[m]);
    }
}

/// Held at a play ratio of `num / den` over a run, the tape consumed is the
/// output length times the ratio, short of less than one sample: `den` times
/// what was pulled, plus the fraction carried at the end, is exactly the
/// fraction carried at the start plus `num` times what was produced. The
/// measured input-to-output rate of the converter's feed tends to
/// `num / den`.
pub proof fn lemma_run_rate<T: Copy>(
    states: Seq<VariSpeedDelay<T>>,
    inputs: Seq<Seq<T>>,
    speeds: Seq<u32>,
    reports: Seq<ChunkReport>,
    n: nat,
    num: u32,
    den: u32,
)
    requires
        chunk_run(states, inputs, speeds, reports),
        n <= inputs.len(),
        forall|i: int| 0 <= i < n ==> #[trigger] speeds[i] == num,
        forall|i: int| 0 <= i <= n ==> (#[trigger] states[i]).schedule_spec().recorded() == den,
    ensures
        run_pulled(reports, n) * den + states[n as int].carry_spec() == states[0].carry_spec()
            + num * run_input(inputs, n).len(),
    decreases n,
{
    if n > 0 {
        let m = (n - 1) as int;
        lemma_run_rate(states, inputs, speeds, reports, (n - 1) as nat, num, den);
        let d0 = states[m];
        let d1 = states[m + 1];
        assert(chunk_step(d0, inputs[m], speeds[m], d1, reports[m]));
        assert(d0.wf());
        assert(states[m + 1].schedule_spec().recorded() == den);
        assert(d0.schedule_spec().recorded() == den);
        assert(den > 0) by {
            d0.lemma_speeds_positive();
        }
        lemma_rescaled_same(d0.carry_spec(), den as nat);
        let c = d0.carry_spec();
        let l = inputs[m].len();
        let x = c + l * num;
        lemma_fundamental_div_mod(x as int, den as int);
        let k = reports[m].pulled as nat;
        let r = d1.carry_spec();
        assert(x == den * k + r);
        let p = run_pulled(reports, (n - 1) as nat);
        let t = run_input(inputs, (n - 1) as nat).len();
        assert(run_input(inputs, n).len() == t + l);
        assert(run_pulled(reports, n) == p + k);
        assert((p + k) * den + r == states[0].carry_spec() + num * (t + l)) by (nonlinear_arith)
            requires
                p * den + c == states[0].carry_spec() + num * t,
                c + l * num == den * k + r,
        ;
    } else {
        assert(num * 0 == 0) by (nonlinear_arith);
        assert(0 * den == 0) by (nonlinear_arith);
    }
}

/// Held at the speed the tape was recorded at, with nothing pending and the
/// tape holding the initial lead, the delay is a pure delay over any run:
/// no chunk overflows or starves, each pulls exactly its own length, and what
/// the chunks play is the lead followed by the input, cut to the input's
/// length, so every input sample comes out a fixed number of samples later.
pub proof fn lemma_run_steady_is_pure_delay<T: Copy>(
    states: Seq<VariSpeedDelay<T>>,
    inputs: Seq<Seq<T>>,
    speeds: Seq<u32>,
    reports: Seq<ChunkReport>,
)
    requires
        chunk_run(states, inputs, speeds, reports),
        states[0].schedule_spec().current() == states[0].schedule_spec().recorded(),
        states[0].schedule_spec().pending().len() == 0,
        states[0].tape_spec()@.len() == lead_samples(states[0].config_spec()),
        forall|i: int| 0 <= i < inputs.len() ==> #[trigger] speeds[i]
            == states[0].schedule_spec().current(),
        forall|i: int| 0 <= i < inputs.len() ==> (#[trigger] inputs[i]).len()
            == states[0].config_spec().chunk_size,
    ensures
        forall|i: int|
            0 <= i < inputs.len() ==> !(#[trigger] reports[i]).overflowed && !reports[i].starved
                && reports[i].pulled == inputs[i].len(),
        run_staged(states, inputs.len()) == (states[0].tape_spec()@ + run_input(
            inputs,
            inputs.len(),
        )).take(run_input(inputs, inputs.len()).len() as int),
{
    let s = states[0].schedule_spec().current();
    let lead = states[0].tape_spec()@.len();
    let c = states[0].config_spec();
    lemma_sizes_follow_config(states[0]);
    lemma_div_is_ordered_by_denominator(tape_span(c) as int, c.min_speed as int, c.initial_speed as int);
    lemma_steady_run(states, inputs, speeds, reports, inputs.len(), s, lead);
    lemma_run_is_fifo(states, inputs, speeds, reports, inputs.len());
    lemma_run_staged_len(states, inputs, speeds, reports, inputs.len());
    let out = run_staged(states, inputs.len());
    let all = states[0].tape_spec()@ + run_input(inputs, inputs.len());
    assert(out == (out + states[inputs.len() as int].tape_spec()@).take(out.len() as int));
}

proof fn lemma_steady_run<T: Copy>(
    states: Seq<VariSpeedDelay<T>>,
    inputs: Seq<Seq<T>>,
    speeds: Seq<u32>,
    reports: Seq<ChunkReport>,
    n: nat,
    s: u32,
    lead: nat,
)
    requires
        chunk_run(states, inputs, speeds, reports),
        n <= inputs.len(),
        states[0].schedule_spec().current() == s,
        states[0].schedule_spec().recorded() == s,
        states[0].schedule_spec().pending().len() == 0,
        states[0].tape_spec()@.len() == lead,
        lead + states[0].config_spec().chunk_size <= states[0].tape_spec().cap(),
        forall|i: int| 0 <= i < inputs.len() ==> #[trigger] speeds[i] == s,
        forall|i: int| 0 <= i < inputs.len() ==> (#[trigger] inputs[i]).len()
            == states[0].config_spec().chunk_size,
    ensures
        states[n as int].schedule_spec().current() == s,
        states[n as int].schedule_spec().recorded() == s,
        states[n as int].schedule_spec().pending().len() == 0,
        states[n as int].tape_spec()@.len() == lead,
        states[n as int].tape_spec().cap() == states[0].tape_spec().cap(),
        states[n as int].config_spec() == states[0].config_spec(),
        forall|i: int|
            0 <= i < n ==> !(#[trigger] reports[i]).overflowed && !reports[i].starved
                && reports[i].pulled == inputs[i].len(),
    decreases n,
{
    if n > 0 {
        let m = (n - 1) as int;
        lemma_steady_run(states, inputs, speeds, reports, (n - 1) as nat, s, lead);
        let d0 = states[m];
        let d1 = states[m + 1];
        assert(chunk_step(d0, inputs[m], speeds[m], d1, reports[m]));
        assert(d0.wf());
        let s0 = d0.schedule_spec();
        lemma_held_speed_keeps_ratio(s0, s);
        d0.lemma_speeds_positive();
        lemma_rescaled_same(d0.carry_spec(), s as nat);
        d0.lemma_carry_below_recorded();
        lemma_equal_speeds_pull_len(d0.carry_spec(), inputs[m].len(), s as nat);
        assert(speed_queue(s0, s) =~= Seq::<SpeedChange>::empty());
        assert(d1.schedule_spec().pending() =~= Seq::<SpeedChange>::empty());
    }
}

proof fn lemma_run_staged_len<T: Copy>(
    states: Seq<VariSpeedDelay<T>>,
    inputs: Seq<Seq<T>>,
    speeds: Seq<u32>,
    reports: Seq<ChunkReport>,
    n: nat,
)
    requires
        chunk_run(states, inputs, speeds, reports),
        n <= inputs.len(),
        forall|i: int| 0 <= i < n ==> (#[trigger] reports[i]).pulled == inputs[i].len(),
    ensures
        run_staged(states, n).len() == run_input(inputs, n).len(),
    decreases n,
{
    if n > 0 {
        let m = (n - 1) as int;
        lemma_run_staged_len(states, inputs, speeds, reports, (n - 1) as nat);
        assert(chunk_step(states[m], inputs[m], speeds[m], states[m + 1], reports[m]));
        assert(reports[m].pulled == inputs[m].len());
    }
}

/// A running delay's sizes are those its configuration calls for: the tape
/// holds the delay at the slowest speed plus two blocks, a queued change
/// comes due one span of `tape_seconds * sample_rate * 256` units later, and
/// the queue has room for every change that can be pending. No entry point
/// reallocates: each keeps the configuration and well-formedness.
pub proof fn lemma_sizes_follow_config<T: Copy>(d: VariSpeedDelay<T>)
    requires
        d.wf(),
    ensures
        config_error(d.config_spec()) is None,
        d.tape_spec().cap() == tape_capacity(d.config_spec()),
        d.schedule_spec().span() == tape_span(d.config_spec()),
        d.schedule_spec().queue_cap() == queue_capacity(d.config_spec()),
        d.tape_spec()@.len() <= d.tape_spec().cap(),
        d.schedule_spec().pending().len() < d.schedule_spec().queue_cap(),
{
    d.lemma_sizes();
}

/// Whether the delay can run on a bus with `inputs` input and `outputs`
/// output channels: it runs on one channel in and one out.
pub fn accepts_bus_config(inputs: u32, outputs: u32) -> (r: bool)
    ensures
        r == (inputs == 1 && outputs == 1),
{
    inputs == 1 && outputs == 1
}

} // verus!
