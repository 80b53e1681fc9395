//! A capture ring buffer with five modes, for diagnostics and for background clips.

use vstd::prelude::*;
use crate::delay::Sample;

verus! {

/// A point on the monotonic clock of the process, in microseconds.
pub type Micros = u64;

/// What a sampler does with the samples it is given.
#[derive(Clone, Copy, Debug, PartialEq, Eq, Structural)]
pub enum Mode {
    /// Records every sample.
    Capture,
    /// Records until it is held; a trigger starts a fresh capture.
    AutoCapture,
    /// Frozen after an automatic capture; the next trigger starts a fresh one.
    AutoHold,
    /// Records nothing until a trigger arrives at or after the given time, then captures.
    CaptureAfterTrigger(Micros),
    /// Records nothing.
    Hold,
}

impl Mode {
    /// Whether samples are recorded in this mode.
    pub open spec fn records(self) -> bool {
        self is Capture || self is AutoCapture
    }

    /// Whether this is one of the two automatic modes.
    pub open spec fn is_auto(self) -> bool {
        self is AutoCapture || self is AutoHold
    }

    /// Whether this mode waits for a trigger before it records.
    pub open spec fn waits(self) -> bool {
        self is AutoHold || self is CaptureAfterTrigger
    }

    /// The mode after a trigger at time `now`.
    pub open spec fn triggered(self, now: Micros) -> Mode {
        match self {
            Mode::Capture => Mode::Capture,
            Mode::CaptureAfterTrigger(after) => if now >= after {
                Mode::Capture
            } else {
                Mode::CaptureAfterTrigger(after)
            },
            Mode::AutoHold | Mode::AutoCapture => Mode::AutoCapture,
            Mode::Hold => Mode::Hold,
        }
    }

    /// The mode after a request to freeze: automatic modes go to their own hold.
    pub open spec fn held(self) -> Mode {
        if self.is_auto() {
            Mode::AutoHold
        } else {
            Mode::Hold
        }
    }
}

impl Mode {
    /// The mode after a trigger at time `now`: a capture that waited for this time
    /// begins, and an automatic mode captures.
    pub fn on_trigger(self, now: Micros) -> (next: Mode)
        ensures
            next == self.triggered(now),
    {
        match self {
            Mode::Capture => Mode::Capture,
            Mode::CaptureAfterTrigger(after) => if now >= after {
                Mode::Capture
            } else {
                Mode::CaptureAfterTrigger(after)
            },
            Mode::AutoHold | Mode::AutoCapture => Mode::AutoCapture,
            Mode::Hold => Mode::Hold,
        }
    }

    /// The mode after a request to freeze.
    pub fn on_hold(self) -> (next: Mode)
        ensures
            next == self.held(),
    {
        match self {
            Mode::AutoCapture | Mode::AutoHold => Mode::AutoHold,
            _ => Mode::Hold,
        }
    }
}

/// The last `count` of `samples`, or all of them where there are no more than that.
pub open spec fn latest(samples: Seq<Sample>, count: nat) -> Seq<Sample> {
    if samples.len() <= count {
        samples
    } else {
        samples.skip(samples.len() - count)
    }
}

/// The sum of the squares of `samples`.
pub open spec fn sum_squares(samples: Seq<Sample>) -> nat
    decreases samples.len(),
{
    if samples.len() == 0 {
        0
    } else {
        sum_squares(samples.drop_last()) + (samples.last() * samples.last()) as nat
    }
}

/// The mean of the squares of `samples`, rounded down.
pub open spec fn mean_square(samples: Seq<Sample>) -> nat {
    sum_squares(samples) / samples.len()
}

/// Whether `root` is the square root of `square`, rounded down.
pub open spec fn is_root(root: nat, square: nat) -> bool {
    root * root <= square < (root + 1) * (root + 1)
}

/// The square root of `square`, rounded down.
pub open spec fn root_of(square: nat) -> nat {
    choose|root: nat| is_root(root, square)
}

/// The loudness of `samples`: the root of the mean of their squares, and zero where
/// there are none.
pub open spec fn loudness(samples: Seq<Sample>) -> nat {
    if samples.len() == 0 {
        0
    } else {
        root_of(mean_square(samples))
    }
}

/// What a sampler holds: its samples in the order they came, its capacity and its mode.
pub struct SamplerState {
    pub contents: Seq<Sample>,
    pub capacity: nat,
    pub mode: Mode,
}

impl SamplerState {
    /// An empty sampler of the given capacity, capturing if `live` and held otherwise.
    pub open spec fn empty(capacity: nat, live: bool) -> SamplerState {
        SamplerState {
            contents: Seq::empty(),
            capacity,
            mode: if live {
                Mode::Capture
            } else {
                Mode::Hold
            },
        }
    }

    /// The same sampler in another mode.
    pub open spec fn with_mode(self, mode: Mode) -> SamplerState {
        SamplerState { mode, ..self }
    }

    /// The same sampler without its samples.
    pub open spec fn cleared(self) -> SamplerState {
        SamplerState { contents: Seq::empty(), ..self }
    }

    /// The sampler after it was given `sample`: in a recording mode it holds the latest
    /// samples up to its capacity, `sample` last; in any other mode nothing changes.
    pub open spec fn sampled(self, sample: Sample) -> SamplerState {
        if self.mode.records() {
            SamplerState { contents: latest(self.contents.push(sample), self.capacity), ..self }
        } else {
            self
        }
    }

    /// The sampler after it was given each of `samples` in turn.
    pub open spec fn sampled_all(self, samples: Seq<Sample>) -> SamplerState
        decreases samples.len(),
    {
        if samples.len() == 0 {
            self
        } else {
            self.sampled_all(samples.drop_last()).sampled(samples.last())
        }
    }

    /// The sampler after a trigger at time `now`: the mode moves on, and an automatic
    /// mode starts from an empty buffer.
    pub open spec fn triggered(self, now: Micros) -> SamplerState {
        SamplerState {
            contents: if self.mode.is_auto() {
                Seq::empty()
            } else {
                self.contents
            },
            mode: self.mode.triggered(now),
            ..self
        }
    }

    /// The sampler after a request to freeze.
    pub open spec fn held(self) -> SamplerState {
        self.with_mode(self.mode.held())
    }

    /// Whether the sampler holds as many samples as it can.
    pub open spec fn is_full(self) -> bool {
        self.contents.len() == self.capacity
    }
}

/// A bounded ring buffer that keeps the most recent samples of one channel.
pub struct Sampler {
    data: Vec<Sample>,
    max_size: usize,
    write_index: usize,
    read_index: usize,
    mode: Mode,
}

impl View for Sampler {
    type V = SamplerState;

    closed spec fn view(&self) -> SamplerState {
        SamplerState {
            contents: self.data@.skip(self.read_index as int) + self.data@.take(
                self.read_index as int,
            ),
            capacity: self.max_size as nat,
            mode: self.mode,
        }
    }
}

impl Clone for Sampler {
    /// A sampler of its own that holds the same samples in the same mode.
    fn clone(&self) -> (copy: Sampler)
        ensures
            copy@ == self@,
            self.wf() ==> copy.wf(),
    {
        let copy = Sampler {
            data: self.data.clone(),
            max_size: self.max_size,
            write_index: self.write_index,
            read_index: self.read_index,
            mode: self.mode,
        };
        assert(copy.data@ =~= self.data@);
        copy
    }
}

impl Sampler {
    /// The store is no longer than the capacity; while it grows the oldest sample is its
    /// first, and once it is full both cursors stand on the oldest sample.
    pub closed spec fn wf(&self) -> bool {
        &&& self.data.len() <= self.max_size
        &&& self.data.len() < self.max_size ==> self.read_index == 0 && self.write_index
            == self.data.len()
        &&& self.data.len() == self.max_size ==> self.read_index == self.write_index
        &&& self.max_size > 0 ==> self.read_index < self.max_size
        &&& self.max_size == 0 ==> self.read_index == 0
    }

    /// A well-formed sampler never holds more than its capacity.
    pub proof fn lemma_within_capacity(&self)
        requires
            self.wf(),
        ensures
            self@.contents.len() <= self@.capacity,
    {
    }

    /// An empty sampler for at most `max_size` samples, capturing if `live`.
    pub fn new(max_size: usize, live: bool) -> (sampler: Sampler)
        ensures
            sampler.wf(),
            sampler@ == SamplerState::empty(max_size as nat, live),
    {
        let sampler = Sampler {
            data: Vec::with_capacity(max_size),
            max_size,
            write_index: 0,
            read_index: 0,
            mode: if live {
                Mode::Capture
            } else {
                Mode::Hold
            },
        };
        assert(sampler@.contents =~= Seq::empty());
        sampler
    }

    /// Forgets every sample; the mode stays.
    pub fn clear(&mut self)
        requires
            old(self).wf(),
        ensures
            final(self).wf(),
            final(self)@ == old(self)@.cleared(),
            final(self)@.contents.len() == 0,
    {
        self.data.clear();
        self.write_index = 0;
        self.read_index = 0;
        assert(self@.contents =~= Seq::empty());
    }

    /// Records nothing until a trigger arrives at or after `after`.
    pub fn acquire_after(&mut self, after: Micros)
        requires
            old(self).wf(),
        ensures
            final(self).wf(),
            final(self)@ == old(self)@.with_mode(Mode::CaptureAfterTrigger(after)),
    {
        self.mode = Mode::CaptureAfterTrigger(after);
    }

    /// Captures until held, and afresh on every trigger.
    pub fn auto(&mut self)
        requires
            old(self).wf(),
        ensures
            final(self).wf(),
            final(self)@ == old(self)@.with_mode(Mode::AutoCapture),
    {
        self.mode = Mode::AutoCapture;
    }

    /// Whether no sample is held.
    pub fn is_empty(&self) -> (empty: bool)
        requires
            self.wf(),
        ensures
            empty == (self@.contents.len() == 0),
    {
        self.data.len() == 0
    }

    /// Whether the mode is the plain hold.
    pub fn is_in_hold(&self) -> (held: bool)
        ensures
            held == (self@.mode is Hold),
    {
        matches!(self.mode, Mode::Hold)
    }

    /// Whether the mode is one of the two automatic ones.
    pub fn is_in_auto(&self) -> (auto: bool)
        ensures
            auto == self@.mode.is_auto(),
    {
        matches!(self.mode, Mode::AutoCapture | Mode::AutoHold)
    }

    /// Whether the mode is the hold of an automatic capture.
    pub fn is_in_auto_hold(&self) -> (held: bool)
        ensures
            held == (self@.mode is AutoHold),
    {
        matches!(self.mode, Mode::AutoHold)
    }

    /// Freezes the sampler: an automatic mode goes to its own hold, any other to the
    /// plain one.
    pub fn hold_or_auto_hold(&mut self)
        requires
            old(self).wf(),
        ensures
            final(self).wf(),
            final(self)@ == old(self)@.held(),
    {
        self.mode = self.mode.on_hold();
    }

    /// Records nothing from now on.
    pub fn hold(&mut self)
        requires
            old(self).wf(),
        ensures
            final(self).wf(),
            final(self)@ == old(self)@.with_mode(Mode::Hold),
    {
        self.mode = Mode::Hold;
    }

    /// Records every sample from now on.
    pub fn live(&mut self)
        requires
            old(self).wf(),
        ensures
            final(self).wf(),
            final(self)@ == old(self)@.with_mode(Mode::Capture),
    {
        self.mode = Mode::Capture;
    }

    /// Whether the sampler holds as many samples as it can.
    pub fn is_full(&self) -> (full: bool)
        requires
            self.wf(),
        ensures
            full == self@.is_full(),
    {
        self.data.len() == self.max_size
    }

    /// Reacts to a trigger at time `now`: a capture that waited for this time begins, and
    /// an automatic capture starts afresh from an empty buffer.
    pub fn trigger(&mut self, now: Micros)
        requires
            old(self).wf(),
        ensures
            final(self).wf(),
            final(self)@ == old(self)@.triggered(now),
    {
        if matches!(self.mode, Mode::AutoHold | Mode::AutoCapture) {
            self.clear();
        }
        self.mode = self.mode.on_trigger(now);
    }

    /// Whether the sampler waits for a trigger before it records.
    pub fn is_waiting(&self) -> (waiting: bool)
        ensures
            waiting == self@.mode.waits(),
    {
        match self.mode {
            Mode::Capture | Mode::Hold => false,
            Mode::AutoCapture => false,
            Mode::AutoHold => true,
            Mode::CaptureAfterTrigger(_) => true,
        }
    }

    /// Takes `sample` in if the mode records; once the buffer is full the oldest sample
    /// makes room for it.
    pub fn sample(&mut self, sample: Sample)
        requires
            old(self).wf(),
        ensures
            final(self).wf(),
            final(self)@ == old(self)@.sampled(sample),
    {
        if matches!(self.mode, Mode::Capture | Mode::AutoCapture) {
            if self.max_size == 0 {
                assert(self@.contents =~= latest(old(self)@.contents.push(sample), 0));
            } else if self.data.len() == self.max_size {
                self.data[self.write_index] = sample;
                self.write_index = if self.write_index + 1 == self.max_size {
                    0
                } else {
                    self.write_index + 1
                };
                self.read_index = self.write_index;
                assert(self@.contents =~= latest(
                    old(self)@.contents.push(sample),
                    self.max_size as nat,
                ));
            } else {
                self.data.push(sample);
                self.write_index = if self.write_index + 1 == self.max_size {
                    0
                } else {
                    self.write_index + 1
                };
                assert(self@.contents =~= latest(
                    old(self)@.contents.push(sample),
                    self.max_size as nat,
                ));
            }
        }
    }

    /// The samples held, oldest first.
    pub fn get(&self) -> (samples: Vec<Sample>)
        requires
            self.wf(),
        ensures
            samples@ == self@.contents,
    {
        let mut samples: Vec<Sample> = Vec::with_capacity(self.data.len());
        let mut i: usize = self.read_index;
        while i < self.data.len()
            invariant
                self.read_index <= i <= self.data.len() || (i == self.read_index
                    && self.data.len() == 0),
                self.read_index <= self.data.len(),
                samples@ == self.data@.subrange(self.read_index as int, i as int),
            decreases self.data.len() - i,
        {
            samples.push(self.data[i]);
            i += 1;
            assert(samples@ =~= self.data@.subrange(self.read_index as int, i as int));
        }
        assert(samples@ =~= self.data@.skip(self.read_index as int));
        let mut j: usize = 0;
        while j < self.read_index
            invariant
                j <= self.read_index <= self.data.len(),
                samples@ == self.data@.skip(self.read_index as int) + self.data@.take(j as int),
            decreases self.read_index - j,
        {
            samples.push(self.data[j]);
            j += 1;
            assert(samples@ =~= self.data@.skip(self.read_index as int) + self.data@.take(
                j as int,
            ));
        }
        samples
    }

    /// The root of the mean of the squares of the samples held, rounded down.
    pub fn rms(&self) -> (root: u32)
        requires
            self.wf(),
            self@.contents.len() > 0,
        ensures
            is_root(root as nat, mean_square(self@.contents)),
            root == loudness(self@.contents),
    {
        let samples = self.get();
        let mut total: u128 = 0;
        let mut i: usize = 0;
        while i < samples.len()
            invariant
                i <= samples.len(),
                total == sum_squares(samples@.take(i as int)),
                total <= i * 0x4000_0000_0000_0000,
            decreases samples.len() - i,
        {
            let size: u64 = if samples[i] >= 0 {
                samples[i] as u64
            } else {
                (-(samples[i] as i64)) as u64
            };
            assert(size * size == samples[i as int] * samples[i as int] && size * size
                <= 0x4000_0000_0000_0000) by (nonlinear_arith)
                requires
                    size == samples[i as int] || size == -samples[i as int],
                    size <= 0x8000_0000,
            ;
            assert(samples@.take(i + 1).drop_last() =~= samples@.take(i as int));
            total = total + (size as u128) * (size as u128);
            i += 1;
        }
        assert(samples@.take(samples.len() as int) =~= samples@);
        let mean: u128 = total / (samples.len() as u128);
        assert(mean <= 0x4000_0000_0000_0000) by (nonlinear_arith)
            requires
                mean == total / (samples.len() as u128),
                total <= samples.len() * 0x4000_0000_0000_0000,
                samples.len() > 0,
        ;
        square_root(mean as u64)
    }
}

/// The square root of `square`, rounded down.
pub fn square_root(square: u64) -> (root: u32)
    requires
        square <= 0x4000_0000_0000_0000,
    ensures
        is_root(root as nat, square as nat),
        root == root_of(square as nat),
{
    let mut low: u64 = 0;
    let mut high: u64 = 0x8000_0001;
    while high - low > 1
        invariant
            low < high <= 0x8000_0001,
            low * low <= square < high * high,
        decreases high - low,
    {
        let middle: u64 = low + (high - low) / 2;
        assert(middle * middle <= 0x8000_0001 * 0x8000_0001) by (nonlinear_arith)
            requires
                middle <= 0x8000_0001,
        ;
        if middle * middle <= square {
            low = middle;
        } else {
            high = middle;
        }
    }
    assert(low <= 0x8000_0000) by (nonlinear_arith)
        requires
            low * low <= square,
            square <= 0x4000_0000_0000_0000,
    ;
    proof {
        assert(is_root(low as nat, square as nat));
        lemma_root_is_unique(low as nat, root_of(square as nat), square as nat);
    }
    low as u32
}

/// Every number has a square root rounded down.
pub proof fn lemma_root_exists(square: nat)
    ensures
        is_root(root_of(square), square),
    decreases square,
{
    if square == 0 {
        assert(is_root(0, 0)) by (nonlinear_arith);
    } else {
        lemma_root_exists((square - 1) as nat);
        let below = root_of((square - 1) as nat);
        if (below + 1) * (below + 1) <= square {
            assert(is_root(below + 1, square)) by (nonlinear_arith)
                requires
                    below * below <= square - 1 < (below + 1) * (below + 1),
                    (below + 1) * (below + 1) <= square,
            ;
        } else {
            assert(is_root(below, square)) by (nonlinear_arith)
                requires
                    below * below <= square - 1 < (below + 1) * (below + 1),
                    (below + 1) * (below + 1) > square,
            ;
        }
    }
}

/// A number has one square root rounded down, and no other.
pub proof fn lemma_root_is_unique(first: nat, second: nat, square: nat)
    requires
        is_root(first, square),
        is_root(second, square),
    ensures
        first == second,
{
    assert(first == second) by (nonlinear_arith)
        requires
            first * first <= square < (first + 1) * (first + 1),
            second * second <= square < (second + 1) * (second + 1),
    ;
}

/// A recording sampler is a window on the newest samples: after any run of samples it
/// holds the last ones of what it held and what came, as many as its capacity allows and
/// in the order they came. A sampler that started empty and took more samples than its
/// capacity holds exactly the last `capacity` of them.
pub proof fn lemma_sampler_keeps_latest(state: SamplerState, samples: Seq<Sample>)
    requires
        state.mode.records(),
        state.contents.len() <= state.capacity,
    ensures
        state.sampled_all(samples).contents == latest(state.contents + samples, state.capacity),
        state.sampled_all(samples).capacity == state.capacity,
        state.sampled_all(samples).mode == state.mode,
        state.contents.len() == 0 && samples.len() > state.capacity ==> state.sampled_all(
            samples,
        ).contents == samples.skip(samples.len() - state.capacity),
    decreases samples.len(),
{
    if samples.len() == 0 {
        assert(state.contents + samples =~= state.contents);
    } else {
        lemma_sampler_keeps_latest(state, samples.drop_last());
        let before = state.contents + samples.drop_last();
        assert(before.push(samples.last()) =~= state.contents + samples);
        assert(latest(latest(before, state.capacity).push(samples.last()), state.capacity)
            =~= latest(before.push(samples.last()), state.capacity));
    }
    if state.contents.len() == 0 {
        assert(state.contents + samples =~= samples);
    }
}

/// A sampler that does not record keeps what it holds, whatever it is given.
pub proof fn lemma_held_sampler_ignores(state: SamplerState, samples: Seq<Sample>)
    requires
        !state.mode.records(),
    ensures
        state.sampled_all(samples) == state,
    decreases samples.len(),
{
    if samples.len() > 0 {
        lemma_held_sampler_ignores(state, samples.drop_last());
    }
}

} // verus!
