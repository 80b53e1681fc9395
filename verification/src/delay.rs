//! A fixed-length delay line: the latency element of the signal chain.

use vstd::prelude::*;

verus! {

/// One audio sample, as a signed fixed-point number.
pub type Sample = i32;

/// The sample that stands for silence.
pub const SILENCE: Sample = 0;

/// A line of `length` samples of silence.
pub open spec fn silent(length: nat) -> Seq<Sample> {
    Seq::new(length, |i: int| SILENCE)
}

/// What leaves a delay line holding `line` while `inputs` enter it, one output per input.
pub open spec fn outputs(line: Seq<Sample>, inputs: Seq<Sample>) -> Seq<Sample> {
    (line + inputs).take(inputs.len() as int)
}

/// What a delay line holding `line` holds once `inputs` have entered it.
pub open spec fn remaining(line: Seq<Sample>, inputs: Seq<Sample>) -> Seq<Sample> {
    (line + inputs).skip(inputs.len() as int)
}

/// A circular buffer that hands every sample back a fixed number of steps after it came in.
pub struct Delay {
    buffer: Vec<Sample>,
    index: usize,
    filled: bool,
}

impl View for Delay {
    type V = Seq<Sample>;

    /// The samples waiting in the line, the next one to leave first.
    closed spec fn view(&self) -> Seq<Sample> {
        self.buffer@.skip(self.index as int) + self.buffer@.take(self.index as int)
    }
}

impl Delay {
    /// The line is not empty, the cursor is inside it, and until the first lap is over
    /// every slot from the cursor on still holds silence.
    pub closed spec fn wf(&self) -> bool {
        &&& self.buffer.len() > 0
        &&& self.index < self.buffer.len()
        &&& !self.filled ==> forall|i: int|
            self.index <= i < self.buffer.len() ==> self.buffer[i] == SILENCE
    }

    /// A well-formed line always holds at least one sample.
    pub proof fn lemma_length_positive(&self)
        requires
            self.wf(),
        ensures
            self@.len() > 0,
    {
    }

    /// A silent line of `delay` samples.
    pub fn new(delay: usize) -> (line: Delay)
        requires
            delay > 0,
        ensures
            line.wf(),
            line@ == silent(delay as nat),
    {
        let line = Delay { buffer: vec![SILENCE; delay], index: 0, filled: false };
        assert(line@ =~= silent(delay as nat));
        line
    }

    /// Takes `sample` in and hands back the sample that came in one line length ago,
    /// or silence while the line has not filled yet.
    pub fn process(&mut self, sample: Sample) -> (out: Sample)
        requires
            old(self).wf(),
        ensures
            final(self).wf(),
            out == old(self)@[0],
            final(self)@ == old(self)@.drop_first().push(sample),
            seq![out] == outputs(old(self)@, seq![sample]),
            final(self)@ == remaining(old(self)@, seq![sample]),
    {
        let out: Sample = if self.filled {
            self.buffer[self.index]
        } else {
            SILENCE
        };
        self.buffer[self.index] = sample;
        self.index += 1;
        if self.index == self.buffer.len() {
            self.index = 0;
            self.filled = true;
        }
        assert(self@ =~= old(self)@.drop_first().push(sample));
        assert(seq![out] =~= outputs(old(self)@, seq![sample]));
        assert(self@ =~= remaining(old(self)@, seq![sample]));
        out
    }
}

/// A delay line is a first-in, first-out queue of fixed depth: a line of `length` samples
/// that starts silent gives silence for its first `length` outputs, and from then on the
/// input of `length` steps earlier.
pub proof fn lemma_delay_is_fifo(length: nat, inputs: Seq<Sample>, n: int)
    requires
        0 <= n < inputs.len(),
    ensures
        outputs(silent(length), inputs).len() == inputs.len(),
        n < length ==> outputs(silent(length), inputs)[n] == SILENCE,
        n >= length ==> outputs(silent(length), inputs)[n] == inputs[n - length],
        remaining(silent(length), inputs).len() == length,
{
}

/// Feeding a line `first` and then `second` is feeding it the two in one run: the outputs
/// follow each other and the line ends up the same.
pub proof fn lemma_delay_runs_compose(line: Seq<Sample>, first: Seq<Sample>, second: Seq<Sample>)
    ensures
        outputs(line, first + second) == outputs(line, first) + outputs(
            remaining(line, first),
            second,
        ),
        remaining(line, first + second) == remaining(remaining(line, first), second),
{
    assert(outputs(line, first + second) =~= outputs(line, first) + outputs(
        remaining(line, first),
        second,
    ));
    assert(remaining(line, first + second) =~= remaining(remaining(line, first), second));
}

} // verus!
