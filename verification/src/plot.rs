//! Thins a captured signal out for drawing: the range of the samples between marks.

use vstd::prelude::*;
use crate::delay::Sample;

verus! {

/// The range of the samples that end at the mark `at`.
#[derive(Clone, Copy, Debug, PartialEq, Eq, Structural)]
pub struct Extremes {
    pub at: usize,
    pub low: Sample,
    pub high: Sample,
}

/// The lowest of `samples` and zero.
pub open spec fn lowest(samples: Seq<Sample>) -> Sample
    decreases samples.len(),
{
    if samples.len() == 0 {
        0
    } else if samples.last() < lowest(samples.drop_last()) {
        samples.last()
    } else {
        lowest(samples.drop_last())
    }
}

/// The highest of `samples` and zero.
pub open spec fn highest(samples: Seq<Sample>) -> Sample
    decreases samples.len(),
{
    if samples.len() == 0 {
        0
    } else if samples.last() > highest(samples.drop_last()) {
        samples.last()
    } else {
        highest(samples.drop_last())
    }
}

/// The stretch of `samples` between the marks `from` and `to`: it begins at `from`, or at
/// the last sample where `from` lies beyond it, and ends before `to`, or with the last
/// sample. It is empty where that leaves nothing.
pub open spec fn stretch(samples: Seq<Sample>, from: usize, to: usize) -> Seq<Sample> {
    let begin = if from < samples.len() {
        from as int
    } else {
        samples.len() - 1
    };
    let end = if to < samples.len() {
        to as int
    } else {
        samples.len() as int
    };
    if 0 <= begin <= end {
        samples.subrange(begin, end)
    } else {
        Seq::empty()
    }
}

/// The range of the samples that end at the mark with the given `place` among `marks`.
pub open spec fn extremes_at(samples: Seq<Sample>, marks: Seq<usize>, place: int) -> Extremes {
    let between = stretch(samples, marks[place - 1], marks[place]);
    Extremes { at: marks[place], low: lowest(between), high: highest(between) }
}

/// The lowest and the highest of a stretch lie on either side of zero and bound every
/// sample of the stretch.
pub proof fn lemma_extremes_bound(samples: Seq<Sample>, index: int)
    requires
        0 <= index < samples.len(),
    ensures
        lowest(samples) <= 0 <= highest(samples),
        lowest(samples) <= samples[index] <= highest(samples),
    decreases samples.len(),
{
    lemma_extremes_straddle_zero(samples);
    if index < samples.len() - 1 {
        lemma_extremes_bound(samples.drop_last(), index);
    } else {
        lemma_extremes_straddle_zero(samples.drop_last());
    }
}

/// The lowest of any samples is zero or less, and the highest zero or more.
pub proof fn lemma_extremes_straddle_zero(samples: Seq<Sample>)
    ensures
        lowest(samples) <= 0 <= highest(samples),
    decreases samples.len(),
{
    if samples.len() > 0 {
        lemma_extremes_straddle_zero(samples.drop_last());
    }
}

/// For every mark but the first, the range of the samples from the mark before it up to
/// it. Without samples there is nothing to draw.
pub fn sample_min_max(marks: &Vec<usize>, samples: &Vec<Sample>) -> (drawn: Vec<Extremes>)
    ensures
        samples.len() == 0 || marks.len() == 0 ==> drawn.len() == 0,
        samples.len() > 0 && marks.len() > 0 ==> drawn.len() == marks.len() - 1,
        forall|k: int|
            0 <= k < drawn.len() ==> #[trigger] drawn[k] == extremes_at(samples@, marks@, k + 1),
{
    let mut drawn: Vec<Extremes> = Vec::new();
    if samples.len() == 0 || marks.len() == 0 {
        return drawn;
    }
    let mut place: usize = 1;
    while place < marks.len()
        invariant
            1 <= place <= marks.len(),
            samples.len() > 0,
            drawn.len() == place - 1,
            forall|k: int|
                0 <= k < drawn.len() ==> #[trigger] drawn[k] == extremes_at(
                    samples@,
                    marks@,
                    k + 1,
                ),
        decreases marks.len() - place,
    {
        let from: usize = marks[place - 1];
        let to: usize = marks[place];
        let begin: usize = if from < samples.len() {
            from
        } else {
            samples.len() - 1
        };
        let end: usize = if to < samples.len() {
            to
        } else {
            samples.len()
        };
        let mut low: Sample = 0;
        let mut high: Sample = 0;
        if begin <= end {
            let ghost between = samples@.subrange(begin as int, end as int);
            let mut i: usize = begin;
            assert(between.take(0) =~= Seq::empty());
            while i < end
                invariant
                    begin <= i <= end <= samples.len(),
                    between == samples@.subrange(begin as int, end as int),
                    low == lowest(between.take(i - begin)),
                    high == highest(between.take(i - begin)),
                decreases end - i,
            {
                assert(between.take(i + 1 - begin).drop_last() =~= between.take(i - begin));
                if samples[i] < low {
                    low = samples[i];
                }
                if samples[i] > high {
                    high = samples[i];
                }
                i += 1;
            }
            assert(between.take(end - begin) =~= between);
        }
        drawn.push(Extremes { at: to, low, high });
        place += 1;
    }
    drawn
}

} // verus!
