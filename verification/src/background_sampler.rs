//! Cuts the incoming stereo signal into clips of fixed length, keeps the most recent
//! ones and offers the quietest of them as background noise.

use vstd::prelude::*;
use vstd::set_lib::set_int_range;
use rand::rngs::StdRng;
use rand::{Rng, SeedableRng};
use std::collections::BTreeMap;
use crate::delay::Sample;
use crate::sampler::{Mode, Sampler, SamplerState, loudness};

verus! {

/// The number by which a clip is known; later clips have larger ones.
pub type ClipId = usize;

/// The bytes from which the random number generator starts.
pub type Seed = [u8; 32];

/// One sample of each of the two channels.
pub type StereoSample = (Sample, Sample);

/// A stretch of the two channels, with its loudness.
pub struct Clip {
    pub sample_a: Sampler,
    pub sample_b: Sampler,
    pub rms: u32,
}

/// What a clip holds.
pub struct ClipState {
    pub sample_a: SamplerState,
    pub sample_b: SamplerState,
    pub rms: u32,
}

impl View for Clip {
    type V = ClipState;

    open spec fn view(&self) -> ClipState {
        ClipState { sample_a: self.sample_a@, sample_b: self.sample_b@, rms: self.rms }
    }
}

impl ClipState {
    /// Both channels capture into buffers of one capacity and hold equally many samples.
    pub open spec fn wf(self) -> bool {
        &&& self.sample_a.mode == Mode::Capture
        &&& self.sample_b.mode == Mode::Capture
        &&& self.sample_a.capacity == self.sample_b.capacity
        &&& self.sample_a.contents.len() == self.sample_b.contents.len()
        &&& self.sample_a.contents.len() <= self.sample_a.capacity
    }

    /// An empty clip for `clip_length` samples per channel.
    pub open spec fn fresh(clip_length: nat) -> ClipState {
        ClipState {
            sample_a: SamplerState::empty(clip_length, true),
            sample_b: SamplerState::empty(clip_length, true),
            rms: 0,
        }
    }

    /// The clip after one more sample of each channel; its loudness is not yet taken.
    pub open spec fn sampled(self, sample: StereoSample) -> ClipState {
        ClipState {
            sample_a: self.sample_a.sampled(sample.0),
            sample_b: self.sample_b.sampled(sample.1),
            rms: self.rms,
        }
    }

    /// The clip with its loudness taken: that of the louder channel.
    pub open spec fn measured(self) -> ClipState {
        let loud_a = loudness(self.sample_a.contents);
        let loud_b = loudness(self.sample_b.contents);
        ClipState {
            rms: if loud_a >= loud_b {
                loud_a as u32
            } else {
                loud_b as u32
            },
            ..self
        }
    }
}

/// The first channel of `samples`.
pub open spec fn lefts(samples: Seq<StereoSample>) -> Seq<Sample> {
    Seq::new(samples.len(), |i: int| samples[i].0)
}

/// The second channel of `samples`.
pub open spec fn rights(samples: Seq<StereoSample>) -> Seq<Sample> {
    Seq::new(samples.len(), |i: int| samples[i].1)
}

/// A clip for `clip_length` samples that has taken `samples` and is not measured yet.
pub open spec fn clip_taking(samples: Seq<StereoSample>, clip_length: nat) -> ClipState {
    ClipState {
        sample_a: SamplerState {
            contents: lefts(samples),
            capacity: clip_length,
            mode: Mode::Capture,
        },
        sample_b: SamplerState {
            contents: rights(samples),
            capacity: clip_length,
            mode: Mode::Capture,
        },
        rms: 0,
    }
}

/// The finished clip that holds exactly `samples`.
pub open spec fn clip_of(samples: Seq<StereoSample>) -> ClipState {
    clip_taking(samples, samples.len()).measured()
}

impl Clip {
    /// Both samplers are well formed, and so is what they hold together.
    pub open spec fn wf(&self) -> bool {
        &&& self.sample_a.wf()
        &&& self.sample_b.wf()
        &&& self@.wf()
    }
}

/// What `pick` holds, where it is a clip.
pub open spec fn picked(pick: Option<Clip>) -> Option<ClipState> {
    match pick {
        Some(clip) => Some(clip@),
        None => None,
    }
}

impl Clone for Clip {
    /// A clip of its own that holds the same samples.
    fn clone(&self) -> (copy: Clip)
        ensures
            copy@ == self@,
            self.wf() ==> copy.wf(),
    {
        Clip { sample_a: self.sample_a.clone(), sample_b: self.sample_b.clone(), rms: self.rms }
    }
}

/// Whether, of the clips with loudness `levels`, the one at `first` is offered before the
/// one at `second`: the quieter of two goes first, and of two equally loud ones the older.
pub open spec fn quieter(levels: Seq<u32>, first: int, second: int) -> bool {
    levels[first] < levels[second] || (levels[first] == levels[second] && first < second)
}

/// The clips that are offered before the one at `index`.
pub open spec fn quieter_than(levels: Seq<u32>, index: int) -> Set<int> {
    Set::new(|other: int| 0 <= other < levels.len() && quieter(levels, other, index))
}

/// The place of the clip at `index` among all of them, the quietest at place zero.
pub open spec fn rank_of(levels: Seq<u32>, index: int) -> nat {
    quieter_than(levels, index).len()
}

/// The loudness of each of `clips`.
pub open spec fn levels_of(clips: Seq<ClipState>) -> Seq<u32> {
    Seq::new(clips.len(), |i: int| clips[i].rms)
}

/// What a background sampler holds: the clip being taken, if any, and the finished
/// clips, oldest first. The finished clips carry the numbers below `next_id`, in order.
pub struct BackgroundState {
    pub current: Option<ClipState>,
    pub clip_length: nat,
    pub num_clips: nat,
    pub next_id: nat,
    pub clips: Seq<ClipState>,
}

impl BackgroundState {
    /// A sampler that holds no clip yet and has begun its first.
    pub open spec fn started(num_clips: nat, clip_length: nat) -> BackgroundState {
        BackgroundState {
            current: Some(ClipState::fresh(clip_length)),
            clip_length,
            num_clips,
            next_id: 0,
            clips: Seq::empty(),
        }
    }

    /// The number of the finished clip at `index`.
    pub open spec fn id_of(self, index: int) -> int {
        self.next_id - self.clips.len() + index
    }

    /// The sampler without its unfinished clip.
    pub open spec fn paused(self) -> BackgroundState {
        BackgroundState { current: None, ..self }
    }

    /// The sampler taking a clip: the one it was taking, or else a new one.
    pub open spec fn resumed(self) -> BackgroundState {
        if self.current is None {
            BackgroundState { current: Some(ClipState::fresh(self.clip_length)), ..self }
        } else {
            self
        }
    }

    /// The finished clips once `clip` has joined them: it is the newest, and where that
    /// makes more than `num_clips` the oldest has left.
    pub open spec fn retained(self, clip: ClipState) -> Seq<ClipState> {
        let all = self.clips.push(clip);
        if all.len() > self.num_clips {
            all.drop_first()
        } else {
            all
        }
    }

    /// The sampler after one more sample of each channel. A paused sampler ignores it.
    /// The clip being taken grows by it, and once that clip is full it is measured,
    /// numbered and kept, and a new one is begun.
    pub open spec fn sampled(self, sample: StereoSample) -> BackgroundState {
        match self.current {
            None => self,
            Some(clip) => {
                let grown = clip.sampled(sample);
                if grown.sample_a.is_full() {
                    BackgroundState {
                        current: Some(ClipState::fresh(self.clip_length)),
                        next_id: self.next_id + 1,
                        clips: self.retained(grown.measured()),
                        ..self
                    }
                } else {
                    BackgroundState { current: Some(grown), ..self }
                }
            },
        }
    }

    /// The sampler after each of `samples` in turn.
    pub open spec fn sampled_all(self, samples: Seq<StereoSample>) -> BackgroundState
        decreases samples.len(),
    {
        if samples.len() == 0 {
            self
        } else {
            self.sampled_all(samples.drop_last()).sampled(samples.last())
        }
    }

    /// Something that may come out when a clip among the `limit` quietest is asked for.
    pub open spec fn any_offer(self, limit: nat) -> Option<ClipState> {
        choose|pick: Option<ClipState>| self.offers(limit, pick)
    }

    /// Whether `pick` may come out when a clip among the `limit` quietest is asked for:
    /// nothing where no clip is kept, and else a kept clip with fewer than `limit` clips
    /// before it.
    pub open spec fn offers(self, limit: nat, pick: Option<ClipState>) -> bool {
        match pick {
            None => self.clips.len() == 0,
            Some(clip) => exists|index: int|
                0 <= index < self.clips.len() && self.clips[index] == clip && #[trigger] rank_of(
                    levels_of(self.clips),
                    index,
                ) < limit,
        }
    }
}

/// Declares `rand::rngs::StdRng`, the random number generator of the `rand` crate, as a
/// type whose inside is not looked at.
#[verifier::external_type_specification]
#[verifier::external_body]
pub struct ExStdRng(rand::rngs::StdRng);

/// Calls `rand::SeedableRng::from_seed` for `StdRng`: the generator whose state is built
/// from the 32 bytes of `seed`. Nothing is claimed of it.
#[verifier::external_body]
fn seeded_rng(seed: Seed) -> StdRng {
    StdRng::from_seed(seed)
}

/// Calls `rand::Rng::gen_range` with the range from zero up to, and without, `bound`.
/// The claim is that of the crate's documentation: the number lies in the range. Which
/// number it is, is left open. An empty range makes the call panic, so `bound` is not zero.
#[verifier::external_body]
fn random_below(rng: &mut StdRng, bound: usize) -> (index: usize)
    requires
        bound > 0,
    ensures
        index < bound,
{
    rng.gen_range(0..bound)
}

/// Keeps the latest clips of the background and picks among the quietest.
pub struct BackgroundSampler {
    current_clip: Option<Clip>,
    clip_length: usize,
    num_clips: usize,
    clip_id_gen: ClipId,
    clips: BTreeMap<ClipId, Clip>,
    rng: StdRng,
}

impl View for BackgroundSampler {
    type V = BackgroundState;

    closed spec fn view(&self) -> BackgroundState {
        BackgroundState {
            current: match self.current_clip {
                Some(clip) => Some(clip@),
                None => None,
            },
            clip_length: self.clip_length as nat,
            num_clips: self.num_clips as nat,
            next_id: self.clip_id_gen as nat,
            clips: Seq::new(
                self.clips@.len(),
                |i: int| self.clips@[(self.clip_id_gen - self.clips@.len() + i) as usize]@,
            ),
        }
    }
}

impl BackgroundSampler {
    /// The kept clips carry the numbers just below the next one to give out, there are no
    /// more of them than allowed, and every clip is well formed; the clip being taken has
    /// room for `clip_length` samples.
    pub closed spec fn wf(&self) -> bool {
        &&& self.clips@.dom().finite()
        &&& self.clips@.len() <= self.clip_id_gen
        &&& self.clips@.len() <= self.num_clips
        &&& forall|id: usize|
            self.clips@.contains_key(id) <==> self.clip_id_gen - self.clips@.len() <= id
                < self.clip_id_gen
        &&& forall|id: usize| #[trigger]
            self.clips@.contains_key(id) ==> self.clips@[id].wf()
        &&& match self.current_clip {
            Some(clip) => clip.wf() && clip@.sample_a.capacity == self.clip_length,
            None => true,
        }
    }

    /// What follows for the model from a well-formed sampler.
    pub proof fn lemma_wf_state(&self)
        requires
            self.wf(),
        ensures
            self@.clips.len() <= self@.num_clips,
            self@.clips.len() <= self@.next_id,
            self@.next_id <= usize::MAX,
            forall|i: int| 0 <= i < self@.clips.len() ==> (#[trigger] self@.clips[i]).wf(),
            self@.current is Some ==> self@.current.unwrap().wf(),
            self@.current is Some ==> self@.current.unwrap().sample_a.capacity
                == self@.clip_length,
    {
        assert forall|i: int| 0 <= i < self@.clips.len() implies (#[trigger] self@.clips[i]).wf() by {
            let id = (self.clip_id_gen - self.clips@.len() + i) as usize;
            assert(self.clips@.contains_key(id));
        }
    }

    /// A sampler that keeps at most `num_clips` clips of `clip_length` samples, and has
    /// begun its first. Its choices among clips start from `seed`.
    pub fn new(num_clips: usize, clip_length: usize, seed: Seed) -> (sampler: BackgroundSampler)
        ensures
            sampler.wf(),
            sampler@ == BackgroundState::started(num_clips as nat, clip_length as nat),
    {
        let mut sampler = BackgroundSampler {
            current_clip: None,
            clip_length,
            num_clips,
            clip_id_gen: 0,
            clips: BTreeMap::new(),
            rng: seeded_rng(seed),
        };
        assert(sampler@.clips =~= Seq::empty());
        sampler.resume();
        sampler
    }

    /// Takes one sample of each channel into the clip being taken. A clip that is full
    /// is measured and kept as the newest, the oldest leaves where that makes too many,
    /// and the next clip begins.
    pub fn sample(&mut self, sample: StereoSample)
        requires
            old(self).wf(),
            old(self)@.next_id < usize::MAX,
        ensures
            final(self).wf(),
            final(self)@ == old(self)@.sampled(sample),
    {
        match self.current_clip.take() {
            None => {
                assert(self@.clips =~= old(self)@.clips);
            },
            Some(mut clip) => {
                clip.sample_a.sample(sample.0);
                clip.sample_b.sample(sample.1);
                if clip.sample_a.is_full() {
                    let loud_a: u32 = if clip.sample_a.is_empty() {
                        0
                    } else {
                        clip.sample_a.rms()
                    };
                    let loud_b: u32 = if clip.sample_b.is_empty() {
                        0
                    } else {
                        clip.sample_b.rms()
                    };
                    clip.rms = if loud_a >= loud_b {
                        loud_a
                    } else {
                        loud_b
                    };
                    let ghost kept = old(self)@.clips;
                    let ghost count = old(self).clips@.len();
                    let ghost done = clip@;
                    let id: ClipId = self.clip_id_gen;
                    self.clip_id_gen = id + 1;
                    self.clips.insert(id, clip);
                    assert(self.clips@.len() == count + 1);
                    if self.clips.len() > self.num_clips {
                        let oldest: ClipId = self.clip_id_gen - self.clips.len();
                        self.clips.remove(&oldest);
                        assert(self.clips@.len() == count);
                        assert(self@.clips =~= kept.push(done).drop_first());
                    } else {
                        assert(self@.clips =~= kept.push(done));
                    }
                    self.resume();
                } else {
                    self.current_clip = Some(clip);
                    assert(self@.clips =~= old(self)@.clips);
                }
            },
        }
    }

    /// The loudness of each kept clip, oldest first.
    fn levels(&self) -> (levels: Vec<u32>)
        requires
            self.wf(),
        ensures
            levels@ == levels_of(self@.clips),
    {
        let count: usize = self.clips.len();
        let first: ClipId = self.clip_id_gen - count;
        let mut levels: Vec<u32> = Vec::with_capacity(count);
        let mut i: usize = 0;
        while i < count
            invariant
                self.wf(),
                count == self.clips@.len(),
                first == self.clip_id_gen - count,
                i <= count,
                levels.len() == i,
                forall|k: int| 0 <= k < i ==> levels[k] == self@.clips[k].rms,
            decreases count - i,
        {
            let id: ClipId = first + i;
            assert(self.clips@.contains_key(id));
            let clip = self.clips.get(&id);
            levels.push(clip.unwrap().rms);
            i += 1;
        }
        assert(levels@ =~= levels_of(self@.clips));
        levels
    }

    /// The kept clip that has exactly `rank` clips before it when the quietest go first.
    pub fn clip_by_rank(&self, rank: usize) -> (clip: Clip)
        requires
            self.wf(),
            rank < self@.clips.len(),
        ensures
            clip.wf(),
            exists|index: int|
                0 <= index < self@.clips.len() && self@.clips[index] == clip@ && #[trigger] rank_of(
                    levels_of(self@.clips),
                    index,
                ) == rank,
    {
        let levels = self.levels();
        let index: usize = select_rank(&levels, rank);
        let id: ClipId = self.clip_id_gen - self.clips.len() + index;
        assert(self.clips@.contains_key(id));
        let clip = self.clips.get(&id).unwrap().clone();
        assert(self@.clips[index as int] == clip@);
        clip
    }

    /// A clip picked at random among the `limit` quietest of those kept, or nothing where
    /// none is kept. The clips kept stay as they are.
    pub fn choose_clip(&mut self, limit: usize) -> (pick: Option<Clip>)
        requires
            old(self).wf(),
            limit > 0 || old(self)@.clips.len() == 0,
        ensures
            final(self).wf(),
            final(self)@ == old(self)@,
            pick is None <==> old(self)@.clips.len() == 0,
            pick is Some ==> pick.unwrap().wf(),
            old(self)@.offers(limit as nat, picked(pick)),
            limit == 1 && pick is Some ==> forall|other: int|
                0 <= other < old(self)@.clips.len() ==> pick.unwrap().rms <= (
                #[trigger] old(self)@.clips[other]).rms,
    {
        if self.clips.is_empty() {
            None
        } else {
            let count: usize = self.clips.len();
            let bound: usize = if limit < count {
                limit
            } else {
                count
            };
            let rank: usize = random_below(&mut self.rng, bound);
            let clip = self.clip_by_rank(rank);
            proof {
                if limit == 1 {
                    let levels = levels_of(self@.clips);
                    let index = choose|index: int|
                        0 <= index < self@.clips.len() && self@.clips[index] == clip@
                            && #[trigger] rank_of(levels, index) == rank;
                    assert forall|other: int| 0 <= other < self@.clips.len() implies clip.rms <= (
                    #[trigger] self@.clips[other]).rms by {
                        lemma_first_rank_is_quietest(levels, index, other);
                    }
                }
            }
            Some(clip)
        }
    }

    /// The number that the next finished clip gets: as many clips were finished so far.
    pub fn next_id(&self) -> (id: ClipId)
        ensures
            id == self@.next_id,
    {
        self.clip_id_gen
    }

    /// Drops the clip being taken: an interrupted clip is never kept.
    pub fn pause(&mut self)
        requires
            old(self).wf(),
        ensures
            final(self).wf(),
            final(self)@ == old(self)@.paused(),
    {
        self.current_clip = None;
    }

    /// Begins a new clip unless one is being taken.
    pub fn resume(&mut self)
        requires
            old(self).wf(),
        ensures
            final(self).wf(),
            final(self)@ == old(self)@.resumed(),
    {
        if self.current_clip.is_none() {
            self.current_clip = Some(
                Clip {
                    sample_a: Sampler::new(self.clip_length, true),
                    sample_b: Sampler::new(self.clip_length, true),
                    rms: 0,
                },
            );
        }
    }
}

/// The index, among the clips with loudness `levels`, of the one that has exactly `rank`
/// clips before it when the quietest go first.
pub fn select_rank(levels: &Vec<u32>, rank: usize) -> (index: usize)
    requires
        rank < levels.len(),
    ensures
        index < levels.len(),
        rank_of(levels@, index as int) == rank,
{
    let count: usize = levels.len();
    let mut taken: Vec<bool> = vec![false; count];
    let ghost mut done: Set<int> = Set::empty();
    let mut round: usize = 0;
    let mut chosen: usize = 0;
    while round <= rank
        invariant
            count == levels.len(),
            rank < count,
            round <= rank + 1,
            taken.len() == count,
            done.finite(),
            done.len() == round,
            forall|j: int| 0 <= j < count ==> (taken[j] <==> done.contains(j)),
            forall|j: int| done.contains(j) ==> 0 <= j < count,
            forall|j: int, i: int|
                done.contains(j) && 0 <= i < count && !done.contains(i) ==> quieter(
                    levels@,
                    j,
                    i,
                ),
            round > 0 ==> chosen < count && rank_of(levels@, chosen as int) == round - 1,
        decreases rank + 1 - round,
    {
        let mut found: bool = false;
        let mut best: usize = 0;
        let mut i: usize = 0;
        while i < count
            invariant
                count == levels.len(),
                taken.len() == count,
                i <= count,
                !found ==> forall|j: int| 0 <= j < i ==> taken[j],
                found ==> best < i && !taken[best as int],
                found ==> forall|j: int|
                    0 <= j < i && !taken[j] && j != best ==> quieter(levels@, best as int, j),
            decreases count - i,
        {
            if !taken[i] {
                if !found || levels[i] < levels[best] {
                    found = true;
                    best = i;
                }
            }
            i += 1;
        }
        proof {
            if !found {
                assert(done =~= set_int_range(0, count as int));
                vstd::set_lib::lemma_int_range(0, count as int);
            }
            assert(quieter_than(levels@, best as int) =~= done);
        }
        taken[best] = true;
        chosen = best;
        proof {
            done = done.insert(best as int);
        }
        round += 1;
    }
    chosen
}

impl BackgroundState {
    /// Whatever clips are kept, asking for one among the quietest has an answer.
    pub proof fn lemma_any_offer(self, limit: nat)
        requires
            limit > 0,
        ensures
            self.offers(limit, self.any_offer(limit)),
    {
        if self.clips.len() == 0 {
            assert(self.offers(limit, None));
        } else {
            let levels = levels_of(self.clips);
            let index = lemma_some_clip_is_first(levels);
            assert(rank_of(levels, index) < limit);
            assert(self.offers(limit, Some(self.clips[index])));
        }
    }
}

/// Among one or more clips there is one with no clip before it.
pub proof fn lemma_some_clip_is_first(levels: Seq<u32>) -> (index: int)
    requires
        levels.len() > 0,
    ensures
        0 <= index < levels.len(),
        rank_of(levels, index) == 0,
    decreases levels.len(),
{
    if levels.len() == 1 {
        assert(quieter_than(levels, 0) =~= Set::empty());
        0
    } else {
        let front = levels.drop_last();
        let last = levels.len() - 1;
        let before = lemma_some_clip_is_first(front);
        let index = if levels[last] < levels[before] {
            last
        } else {
            before
        };
        assert(quieter_than(front, before).subset_of(set_int_range(0, front.len() as int)));
        vstd::set_lib::lemma_int_range(0, front.len() as int);
        vstd::set_lib::lemma_len_subset(
            quieter_than(front, before),
            set_int_range(0, front.len() as int),
        );
        assert(quieter_than(front, before) =~= Set::empty()) by {
            quieter_than(front, before).lemma_len0_is_empty();
        }
        assert forall|other: int| 0 <= other < levels.len() implies !quieter(
            levels,
            other,
            index,
        ) by {
            if other < last {
                assert(!quieter_than(front, before).contains(other));
                assert(!quieter(front, other, before));
            }
        }
        assert(quieter_than(levels, index) =~= Set::empty());
        index
    }
}

/// The clips that go before any one clip are finitely many.
proof fn lemma_quieter_than_is_finite(levels: Seq<u32>, index: int)
    ensures
        quieter_than(levels, index).finite(),
        quieter_than(levels, index).len() <= levels.len(),
{
    let all = set_int_range(0, levels.len() as int);
    vstd::set_lib::lemma_int_range(0, levels.len() as int);
    assert(quieter_than(levels, index).subset_of(all));
    vstd::set_lib::lemma_len_subset(quieter_than(levels, index), all);
}

/// Of two clips, the one that goes first has the lower rank.
proof fn lemma_quieter_has_lower_rank(levels: Seq<u32>, first: int, second: int)
    requires
        0 <= first < levels.len(),
        0 <= second < levels.len(),
        quieter(levels, first, second),
    ensures
        rank_of(levels, first) < rank_of(levels, second),
{
    let before_first = quieter_than(levels, first);
    let before_second = quieter_than(levels, second);
    lemma_quieter_than_is_finite(levels, first);
    lemma_quieter_than_is_finite(levels, second);
    assert(before_first.insert(first).subset_of(before_second));
    vstd::set_lib::lemma_len_subset(before_first.insert(first), before_second);
    assert(!before_first.contains(first));
}

/// No two clips share a rank, and every rank is below the number of clips: the ranks
/// put the clips in one order, so a rank names one clip.
pub proof fn lemma_rank_names_one_clip(levels: Seq<u32>, first: int, second: int)
    requires
        0 <= first < levels.len(),
        0 <= second < levels.len(),
        rank_of(levels, first) == rank_of(levels, second),
    ensures
        first == second,
        rank_of(levels, first) < levels.len(),
{
    if first != second {
        if quieter(levels, first, second) {
            lemma_quieter_has_lower_rank(levels, first, second);
        } else {
            assert(quieter(levels, second, first));
            lemma_quieter_has_lower_rank(levels, second, first);
        }
    }
    lemma_quieter_than_is_finite(levels, first);
    let all = set_int_range(0, levels.len() as int);
    vstd::set_lib::lemma_int_range(0, levels.len() as int);
    assert(quieter_than(levels, first).insert(first).subset_of(all));
    vstd::set_lib::lemma_len_subset(quieter_than(levels, first).insert(first), all);
    assert(!quieter_than(levels, first).contains(first));
}

/// The quietest clip has no louder clip before it: a clip at place zero is as quiet as
/// any other, so a pick among the one quietest is the quietest clip.
pub proof fn lemma_first_rank_is_quietest(levels: Seq<u32>, index: int, other: int)
    requires
        0 <= index < levels.len(),
        0 <= other < levels.len(),
        rank_of(levels, index) == 0,
    ensures
        levels[index] <= levels[other],
{
    let before = quieter_than(levels, index);
    assert(before.subset_of(set_int_range(0, levels.len() as int)));
    vstd::set_lib::lemma_int_range(0, levels.len() as int);
    vstd::set_lib::lemma_len_subset(before, set_int_range(0, levels.len() as int));
    assert(before.finite());
    if levels[other] < levels[index] {
        assert(before.contains(other));
        assert(before.len() > 0) by {
            if before.len() == 0 {
                before.lemma_len0_is_empty();
            }
        }
    }
}

/// Feeding a sampler one run of samples and then another is feeding it the two in one.
pub proof fn lemma_sampled_all_composes(
    state: BackgroundState,
    first: Seq<StereoSample>,
    second: Seq<StereoSample>,
)
    ensures
        state.sampled_all(first + second) == state.sampled_all(first).sampled_all(second),
    decreases second.len(),
{
    if second.len() == 0 {
        assert(first + second =~= first);
    } else {
        lemma_sampled_all_composes(state, first, second.drop_last());
        assert((first + second).drop_last() =~= first + second.drop_last());
    }
}

/// A clip that has just begun and takes fewer samples than it has room for holds them all
/// and stays the clip being taken.
proof fn lemma_clip_grows(state: BackgroundState, samples: Seq<StereoSample>, count: int)
    requires
        state.current == Some(ClipState::fresh(state.clip_length)),
        0 <= count <= samples.len(),
        count < state.clip_length,
    ensures
        state.sampled_all(samples.take(count)) == (BackgroundState {
            current: Some(clip_taking(samples.take(count), state.clip_length)),
            ..state
        }),
    decreases count,
{
    if count == 0 {
        assert(lefts(samples.take(0)) =~= Seq::empty());
        assert(rights(samples.take(0)) =~= Seq::empty());
    } else {
        lemma_clip_grows(state, samples, count - 1);
        let shorter = samples.take(count - 1);
        let longer = samples.take(count);
        assert(longer.drop_last() =~= shorter);
        assert(lefts(longer) =~= lefts(shorter).push(longer.last().0));
        assert(rights(longer) =~= rights(shorter).push(longer.last().1));
    }
}

/// A clip that has just begun and takes exactly as many samples as it has room for is
/// kept as the newest clip, holding those samples, and the next clip begins. Where that
/// makes more clips than allowed, the oldest leaves.
pub proof fn lemma_full_clip_is_kept(state: BackgroundState, samples: Seq<StereoSample>)
    requires
        state.current == Some(ClipState::fresh(state.clip_length)),
        samples.len() == state.clip_length,
        state.clip_length > 0,
    ensures
        state.sampled_all(samples) == (BackgroundState {
            current: Some(ClipState::fresh(state.clip_length)),
            next_id: state.next_id + 1,
            clips: state.retained(clip_of(samples)),
            ..state
        }),
{
    let count = samples.len() - 1;
    lemma_clip_grows(state, samples, count);
    let shorter = samples.take(count);
    assert(samples.drop_last() =~= shorter);
    assert(lefts(samples) =~= lefts(shorter).push(samples.last().0));
    assert(rights(samples) =~= rights(shorter).push(samples.last().1));
}

/// The clip that a sampler keeps of the `index`th run of `clip_length` samples.
pub open spec fn clip_at(samples: Seq<StereoSample>, clip_length: nat, index: int) -> ClipState {
    clip_of(samples.subrange(index * clip_length, (index + 1) * clip_length))
}

/// A sampler that has taken `count` clips' worth of samples from its start keeps as many
/// clips as it took, up to the number allowed, and they are the latest ones, oldest
/// first: once there are more than allowed, the oldest has left first.
pub proof fn lemma_latest_clips_are_kept(
    num_clips: nat,
    clip_length: nat,
    samples: Seq<StereoSample>,
    count: nat,
)
    requires
        clip_length > 0,
        samples.len() == count * clip_length,
    ensures
        ({
            let state = BackgroundState::started(num_clips, clip_length).sampled_all(samples);
            let kept = if count <= num_clips {
                count
            } else {
                num_clips
            };
            &&& state.clips.len() == kept
            &&& state.next_id == count
            &&& state.num_clips == num_clips
            &&& state.clip_length == clip_length
            &&& state.current == Some(ClipState::fresh(clip_length))
            &&& forall|i: int|
                0 <= i < kept ==> #[trigger] state.clips[i] == clip_at(
                    samples,
                    clip_length,
                    count - kept + i,
                )
        }),
    decreases count,
{
    let start = BackgroundState::started(num_clips, clip_length);
    if count == 0 {
        assert(count * clip_length == 0) by (nonlinear_arith)
            requires
                count == 0,
        ;
        assert(samples =~= Seq::empty());
    } else {
        let fewer = (count - 1) as nat;
        assert(fewer * clip_length + clip_length == count * clip_length) by (nonlinear_arith)
            requires
                fewer + 1 == count,
        ;
        let split = fewer * clip_length;
        let front = samples.take(split as int);
        let back = samples.skip(split as int);
        assert(samples =~= front + back);
        lemma_latest_clips_are_kept(num_clips, clip_length, front, fewer);
        lemma_sampled_all_composes(start, front, back);
        let before = start.sampled_all(front);
        lemma_full_clip_is_kept(before, back);
        let state = start.sampled_all(samples);
        let kept = if count <= num_clips {
            count
        } else {
            num_clips
        };
        let kept_before = if fewer <= num_clips {
            fewer
        } else {
            num_clips
        };
        assert(back =~= samples.subrange(
            (fewer * clip_length) as int,
            ((fewer + 1) * clip_length) as int,
        ));
        assert forall|i: int| 0 <= i < kept implies #[trigger] state.clips[i] == clip_at(
            samples,
            clip_length,
            count - kept + i,
        ) by {
            let index = count - kept + i;
            if index == fewer {
            } else {
                let place = index - (fewer - kept_before);
                assert(before.clips[place] == clip_at(front, clip_length, index));
                assert((index + 1) * clip_length <= fewer * clip_length) by (nonlinear_arith)
                    requires
                        index + 1 <= fewer,
                ;
                assert(0 <= index * clip_length <= (index + 1) * clip_length) by (nonlinear_arith)
                    requires
                        index >= 0,
                ;
                assert(front.subrange(index * clip_length, (index + 1) * clip_length)
                    =~= samples.subrange(index * clip_length, (index + 1) * clip_length));
            }
        }
    }
}

/// A pause drops the clip being taken and nothing else, and after it a sampler that
/// resumes begins an empty clip: what was being taken at the pause is never kept.
pub proof fn lemma_pause_drops_clip(state: BackgroundState)
    ensures
        state.paused().current is None,
        state.paused().clips == state.clips,
        state.paused().resumed().current == Some(ClipState::fresh(state.clip_length)),
        state.paused().resumed().clips == state.clips,
        state.resumed().resumed() == state.resumed(),
{
}

} // verus!
