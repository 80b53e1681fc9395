use click_mute::background_sampler::{select_rank, BackgroundSampler};
use click_mute::looper::Looper;

const SEED: [u8; 32] = [7; 32];

fn feed(sampler: &mut BackgroundSampler, a: i32, b: i32, count: usize) {
    for _ in 0..count {
        sampler.sample((a, b));
    }
}

#[test]
fn no_clip_is_offered_before_one_is_complete() {
    let mut sampler = BackgroundSampler::new(2, 3, SEED);
    assert!(sampler.choose_clip(1).is_none());
    feed(&mut sampler, 5, 5, 2);
    assert!(sampler.choose_clip(1).is_none());
    feed(&mut sampler, 5, 5, 1);
    assert!(sampler.choose_clip(1).is_some());
}

#[test]
fn a_clip_holds_exactly_clip_length_samples() {
    let mut sampler = BackgroundSampler::new(2, 3, SEED);
    sampler.sample((1, -1));
    sampler.sample((2, -2));
    sampler.sample((3, -3));
    let clip = sampler.choose_clip(1).unwrap();
    assert_eq!(clip.sample_a.get(), vec![1, 2, 3]);
    assert_eq!(clip.sample_b.get(), vec![-1, -2, -3]);
}

#[test]
fn clip_loudness_is_that_of_the_louder_channel() {
    let mut sampler = BackgroundSampler::new(2, 2, SEED);
    feed(&mut sampler, 3, -4, 2);
    assert_eq!(sampler.choose_clip(1).unwrap().rms, 4);
    let mut other = BackgroundSampler::new(2, 2, SEED);
    feed(&mut other, 9, 2, 2);
    assert_eq!(other.choose_clip(1).unwrap().rms, 9);
}

#[test]
fn the_oldest_clip_leaves_once_there_are_too_many() {
    let mut sampler = BackgroundSampler::new(2, 3, SEED);
    feed(&mut sampler, 10, 10, 3);
    assert_eq!(sampler.choose_clip(1).unwrap().rms, 10);
    feed(&mut sampler, 20, 20, 3);
    assert_eq!(sampler.choose_clip(1).unwrap().rms, 10);
    feed(&mut sampler, 30, 30, 3);
    assert_eq!(sampler.choose_clip(1).unwrap().rms, 20);
    assert_eq!(sampler.clip_by_rank(0).rms, 20);
    assert_eq!(sampler.clip_by_rank(1).rms, 30);
    feed(&mut sampler, 5, 5, 3);
    assert_eq!(sampler.clip_by_rank(0).rms, 5);
    assert_eq!(sampler.clip_by_rank(1).rms, 30);
}

#[test]
fn as_many_clips_are_kept_as_were_fed_up_to_the_cap() {
    for cap in 0..4usize {
        for fed in 0..6usize {
            let mut sampler = BackgroundSampler::new(cap, 2, SEED);
            for clip in 0..fed {
                feed(&mut sampler, 100 + clip as i32, 0, 2);
            }
            let kept = fed.min(cap);
            if kept == 0 {
                assert!(sampler.choose_clip(1).is_none());
            } else {
                for rank in 0..kept {
                    let clip = sampler.clip_by_rank(rank);
                    assert_eq!(clip.rms as usize, 100 + fed - kept + rank);
                }
            }
        }
    }
}

#[test]
fn choosing_among_one_gives_the_quietest_clip_every_time() {
    let mut sampler = BackgroundSampler::new(5, 2, SEED);
    for level in [50, 10, 40, 20, 30] {
        feed(&mut sampler, level, level, 2);
    }
    for _ in 0..40 {
        let clip = sampler.choose_clip(1).unwrap();
        assert_eq!(clip.rms, 10);
        assert_eq!(clip.sample_a.get(), vec![10, 10]);
    }
}

#[test]
fn choosing_stays_among_the_quietest() {
    let mut sampler = BackgroundSampler::new(5, 2, SEED);
    for level in [50, 10, 40, 20, 30] {
        feed(&mut sampler, level, level, 2);
    }
    for _ in 0..200 {
        let level = sampler.choose_clip(2).unwrap().rms;
        assert!(level == 10 || level == 20);
    }
    for _ in 0..200 {
        let level = sampler.choose_clip(3).unwrap().rms;
        assert!(level == 10 || level == 20 || level == 30);
    }
    for _ in 0..50 {
        let level = sampler.choose_clip(usize::MAX).unwrap().rms;
        assert!(level % 10 == 0 && (10..=50).contains(&level));
    }
}

#[test]
fn clips_come_by_rank_quietest_first() {
    let mut sampler = BackgroundSampler::new(5, 2, SEED);
    for level in [50, 10, 40, 20, 30] {
        feed(&mut sampler, level, level, 2);
    }
    let levels: Vec<u32> = (0..5).map(|rank| sampler.clip_by_rank(rank).rms).collect();
    assert_eq!(levels, vec![10, 20, 30, 40, 50]);
}

#[test]
fn equally_loud_clips_come_oldest_first() {
    let mut sampler = BackgroundSampler::new(3, 2, SEED);
    feed(&mut sampler, 7, 0, 2);
    feed(&mut sampler, -7, 0, 2);
    feed(&mut sampler, 0, 7, 2);
    assert_eq!(sampler.clip_by_rank(0).sample_a.get(), vec![7, 7]);
    assert_eq!(sampler.clip_by_rank(1).sample_a.get(), vec![-7, -7]);
    assert_eq!(sampler.clip_by_rank(2).sample_b.get(), vec![7, 7]);
}

#[test]
fn select_rank_finds_the_place_in_order() {
    let levels = vec![5, 1, 3];
    assert_eq!(select_rank(&levels, 0), 1);
    assert_eq!(select_rank(&levels, 1), 2);
    assert_eq!(select_rank(&levels, 2), 0);
    let ties = vec![2, 2, 1, 2];
    assert_eq!(select_rank(&ties, 0), 2);
    assert_eq!(select_rank(&ties, 1), 0);
    assert_eq!(select_rank(&ties, 2), 1);
    assert_eq!(select_rank(&ties, 3), 3);
    assert_eq!(select_rank(&vec![9], 0), 0);
}

#[test]
fn a_paused_clip_is_never_kept() {
    let mut sampler = BackgroundSampler::new(3, 4, SEED);
    feed(&mut sampler, 99, 99, 2);
    sampler.pause();
    sampler.resume();
    feed(&mut sampler, 5, 5, 4);
    feed(&mut sampler, 6, 6, 4);
    for _ in 0..30 {
        let clip = sampler.choose_clip(10).unwrap();
        assert!(!clip.sample_a.get().contains(&99));
        assert!(!clip.sample_b.get().contains(&99));
        assert!(clip.rms == 5 || clip.rms == 6);
    }
    assert_eq!(sampler.clip_by_rank(0).sample_a.get(), vec![5, 5, 5, 5]);
    assert_eq!(sampler.clip_by_rank(1).sample_a.get(), vec![6, 6, 6, 6]);
}

#[test]
fn a_paused_sampler_takes_nothing() {
    let mut sampler = BackgroundSampler::new(3, 2, SEED);
    sampler.pause();
    feed(&mut sampler, 1, 1, 10);
    assert!(sampler.choose_clip(1).is_none());
    sampler.resume();
    feed(&mut sampler, 2, 2, 2);
    assert_eq!(sampler.choose_clip(1).unwrap().rms, 2);
}

#[test]
fn pause_keeps_the_finished_clips() {
    let mut sampler = BackgroundSampler::new(3, 2, SEED);
    feed(&mut sampler, 4, 4, 2);
    feed(&mut sampler, 8, 8, 1);
    sampler.pause();
    assert_eq!(sampler.choose_clip(1).unwrap().rms, 4);
    assert_eq!(sampler.clip_by_rank(0).sample_a.get(), vec![4, 4]);
}

#[test]
fn resume_leaves_a_clip_in_progress_alone() {
    let mut sampler = BackgroundSampler::new(3, 2, SEED);
    sampler.sample((11, 0));
    sampler.resume();
    sampler.resume();
    sampler.sample((12, 0));
    assert_eq!(sampler.choose_clip(1).unwrap().sample_a.get(), vec![11, 12]);
}

#[test]
fn a_sampler_that_may_keep_none_offers_none() {
    let mut sampler = BackgroundSampler::new(0, 2, SEED);
    feed(&mut sampler, 1, 1, 20);
    assert!(sampler.choose_clip(1).is_none());
}

#[test]
fn clips_without_length_are_silent() {
    let mut sampler = BackgroundSampler::new(2, 0, SEED);
    sampler.sample((50, 50));
    let clip = sampler.choose_clip(1).unwrap();
    assert_eq!(clip.rms, 0);
    assert!(clip.sample_a.get().is_empty());
}

#[test]
fn looper_is_silent_without_clips() {
    let mut sampler = BackgroundSampler::new(2, 3, SEED);
    let mut looper = Looper::new();
    for _ in 0..5 {
        assert_eq!(looper.produce(&mut sampler), (0, 0));
    }
}

#[test]
fn looper_plays_a_clip_and_pauses_one_frame_between_clips() {
    let mut sampler = BackgroundSampler::new(1, 3, SEED);
    sampler.sample((1, -1));
    sampler.sample((2, -2));
    sampler.sample((3, -3));
    let mut looper = Looper::new();
    let played: Vec<(i32, i32)> = (0..9).map(|_| looper.produce(&mut sampler)).collect();
    assert_eq!(
        played,
        vec![
            (1, -1),
            (2, -2),
            (3, -3),
            (0, 0),
            (1, -1),
            (2, -2),
            (3, -3),
            (0, 0),
            (1, -1)
        ]
    );
}

#[test]
fn looper_finishes_its_clip_after_the_sampler_moved_on() {
    let mut sampler = BackgroundSampler::new(1, 2, SEED);
    feed(&mut sampler, 7, 8, 2);
    let mut looper = Looper::new();
    assert_eq!(looper.produce(&mut sampler), (7, 8));
    feed(&mut sampler, 1, 2, 2);
    assert_eq!(looper.produce(&mut sampler), (7, 8));
    assert_eq!(looper.produce(&mut sampler), (0, 0));
    assert_eq!(looper.produce(&mut sampler), (1, 2));
}

#[test]
fn looper_plays_only_quiet_clips() {
    let mut sampler = BackgroundSampler::new(20, 1, SEED);
    for level in 1..=20 {
        sampler.sample((level, level));
    }
    let mut looper = Looper::new();
    for _ in 0..200 {
        let (a, b) = looper.produce(&mut sampler);
        assert_eq!(a, b);
        assert!((0..=10).contains(&a));
    }
}

#[test]
fn looper_play_takes_up_the_given_clip() {
    let mut sampler = BackgroundSampler::new(1, 2, SEED);
    feed(&mut sampler, 3, 4, 2);
    let clip = sampler.clip_by_rank(0);
    let mut looper = Looper::new();
    assert_eq!(looper.play(None), (0, 0));
    assert_eq!(looper.play(Some(clip.clone())), (3, 4));
    assert_eq!(looper.play(None), (3, 4));
    assert_eq!(looper.play(Some(clip)), (0, 0));
    assert_eq!(looper.play(None), (0, 0));
}

#[test]
fn nothing_kept_gives_nothing_whatever_the_limit() {
    let mut sampler = BackgroundSampler::new(2, 3, SEED);
    assert!(sampler.choose_clip(0).is_none());
    assert!(sampler.choose_clip(usize::MAX).is_none());
}

#[test]
fn samplers_with_one_seed_choose_alike() {
    let mut first = BackgroundSampler::new(8, 1, [3; 32]);
    let mut second = BackgroundSampler::new(8, 1, [3; 32]);
    for level in 1..=8 {
        first.sample((level, level));
        second.sample((level, level));
    }
    for _ in 0..100 {
        assert_eq!(first.choose_clip(8).unwrap().rms, second.choose_clip(8).unwrap().rms);
    }
}

#[test]
fn choices_reach_every_clip_among_the_quietest() {
    let mut sampler = BackgroundSampler::new(8, 1, [9; 32]);
    for level in 1..=8 {
        sampler.sample((level, level));
    }
    let mut seen = [false; 9];
    for _ in 0..400 {
        seen[sampler.choose_clip(4).unwrap().rms as usize] = true;
    }
    assert_eq!(seen, [false, true, true, true, true, false, false, false, false]);
}
