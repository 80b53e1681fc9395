use click_mute::click_info::ClickInfo;
use click_mute::click_mute::ClickMute;
use click_mute::config::{Config, Delays};
use click_mute::envelope::UNITY;

const SEED: [u8; 32] = [7; 32];

const RATE: usize = 48000;
const STEP_480: i64 = 2_236_963;

fn config(mute_offset: i64, mute_duration: i64, fade: i64) -> Config {
    Config { delays: Delays { mute_offset, mute_duration, fade } }
}

fn ticks(mute: &mut ClickMute, info: &mut ClickInfo, frames: usize, sample: i32) -> Vec<i32> {
    (0..frames).map(|_| mute.tick(info, 0, (sample, sample)).0).collect()
}

/// A short setup: one sample of delay, a fade of four samples, a mute of ten.
fn short() -> ClickMute {
    ClickMute::new(RATE, config(0, 209, 84), SEED).unwrap()
}

#[test]
fn a_click_at_clock_1000_schedules_the_window_1000_to_4840() {
    let mut mute = ClickMute::new(RATE, Config::new(), SEED).unwrap();
    let mut info = ClickInfo::new(0);
    ticks(&mut mute, &mut info, 1000, 0);
    assert_eq!(mute.sample_index(), 1000);
    assert_eq!(mute.cross_fader_gain(), UNITY);
    mute.on_click(&mut info, -40_000, -40_000);
    assert_eq!(mute.mute_start(), Some(1000));
    assert_eq!(mute.mute_end(), 1000 + 3840);
    assert_eq!(info.num_clicks, 1);
}

#[test]
fn the_gain_ramps_down_from_1000_and_up_again_after_4840() {
    let mut mute = ClickMute::new(RATE, Config::new(), SEED).unwrap();
    let mut info = ClickInfo::new(0);
    ticks(&mut mute, &mut info, 1000, 0);
    mute.on_click(&mut info, -40_000, -40_000);
    let mut gain_after = vec![0i64; 6000];
    for clock in 1000..6000 {
        mute.tick(&mut info, 0, (0, 0));
        gain_after[clock] = mute.cross_fader_gain();
    }
    assert_eq!(gain_after[1000], UNITY - STEP_480);
    for clock in 1001..1480 {
        assert!(gain_after[clock] < gain_after[clock - 1]);
        assert!(gain_after[clock - 1] - gain_after[clock] <= STEP_480);
    }
    assert_eq!(gain_after[1478], UNITY - 479 * STEP_480);
    for clock in 1479..=4840 {
        assert_eq!(gain_after[clock], 0);
    }
    assert_eq!(gain_after[4841], STEP_480);
    for clock in 4842..=5320 {
        assert!(gain_after[clock] > gain_after[clock - 1]);
        assert!(gain_after[clock] - gain_after[clock - 1] <= STEP_480);
    }
    assert_eq!(gain_after[5319], 479 * STEP_480);
    for clock in 5320..6000 {
        assert_eq!(gain_after[clock], UNITY);
    }
    assert_eq!(mute.mute_start(), None);
    assert_eq!(mute.mute_end(), 4840);
}

#[test]
fn a_click_given_to_process_is_scheduled_and_counted() {
    let mut mute = ClickMute::new(RATE, Config::new(), SEED).unwrap();
    let mut info = ClickInfo::new(0);
    let silence = vec![0; 1000];
    let mut out_a = vec![0; 1000];
    let mut out_b = vec![0; 1000];
    mute.process(&mut info, None, 0, &silence, &silence, &mut out_a, &mut out_b);
    let silence = vec![0; 400];
    mute.process(&mut info, Some((-40_000, -40_000)), 0, &silence, &silence, &mut out_a, &mut out_b);
    assert_eq!(info.num_clicks, 1);
    assert_eq!(mute.sample_index(), 1400);
    assert_eq!(mute.mute_start(), None);
    assert_eq!(mute.mute_end(), 4840);
    assert_eq!(mute.cross_fader_gain(), UNITY - 400 * STEP_480);
    assert!(mute.marker());
}

#[test]
fn the_first_click_of_a_burst_sets_the_start_and_later_ones_move_the_end() {
    let mut mute = ClickMute::new(RATE, config(10_000, 80_000, 10_000), SEED).unwrap();
    let mut info = ClickInfo::new(0);
    mute.on_click(&mut info, 0, 0);
    assert_eq!(mute.mute_start(), Some(480));
    assert_eq!(mute.mute_end(), 3840);
    ticks(&mut mute, &mut info, 100, 0);
    mute.on_click(&mut info, -5_000, -1_000);
    assert_eq!(mute.mute_start(), Some(480));
    assert_eq!(mute.mute_end(), 100 + 3792);
    ticks(&mut mute, &mut info, 100, 0);
    mute.on_click(&mut info, 0, 0);
    assert_eq!(mute.mute_start(), Some(480));
    assert_eq!(mute.mute_end(), 200 + 3840);
    assert_eq!(info.num_clicks, 3);
}

#[test]
fn a_start_that_has_passed_counts_as_now() {
    let mut mute = ClickMute::new(RATE, config(-10_000, 80_000, 10_000), SEED).unwrap();
    let mut info = ClickInfo::new(0);
    ticks(&mut mute, &mut info, 50, 0);
    mute.on_click(&mut info, -90_000, -20_000);
    assert_eq!(mute.mute_start(), Some(50));
    assert_eq!(mute.mute_end(), 50 + 3360);
}

#[test]
fn the_start_waits_for_the_click_to_come_through_the_delay() {
    let mut mute = ClickMute::new(RATE, config(-50_000, 80_000, 10_000), SEED).unwrap();
    let mut info = ClickInfo::new(0);
    mute.on_click(&mut info, -30_000, -10_000);
    assert_eq!(mute.mute_start(), Some(0));
    assert_eq!(mute.mute_end(), 5760);
    let mut later = ClickMute::new(RATE, config(20_000, 80_000, 10_000), SEED).unwrap();
    later.on_click(&mut info, -5_000, -5_000);
    assert_eq!(later.mute_start(), Some(720));
    assert_eq!(later.mute_end(), 3600);
}

#[test]
fn the_end_is_never_before_the_start() {
    let mut mute = ClickMute::new(RATE, config(100_000, 0, 1_000), SEED).unwrap();
    let mut info = ClickInfo::new(0);
    mute.on_click(&mut info, 0, 0);
    assert_eq!(mute.mute_start(), Some(4800));
    assert_eq!(mute.mute_end(), 4800);
    ticks(&mut mute, &mut info, 256, 0);
    mute.on_click(&mut info, -100_000, -100_000);
    assert_eq!(mute.mute_start(), Some(4800));
    assert_eq!(mute.mute_end(), 4800);
}

#[test]
fn the_window_is_in_order_after_every_click() {
    let mut mute = ClickMute::new(RATE, config(30_000, 1_000, 1_000), SEED).unwrap();
    let mut info = ClickInfo::new(0);
    let mut seed: i64 = 12345;
    for round in 0..300 {
        seed = (seed * 1_103_515_245 + 12_345) % 2_147_483_648;
        let earliest = -(seed % 100_001);
        seed = (seed * 1_103_515_245 + 12_345) % 2_147_483_648;
        let latest = earliest + seed % (-earliest + 1);
        mute.on_click(&mut info, earliest, latest);
        let start = mute.mute_start().unwrap();
        assert!(mute.sample_index() <= start);
        assert!(start <= mute.mute_end());
        ticks(&mut mute, &mut info, (round * 37) % 600, 0);
        if let Some(start) = mute.mute_start() {
            assert!(mute.sample_index() <= start);
            assert!(start <= mute.mute_end());
        }
    }
}

#[test]
fn indices_stop_at_the_last_one_the_machine_counts() {
    let mut mute = ClickMute::new(usize::MAX, config(i64::MAX, i64::MAX, 1), SEED).unwrap();
    let mut info = ClickInfo::new(0);
    mute.on_click(&mut info, i64::MAX, i64::MAX);
    assert_eq!(mute.mute_start(), Some(usize::MAX));
    assert_eq!(mute.mute_end(), usize::MAX);
    let mut other = ClickMute::new(RATE, config(0, i64::MIN, 1_000), SEED).unwrap();
    other.on_click(&mut info, i64::MIN, i64::MIN);
    assert_eq!(other.mute_start(), Some(0));
    assert_eq!(other.mute_end(), 0);
}

#[test]
fn the_start_is_used_up_when_the_clock_reaches_it() {
    let mut mute = ClickMute::new(RATE, config(10_000, 80_000, 10_000), SEED).unwrap();
    let mut info = ClickInfo::new(0);
    mute.on_click(&mut info, 0, 0);
    ticks(&mut mute, &mut info, 480, 0);
    assert_eq!(mute.mute_start(), Some(480));
    assert!(!mute.marker());
    ticks(&mut mute, &mut info, 1, 0);
    assert_eq!(mute.mute_start(), None);
    assert!(mute.marker());
    mute.on_click(&mut info, 0, 0);
    assert_eq!(mute.mute_start(), Some(481 + 480));
    ticks(&mut mute, &mut info, 481, 0);
    assert!(!mute.marker());
}

#[test]
fn without_background_noise_the_fader_mutes_the_signal() {
    let mut mute = short();
    let mut info = ClickInfo::new(0);
    info.background_noise = false;
    assert_eq!(ticks(&mut mute, &mut info, 5, 1000), vec![0, 500, 750, 1000, 1000]);
    ticks(&mut mute, &mut info, 95, 1000);
    mute.on_click(&mut info, 0, 0);
    assert_eq!(mute.mute_start(), Some(100));
    assert_eq!(mute.mute_end(), 110);
    assert_eq!(
        ticks(&mut mute, &mut info, 16, 1000),
        vec![750, 500, 250, 0, 0, 0, 0, 0, 0, 0, 0, 250, 500, 750, 1000, 1000]
    );
}

#[test]
fn overlapping_clicks_turn_the_fade_round_without_a_jump() {
    let mut mute = short();
    let mut info = ClickInfo::new(0);
    info.background_noise = false;
    ticks(&mut mute, &mut info, 100, 1000);
    mute.on_click(&mut info, 0, -209);
    assert_eq!(mute.mute_end(), 100);
    assert_eq!(ticks(&mut mute, &mut info, 2, 1000), vec![750, 1000]);
    mute.on_click(&mut info, 0, 0);
    assert_eq!(mute.mute_start(), Some(102));
    assert_eq!(ticks(&mut mute, &mut info, 2, 1000), vec![750, 500]);
    assert_eq!(mute.fader_gain(), UNITY / 2);
}

#[test]
fn inverted_muting_lets_the_signal_through_around_clicks_only() {
    let mut mute = short();
    let mut info = ClickInfo::new(0);
    info.invert_mute = true;
    info.background_noise = false;
    assert_eq!(ticks(&mut mute, &mut info, 4, 1000), vec![0, 0, 0, 0]);
    ticks(&mut mute, &mut info, 96, 1000);
    mute.on_click(&mut info, 0, 0);
    assert_eq!(
        ticks(&mut mute, &mut info, 16, 1000),
        vec![250, 500, 750, 1000, 1000, 1000, 1000, 1000, 1000, 1000, 1000, 750, 500, 250, 0, 0]
    );
}

#[test]
fn with_muting_off_the_signal_passes_and_the_gains_rest() {
    let mut mute = short();
    let mut info = ClickInfo::new(0);
    info.mute_enabled = false;
    ticks(&mut mute, &mut info, 100, 1000);
    assert_eq!(mute.fader_gain(), 0);
    assert_eq!(mute.cross_fader_gain(), 0);
    mute.on_click(&mut info, 0, 0);
    assert_eq!(ticks(&mut mute, &mut info, 12, 1000), vec![1000; 12]);
    assert_eq!(mute.mute_start(), None);
}

#[test]
fn the_click_view_captures_the_mute_and_is_frozen_at_its_end() {
    let mut mute = short();
    let mut info = ClickInfo::new(0);
    for frame in 0..100 {
        mute.tick(&mut info, 0, (frame, 0));
    }
    assert!(info.click_sampler.is_empty());
    assert!(info.click_sampler.is_waiting());
    mute.on_click(&mut info, 0, 0);
    for frame in 100..130 {
        mute.tick(&mut info, 0, (frame, 0));
    }
    assert!(info.click_sampler.is_in_hold());
    assert_eq!(info.click_sampler.get(), (99..=109).collect::<Vec<i32>>());
}

#[test]
fn the_click_view_stays_waiting_for_a_trigger_before_its_time() {
    let mut mute = short();
    let mut info = ClickInfo::new(500);
    mute.on_click(&mut info, 0, 0);
    for _ in 0..20 {
        mute.tick(&mut info, 499, (1, 1));
    }
    assert!(info.click_sampler.is_waiting());
    assert!(info.click_sampler.is_empty());
    mute.on_click(&mut info, 0, 0);
    for _ in 0..5 {
        mute.tick(&mut info, 500, (1, 1));
    }
    assert!(!info.click_sampler.is_waiting());
    assert_eq!(info.click_sampler.get(), vec![1, 1, 1, 1, 1]);
}

#[test]
fn the_muted_signal_is_replaced_by_background_clips() {
    let mut mute = ClickMute::new(RATE, config(0, 20_000, 84), SEED).unwrap();
    let mut info = ClickInfo::new(0);
    let before = ticks(&mut mute, &mut info, 3000, 500);
    assert_eq!(before[10], 500);
    assert_eq!(before[2999], 500);
    mute.on_click(&mut info, 0, 0);
    assert_eq!(mute.mute_end(), 3000 + 960);
    let during = ticks(&mut mute, &mut info, 960, 9000);
    for output in &during[4..] {
        assert!(*output == 0 || *output == 500);
    }
    assert!(during.iter().filter(|output| **output == 500).count() > 900);
    assert_eq!(mute.cross_fader_gain(), 0);
    let after = ticks(&mut mute, &mut info, 10, 9000);
    assert_eq!(after[9], 9000);
}
