use click_mute::sampler::{square_root, Mode, Sampler};

#[test]
fn sampler_keeps_the_last_samples_after_wraparound() {
    let mut sampler = Sampler::new(4, true);
    for sample in 1..=10 {
        sampler.sample(sample);
    }
    assert_eq!(sampler.get(), vec![7, 8, 9, 10]);
    assert!(sampler.is_full());
    assert!(!sampler.is_empty());
}

#[test]
fn sampler_keeps_push_order_for_every_length() {
    let capacity = 5usize;
    for length in 0..23usize {
        let mut sampler = Sampler::new(capacity, true);
        let pushed: Vec<i32> = (0..length as i32).map(|n| 100 - 3 * n).collect();
        for sample in &pushed {
            sampler.sample(*sample);
        }
        let kept = length.min(capacity);
        assert_eq!(sampler.get(), pushed[length - kept..].to_vec());
        assert_eq!(sampler.is_full(), length >= capacity);
        assert_eq!(sampler.is_empty(), length == 0);
    }
}

#[test]
fn sampler_filled_exactly_holds_everything() {
    let mut sampler = Sampler::new(3, true);
    sampler.sample(1);
    sampler.sample(2);
    assert!(!sampler.is_full());
    sampler.sample(3);
    assert!(sampler.is_full());
    assert_eq!(sampler.get(), vec![1, 2, 3]);
}

#[test]
fn sampler_is_empty_after_clear() {
    let mut sampler = Sampler::new(3, true);
    for sample in 0..7 {
        sampler.sample(sample);
    }
    sampler.clear();
    assert!(sampler.is_empty());
    assert!(!sampler.is_full());
    assert_eq!(sampler.get(), Vec::<i32>::new());
    sampler.sample(42);
    assert_eq!(sampler.get(), vec![42]);
}

#[test]
fn sampler_starts_in_capture_or_hold() {
    let live = Sampler::new(2, true);
    assert!(!live.is_in_hold());
    assert!(!live.is_waiting());
    let held = Sampler::new(2, false);
    assert!(held.is_in_hold());
    assert!(!held.is_in_auto());
}

#[test]
fn sampler_in_hold_records_nothing() {
    let mut sampler = Sampler::new(4, false);
    sampler.sample(1);
    sampler.sample(2);
    assert!(sampler.is_empty());
    sampler.live();
    sampler.sample(3);
    sampler.hold();
    sampler.sample(4);
    assert_eq!(sampler.get(), vec![3]);
}

#[test]
fn sampler_waits_for_a_trigger_after_its_deadline() {
    let mut sampler = Sampler::new(4, false);
    sampler.acquire_after(100);
    assert!(sampler.is_waiting());
    sampler.sample(1);
    sampler.trigger(99);
    assert!(sampler.is_waiting());
    sampler.sample(2);
    assert!(sampler.is_empty());
    sampler.trigger(100);
    assert!(!sampler.is_waiting());
    assert!(!sampler.is_in_hold());
    sampler.sample(3);
    assert_eq!(sampler.get(), vec![3]);
}

#[test]
fn trigger_keeps_the_samples_of_a_plain_capture() {
    let mut sampler = Sampler::new(4, true);
    sampler.sample(1);
    sampler.trigger(5);
    sampler.sample(2);
    assert_eq!(sampler.get(), vec![1, 2]);
    sampler.hold();
    sampler.trigger(6);
    assert!(sampler.is_in_hold());
    assert_eq!(sampler.get(), vec![1, 2]);
}

#[test]
fn automatic_capture_starts_afresh_on_every_trigger() {
    let mut sampler = Sampler::new(4, true);
    sampler.auto();
    assert!(sampler.is_in_auto());
    assert!(!sampler.is_in_auto_hold());
    sampler.sample(1);
    sampler.sample(2);
    sampler.hold_or_auto_hold();
    assert!(sampler.is_in_auto_hold());
    assert!(sampler.is_in_auto());
    assert!(sampler.is_waiting());
    sampler.sample(3);
    assert_eq!(sampler.get(), vec![1, 2]);
    sampler.trigger(0);
    assert!(sampler.is_empty());
    assert!(!sampler.is_in_auto_hold());
    assert!(sampler.is_in_auto());
    sampler.sample(4);
    assert_eq!(sampler.get(), vec![4]);
    sampler.trigger(0);
    assert!(sampler.is_empty());
}

#[test]
fn hold_or_auto_hold_from_a_plain_mode_is_hold() {
    let mut sampler = Sampler::new(4, true);
    sampler.hold_or_auto_hold();
    assert!(sampler.is_in_hold());
    sampler.acquire_after(7);
    sampler.hold_or_auto_hold();
    assert!(sampler.is_in_hold());
}

#[test]
fn sampler_without_room_holds_nothing() {
    let mut sampler = Sampler::new(0, true);
    sampler.sample(1);
    assert!(sampler.is_empty());
    assert!(sampler.is_full());
    assert_eq!(sampler.get(), Vec::<i32>::new());
}

#[test]
fn rms_is_the_root_of_the_mean_square_rounded_down() {
    let mut sampler = Sampler::new(8, true);
    sampler.sample(3);
    sampler.sample(4);
    assert_eq!(sampler.rms(), 3);
    sampler.clear();
    for _ in 0..3 {
        sampler.sample(-5);
    }
    assert_eq!(sampler.rms(), 5);
    sampler.clear();
    sampler.sample(i32::MIN);
    assert_eq!(sampler.rms(), 2_147_483_648);
    sampler.clear();
    sampler.sample(0);
    assert_eq!(sampler.rms(), 0);
}

#[test]
fn rms_looks_at_the_window_only() {
    let mut sampler = Sampler::new(2, true);
    sampler.sample(1000);
    sampler.sample(6);
    sampler.sample(8);
    assert_eq!(sampler.get(), vec![6, 8]);
    assert_eq!(sampler.rms(), 7);
}

#[test]
fn square_root_rounds_down() {
    assert_eq!(square_root(0), 0);
    assert_eq!(square_root(1), 1);
    assert_eq!(square_root(2), 1);
    assert_eq!(square_root(15), 3);
    assert_eq!(square_root(16), 4);
    assert_eq!(square_root(17), 4);
    assert_eq!(square_root(1_000_000), 1000);
    assert_eq!(square_root(0x4000_0000_0000_0000), 0x8000_0000);
    assert_eq!(square_root(0x3fff_ffff_ffff_ffff), 0x7fff_ffff);
}

#[test]
fn sampler_clone_holds_the_same_samples() {
    let mut sampler = Sampler::new(3, true);
    for sample in 1..=5 {
        sampler.sample(sample);
    }
    let mut copy = sampler.clone();
    assert_eq!(copy.get(), vec![3, 4, 5]);
    copy.sample(6);
    assert_eq!(copy.get(), vec![4, 5, 6]);
    assert_eq!(sampler.get(), vec![3, 4, 5]);
}

#[test]
fn mode_values_compare() {
    assert_eq!(Mode::CaptureAfterTrigger(3), Mode::CaptureAfterTrigger(3));
    assert_ne!(Mode::CaptureAfterTrigger(3), Mode::CaptureAfterTrigger(4));
    assert_ne!(Mode::AutoCapture, Mode::AutoHold);
}

#[test]
fn mode_moves_on_a_trigger() {
    assert_eq!(Mode::Capture.on_trigger(0), Mode::Capture);
    assert_eq!(Mode::Hold.on_trigger(u64::MAX), Mode::Hold);
    assert_eq!(Mode::AutoHold.on_trigger(0), Mode::AutoCapture);
    assert_eq!(Mode::AutoCapture.on_trigger(0), Mode::AutoCapture);
    assert_eq!(Mode::CaptureAfterTrigger(10).on_trigger(9), Mode::CaptureAfterTrigger(10));
    assert_eq!(Mode::CaptureAfterTrigger(10).on_trigger(10), Mode::Capture);
    assert_eq!(Mode::CaptureAfterTrigger(10).on_trigger(11), Mode::Capture);
}

#[test]
fn mode_moves_on_a_hold() {
    assert_eq!(Mode::Capture.on_hold(), Mode::Hold);
    assert_eq!(Mode::Hold.on_hold(), Mode::Hold);
    assert_eq!(Mode::CaptureAfterTrigger(3).on_hold(), Mode::Hold);
    assert_eq!(Mode::AutoCapture.on_hold(), Mode::AutoHold);
    assert_eq!(Mode::AutoHold.on_hold(), Mode::AutoHold);
}
