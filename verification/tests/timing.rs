use click_mute::click_info::{ClickInfo, CLICK_SAMPLES, LIVE_SAMPLES};
use click_mute::click_mute_control::Message;
use click_mute::config::{Config, Delays, ParseError, FILENAME};
use click_mute::measure::{measure, Mark, Repeated};
use click_mute::plot::{sample_min_max, Extremes};

#[test]
fn measure_hands_back_what_the_work_gave() {
    let (_, value) = measure(|| 6 * 7);
    assert_eq!(value, 42);
    let text = String::from("moved in");
    let (_, length) = measure(move || text.len());
    assert_eq!(length, 8);
}

#[test]
fn repeated_starts_with_nothing() {
    let timings = Repeated::new();
    assert_eq!(timings.prev_time(), 0);
}

#[test]
fn repeated_averages_what_it_recorded() {
    let mut timings = Repeated::new();
    timings.record(10);
    assert_eq!(timings.average(), 10);
    assert_eq!(timings.prev_time(), 10);
    timings.record(31);
    assert_eq!(timings.average(), 20);
    assert_eq!(timings.prev_time(), 31);
    timings.record(0);
    assert_eq!(timings.average(), 13);
    assert_eq!(timings.prev_time(), 0);
}

#[test]
fn repeated_total_stops_at_the_largest_number() {
    let mut timings = Repeated::new();
    timings.record(u128::MAX);
    timings.record(5);
    assert_eq!(timings.average(), u128::MAX / 2);
    assert_eq!(timings.prev_time(), 5);
}

#[test]
fn repeated_measure_counts_the_run() {
    let mut timings = Repeated::new();
    assert_eq!(timings.measure(|| "done"), "done");
    let first = timings.prev_time();
    assert_eq!(timings.average(), first);
    assert_eq!(timings.measure(|| 3), 3);
    let second = timings.prev_time();
    assert_eq!(timings.average(), (first + second) / 2);
}

#[test]
fn repeated_sample_takes_the_time_since_a_mark() {
    let mark = Mark::new();
    let mut timings = Repeated::new();
    timings.sample(&mark);
    let first = timings.prev_time();
    timings.sample(&mark);
    let second = timings.prev_time();
    assert!(second >= first);
    assert_eq!(timings.average(), (first + second) / 2);
}

#[test]
fn default_config_is_forty_eighty_ten_milliseconds() {
    let config = Config::new();
    assert_eq!(
        config,
        Config { delays: Delays { mute_offset: -40_000, mute_duration: 80_000, fade: 10_000 } }
    );
    assert_eq!(FILENAME, "click_mute.ini");
}

#[test]
fn parse_error_names_the_file_and_the_reason() {
    let error = ParseError {
        filename: String::from("click_mute.ini"),
        message: String::from("expected a number at line 2"),
    };
    assert_eq!(
        error.to_string(),
        "Failed to parse click_mute.ini: expected a number at line 2"
    );
    let empty = ParseError { filename: String::new(), message: String::new() };
    assert_eq!(empty.to_string(), "Failed to parse : ");
}

#[test]
fn message_carries_a_config() {
    let Message::UpdateConfig(config) = Message::UpdateConfig(Config::new());
    assert_eq!(config.delays.fade, 10_000);
}

#[test]
fn click_info_starts_muting_with_background_noise() {
    let info = ClickInfo::new(5);
    assert!(info.mute_enabled);
    assert!(!info.invert_mute);
    assert!(info.background_noise);
    assert_eq!(info.num_clicks, 0);
    assert_eq!(LIVE_SAMPLES, 10240);
    assert_eq!(CLICK_SAMPLES, 102400);
}

#[test]
fn click_info_live_view_captures_and_click_view_waits() {
    let mut info = ClickInfo::new(5);
    info.live_sampler.sample(1);
    assert_eq!(info.live_sampler.get(), vec![1]);
    assert!(info.click_sampler.is_waiting());
    info.click_sampler.sample(1);
    assert!(info.click_sampler.is_empty());
    info.click_sampler.trigger(4);
    assert!(info.click_sampler.is_waiting());
    info.click_sampler.trigger(5);
    assert!(!info.click_sampler.is_waiting());
    info.click_sampler.sample(2);
    assert_eq!(info.click_sampler.get(), vec![2]);
}

#[test]
fn click_info_views_have_their_sizes() {
    let mut info = ClickInfo::new(0);
    for sample in 0..(LIVE_SAMPLES as i32 + 3) {
        info.live_sampler.sample(sample);
    }
    let kept = info.live_sampler.get();
    assert_eq!(kept.len(), LIVE_SAMPLES);
    assert_eq!(kept[0], 3);
    assert!(info.live_sampler.is_full());
}

#[test]
fn drawing_takes_the_range_between_marks() {
    let samples = vec![1, -5, 3, 9, -2, 4, 7, 8];
    let marks = vec![0, 3, 3, 6, 20, 30];
    assert_eq!(
        sample_min_max(&marks, &samples),
        vec![
            Extremes { at: 3, low: -5, high: 3 },
            Extremes { at: 3, low: 0, high: 0 },
            Extremes { at: 6, low: -2, high: 9 },
            Extremes { at: 20, low: 0, high: 8 },
            Extremes { at: 30, low: 0, high: 8 },
        ]
    );
}

#[test]
fn drawing_nothing_gives_nothing() {
    assert!(sample_min_max(&vec![0, 1, 2], &vec![]).is_empty());
    assert!(sample_min_max(&vec![], &vec![1, 2]).is_empty());
    assert!(sample_min_max(&vec![5], &vec![1, 2]).is_empty());
}

#[test]
fn marks_that_run_backwards_give_an_empty_range() {
    let drawn = sample_min_max(&vec![4, 1], &vec![5, 6, 7, 8, 9, 10]);
    assert_eq!(drawn, vec![Extremes { at: 1, low: 0, high: 0 }]);
}
