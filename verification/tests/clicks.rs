use click_mute::clicky_events::{
    make_device_mapping, ClickyEvents, Found, KeyEvent, Timestamp, EV_KEY, STALE_MICROS,
};

fn key(value: i32, seconds: i64, micros: i64) -> KeyEvent {
    KeyEvent { kind: EV_KEY, value, seconds, micros }
}

fn found(path: Option<&str>, handle: i32, keys: bool) -> Found {
    Found { path: path.map(|p| p.to_string()), handle, keys }
}

const NOW: Timestamp = Timestamp { seconds: 100, nanos: 500_000_000 };

#[test]
fn no_event_is_no_click() {
    assert_eq!(ClickyEvents::when_clicked(NOW, &vec![]), None);
}

#[test]
fn one_click_gives_its_age_twice() {
    let events = vec![key(1, 100, 460_000)];
    assert_eq!(ClickyEvents::when_clicked(NOW, &events), Some((-40_000, -40_000)));
}

#[test]
fn clicks_give_the_earliest_and_the_latest() {
    let events = vec![key(1, 100, 480_000), key(0, 100, 470_000), key(1, 100, 490_000)];
    assert_eq!(ClickyEvents::when_clicked(NOW, &events), Some((-30_000, -10_000)));
}

#[test]
fn the_age_borrows_from_the_seconds() {
    let now = Timestamp { seconds: 100, nanos: 20_000_000 };
    let events = vec![key(1, 99, 990_000)];
    assert_eq!(ClickyEvents::when_clicked(now, &events), Some((-30_000, -30_000)));
}

#[test]
fn nanoseconds_are_cut_to_microseconds() {
    let now = Timestamp { seconds: 5, nanos: 1_999 };
    let events = vec![key(0, 5, 0)];
    assert_eq!(ClickyEvents::when_clicked(now, &events), Some((-1, -1)));
}

#[test]
fn stale_events_are_dropped() {
    assert_eq!(STALE_MICROS, 100_000);
    let at_limit = vec![key(1, 100, 400_000)];
    assert_eq!(ClickyEvents::when_clicked(NOW, &at_limit), Some((-100_000, -100_000)));
    let beyond = vec![key(1, 100, 399_999)];
    assert_eq!(ClickyEvents::when_clicked(NOW, &beyond), None);
    let long_ago = vec![key(1, 99, 950_000)];
    assert_eq!(ClickyEvents::when_clicked(NOW, &long_ago), None);
    let mixed = vec![key(1, 3, 0), key(1, 100, 495_000)];
    assert_eq!(ClickyEvents::when_clicked(NOW, &mixed), Some((-5_000, -5_000)));
}

#[test]
fn an_event_dated_after_now_counts_as_now() {
    let events = vec![key(1, 100, 700_000)];
    assert_eq!(ClickyEvents::when_clicked(NOW, &events), Some((0, 0)));
    let both = vec![key(1, 101, 0), key(0, 100, 499_000)];
    assert_eq!(ClickyEvents::when_clicked(NOW, &both), Some((-1_000, 0)));
}

#[test]
fn only_keys_going_down_or_up_count() {
    let repeat = vec![key(2, 100, 499_000)];
    assert_eq!(ClickyEvents::when_clicked(NOW, &repeat), None);
    let other = vec![KeyEvent { kind: 2, value: 1, seconds: 100, micros: 499_000 }];
    assert_eq!(ClickyEvents::when_clicked(NOW, &other), None);
    let sync = vec![KeyEvent { kind: 0, value: 0, seconds: 100, micros: 499_000 }];
    assert_eq!(ClickyEvents::when_clicked(NOW, &sync), None);
    let negative = vec![key(-1, 100, 499_000)];
    assert_eq!(ClickyEvents::when_clicked(NOW, &negative), None);
}

#[test]
fn extreme_event_times_do_not_overflow() {
    let events = vec![key(1, i64::MIN, i64::MAX), key(1, i64::MAX, i64::MIN)];
    let now = Timestamp { seconds: i64::MAX, nanos: u32::MAX };
    assert_eq!(ClickyEvents::when_clicked(now, &events), None);
    let earliest = Timestamp { seconds: i64::MIN, nanos: 0 };
    assert_eq!(ClickyEvents::when_clicked(earliest, &vec![key(1, i64::MIN, 1)]), Some((0, 0)));
    let far_ahead = vec![key(1, i64::MAX, i64::MAX)];
    assert_eq!(ClickyEvents::when_clicked(earliest, &far_ahead), Some((0, 0)));
}

#[test]
fn mapping_keeps_one_device_for_each_path() {
    let devices = vec![
        found(Some("usb-1"), 3, true),
        found(None, 4, true),
        found(Some("usb-2"), 5, true),
        found(Some("usb-1"), 6, true),
    ];
    let mapped = make_device_mapping(devices);
    let pairs: Vec<(String, i32)> = mapped.iter().map(|d| (d.path.clone(), d.handle)).collect();
    assert_eq!(pairs, vec![("usb-1".to_string(), 6), ("usb-2".to_string(), 5)]);
}

#[test]
fn mapping_of_nothing_is_empty() {
    assert!(make_device_mapping(vec![]).is_empty());
    assert!(make_device_mapping(vec![found(None, 1, true)]).is_empty());
}

#[test]
fn a_new_registry_watches_nothing() {
    let mut events = ClickyEvents::new();
    assert!(events.handles().is_empty());
    assert_eq!(events.poll_capacity(), 0);
    let journal = events.take_journal();
    assert!(journal.added.is_empty());
    assert!(journal.removed.is_empty());
}

#[test]
fn the_first_enumeration_adds_the_devices_with_keys() {
    let mut events = ClickyEvents::new();
    events.reenumerate(vec![
        found(Some("a"), 3, true),
        found(Some("b"), 4, false),
        found(Some("c"), 5, true),
        found(None, 6, true),
    ]);
    assert_eq!(events.handles(), vec![3, 5]);
    assert_eq!(events.poll_capacity(), 4);
    let journal = events.take_journal();
    assert_eq!(journal.added, vec![3, 5]);
    assert!(journal.removed.is_empty());
}

#[test]
fn a_later_enumeration_notes_who_left_and_who_joined() {
    let mut events = ClickyEvents::new();
    events.reenumerate(vec![found(Some("a"), 3, true), found(Some("c"), 5, true)]);
    events.take_journal();
    events.reenumerate(vec![found(Some("d"), 8, true), found(Some("a"), 7, true)]);
    assert_eq!(events.handles(), vec![3, 8]);
    let journal = events.take_journal();
    assert_eq!(journal.removed, vec![5]);
    assert_eq!(journal.added, vec![8]);
}

#[test]
fn the_journal_gathers_until_it_is_taken() {
    let mut events = ClickyEvents::new();
    events.reenumerate(vec![found(Some("a"), 3, true)]);
    events.reenumerate(vec![found(Some("b"), 4, true)]);
    events.reenumerate(vec![found(Some("b"), 9, true)]);
    let journal = events.take_journal();
    assert_eq!(journal.added, vec![3, 4]);
    assert_eq!(journal.removed, vec![3]);
    let again = events.take_journal();
    assert!(again.added.is_empty());
    assert!(again.removed.is_empty());
    assert_eq!(events.handles(), vec![4]);
}

#[test]
fn an_unchanged_enumeration_changes_nothing() {
    let mut events = ClickyEvents::new();
    events.reenumerate(vec![found(Some("a"), 3, true), found(Some("b"), 4, true)]);
    events.take_journal();
    events.reenumerate(vec![found(Some("b"), 14, true), found(Some("a"), 13, true)]);
    assert_eq!(events.handles(), vec![3, 4]);
    let journal = events.take_journal();
    assert!(journal.added.is_empty());
    assert!(journal.removed.is_empty());
}

#[test]
fn a_device_that_lost_its_keys_leaves() {
    let mut events = ClickyEvents::new();
    events.reenumerate(vec![found(Some("a"), 3, true)]);
    events.take_journal();
    events.reenumerate(vec![found(Some("a"), 3, false)]);
    assert!(events.handles().is_empty());
    assert_eq!(events.take_journal().removed, vec![3]);
}

#[test]
fn ready_devices_are_the_watched_ones_that_the_poll_named() {
    let mut events = ClickyEvents::new();
    events.reenumerate(vec![
        found(Some("a"), 3, true),
        found(Some("b"), 4, true),
        found(Some("c"), 5, true),
    ]);
    assert_eq!(events.ready_devices(&vec![5, 99, 3]), vec![3, 5]);
    assert_eq!(events.ready_devices(&vec![]), Vec::<i32>::new());
    assert_eq!(events.ready_devices(&vec![4, 4]), vec![4]);
}
