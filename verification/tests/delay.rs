use click_mute::delay::Delay;

#[test]
fn delay_gives_silence_then_the_inputs_in_order() {
    let mut delay = Delay::new(3);
    let outputs: Vec<i32> = (1..=7).map(|sample| delay.process(sample)).collect();
    assert_eq!(outputs, vec![0, 0, 0, 1, 2, 3, 4]);
}

#[test]
fn delay_of_one_sample_hands_back_the_previous_input() {
    let mut delay = Delay::new(1);
    assert_eq!(delay.process(5), 0);
    assert_eq!(delay.process(-6), 5);
    assert_eq!(delay.process(7), -6);
}

#[test]
fn delay_keeps_its_depth_over_many_laps() {
    let depth = 5;
    let mut delay = Delay::new(depth);
    let inputs: Vec<i32> = (0..100).map(|n| n * n - 50).collect();
    for (step, input) in inputs.iter().enumerate() {
        let output = delay.process(*input);
        if step < depth {
            assert_eq!(output, 0);
        } else {
            assert_eq!(output, inputs[step - depth]);
        }
    }
}

#[test]
fn delay_passes_extreme_samples_unchanged() {
    let mut delay = Delay::new(2);
    delay.process(i32::MIN);
    delay.process(i32::MAX);
    assert_eq!(delay.process(0), i32::MIN);
    assert_eq!(delay.process(0), i32::MAX);
}
