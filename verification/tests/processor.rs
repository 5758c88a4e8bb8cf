use fir_lowpass::dsp::convolution::convolve;
use fir_lowpass::dsp::convolution::windowed_sinc_filter;
use fir_lowpass::dsp::convolution::MAX_KERNEL_LEN;
use fir_lowpass::dsp::convolution::SAMPLE_LIMIT;
use fir_lowpass::dsp::knob_to_cutoff;
use fir_lowpass::dsp::ConfigError;
use fir_lowpass::dsp::PluginDsp;
use fir_lowpass::dsp::StateUpdate;
use fir_lowpass::dsp::DEFAULT_CHANNELS;
use fir_lowpass::dsp::DEFAULT_CUTOFF;
use fir_lowpass::dsp::DEFAULT_KERNEL_LEN;
use fir_lowpass::fixed::HALF;
use fir_lowpass::fixed::ONE;
use std::collections::VecDeque;
use std::sync::mpsc::channel;
use std::sync::mpsc::Sender;

fn designed(cutoff: i64, len: usize) -> Vec<i64> {
    let mut kernel = vec![0i64; len];
    windowed_sinc_filter(cutoff, &mut kernel);
    kernel
}

fn plugin() -> (Sender<StateUpdate>, PluginDsp) {
    let (sender, receiver) = channel();
    (sender, PluginDsp::new(receiver))
}

fn laid_out(kernel_len: usize, channels: usize) -> Result<PluginDsp, ConfigError> {
    let (_sender, receiver) = channel();
    PluginDsp::with_layout(receiver, kernel_len, channels)
}

fn noise(len: usize, mut seed: i64) -> Vec<i64> {
    let mut samples = Vec::new();
    for _ in 0..len {
        seed = (seed.wrapping_mul(1_103_515_245).wrapping_add(12_345)) % (1 << 31);
        samples.push(seed * 4 - ONE);
    }
    samples
}

fn reference(inputs: &[i64], kernel: &[i64], history: &mut VecDeque<i64>) -> Vec<i64> {
    while history.len() < kernel.len() + inputs.len() {
        history.push_back(0);
    }
    inputs.iter().map(|&x| convolve(x, kernel, history)).collect()
}

#[test]
fn new_processor_has_the_default_layout() {
    let (_sender, dsp) = plugin();
    assert_eq!(DEFAULT_KERNEL_LEN, 127);
    assert_eq!(DEFAULT_CHANNELS, 2);
    assert_eq!(DEFAULT_CUTOFF, ONE / 4);
    assert_eq!(dsp.cutoff(), ONE / 4);
    assert_eq!(dsp.channels(), 2);
    assert_eq!(dsp.kernel(), &designed(ONE / 4, 127));
    for channel in 0..2 {
        assert_eq!(dsp.history(channel).len(), 127);
        assert!(dsp.history(channel).iter().all(|&h| h == 0));
    }
}

#[test]
fn layout_is_checked_when_the_processor_is_made() {
    assert_eq!(laid_out(0, 2).err(), Some(ConfigError::EmptyKernel));
    assert_eq!(laid_out(MAX_KERNEL_LEN + 1, 2).err(), Some(ConfigError::KernelTooLong));
    assert_eq!(laid_out(usize::MAX, 0).err(), Some(ConfigError::KernelTooLong));
    assert!(laid_out(1, 0).is_ok());
    assert!(laid_out(MAX_KERNEL_LEN, 1).is_ok());
    assert_eq!(MAX_KERNEL_LEN, 8191);
}

#[test]
fn custom_layout_is_kept() {
    let dsp = laid_out(5, 3).ok().unwrap();
    assert_eq!(dsp.channels(), 3);
    assert_eq!(dsp.cutoff(), DEFAULT_CUTOFF);
    assert_eq!(dsp.kernel(), &vec![0, 2_319_282_340, 6_746_518_852, 2_319_282_340, 0]);
    for channel in 0..3 {
        assert_eq!(dsp.history(channel), &VecDeque::from(vec![0i64; 5]));
    }
}

#[test]
fn knob_maps_to_half_its_square() {
    assert_eq!(knob_to_cutoff(0), 0);
    assert_eq!(knob_to_cutoff(HALF), ONE / 8);
    assert_eq!(knob_to_cutoff(ONE / 3), 238_609_294);
    assert_eq!(knob_to_cutoff(ONE - 1), HALF - 1);
    assert_eq!(knob_to_cutoff(ONE), HALF);
}

#[test]
fn knob_beyond_its_travel_gives_the_highest_cutoff() {
    assert_eq!(knob_to_cutoff(2 * ONE), HALF);
    assert_eq!(knob_to_cutoff(i64::MAX), HALF);
    assert_eq!(knob_to_cutoff(-ONE), HALF);
    assert_eq!(knob_to_cutoff(i64::MIN), HALF);
    assert_eq!(knob_to_cutoff(-HALF), ONE / 8);
}

#[test]
fn knob_event_retunes_the_kernel() {
    let (_sender, mut dsp) = plugin();
    let mut block: Vec<Vec<i64>> = vec![vec![0; 8], vec![0; 8]];
    dsp.process_block(&[StateUpdate::SetKnob(HALF)], &mut block);
    assert_eq!(dsp.cutoff(), ONE / 8);
    assert_eq!(dsp.kernel(), &designed(ONE / 8, 127));
    assert_ne!(dsp.kernel(), &designed(ONE / 4, 127));
}

#[test]
fn last_knob_event_wins() {
    let mut dsp = laid_out(31, 1).ok().unwrap();
    let mut block: Vec<Vec<i64>> = vec![vec![ONE, 0, 0]];
    let events = [
        StateUpdate::SetKnob(ONE / 5),
        StateUpdate::SetKnob(ONE),
        StateUpdate::SetKnob(ONE * 9 / 10),
    ];
    dsp.process_block(&events, &mut block);
    assert_eq!(dsp.cutoff(), knob_to_cutoff(ONE * 9 / 10));
    let kernel = designed(knob_to_cutoff(ONE * 9 / 10), 31);
    assert_eq!(dsp.kernel(), &kernel);
    assert_eq!(block[0], kernel[..3].to_vec());
}

#[test]
fn no_event_keeps_the_kernel() {
    let (_sender, mut dsp) = plugin();
    let before = dsp.kernel().clone();
    let mut block: Vec<Vec<i64>> = vec![vec![ONE; 16], vec![-ONE; 16]];
    dsp.process_block(&[], &mut block);
    assert_eq!(dsp.kernel(), &before);
    assert_eq!(dsp.cutoff(), DEFAULT_CUTOFF);
}

#[test]
fn history_grows_to_the_largest_block_and_never_shrinks() {
    let (_sender, mut dsp) = plugin();
    let mut largest = 0;
    for size in [4usize, 16, 8, 0, 16, 17, 1, 64, 3] {
        let mut block: Vec<Vec<i64>> = vec![vec![ONE / 2; size], vec![-ONE / 2; size]];
        let before = dsp.history(0).len();
        dsp.process_block(&[], &mut block);
        if size > largest {
            largest = size;
        }
        for channel in 0..2 {
            assert_eq!(dsp.history(channel).len(), 127 + largest);
            assert!(dsp.history(channel).len() >= before);
        }
    }
}

#[test]
fn block_keeps_its_shape() {
    let (_sender, mut dsp) = plugin();
    let mut block: Vec<Vec<i64>> = vec![noise(33, 1), noise(33, 2)];
    dsp.process_block(&[], &mut block);
    assert_eq!(block.len(), 2);
    assert_eq!(block[0].len(), 33);
    assert_eq!(block[1].len(), 33);
}

#[test]
fn each_channel_is_filtered_on_its_own() {
    let (_sender, mut dsp) = plugin();
    let left = noise(50, 7);
    let right = noise(50, 99);
    let mut block: Vec<Vec<i64>> = vec![left.clone(), right.clone()];
    dsp.process_block(&[], &mut block);
    let kernel = designed(ONE / 4, 127);
    let mut history: VecDeque<i64> = VecDeque::from(vec![0i64; 127]);
    assert_eq!(block[0], reference(&left, &kernel, &mut history));
    assert_eq!(dsp.history(0), &history);
    let mut history: VecDeque<i64> = VecDeque::from(vec![0i64; 127]);
    assert_eq!(block[1], reference(&right, &kernel, &mut history));
    assert_eq!(dsp.history(1), &history);
    assert_ne!(block[0], block[1]);
}

#[test]
fn impulse_through_the_processor_gives_the_kernel() {
    let (_sender, mut dsp) = plugin();
    let mut impulse = vec![0i64; 140];
    impulse[0] = ONE;
    let mut block: Vec<Vec<i64>> = vec![impulse, vec![0; 140]];
    dsp.process_block(&[], &mut block);
    let kernel = designed(ONE / 4, 127);
    assert_eq!(&block[0][..127], &kernel[..]);
    assert!(block[0][127..].iter().all(|&y| y == 0));
    assert!(block[1].iter().all(|&y| y == 0));
}

#[test]
fn silence_through_a_new_processor_stays_silent() {
    let (_sender, mut dsp) = plugin();
    for size in [1usize, 32, 500] {
        let mut block: Vec<Vec<i64>> = vec![vec![0; size], vec![0; size]];
        dsp.process_block(&[], &mut block);
        assert!(block[0].iter().all(|&y| y == 0));
        assert!(block[1].iter().all(|&y| y == 0));
    }
}

#[test]
fn silence_stays_silent_while_the_knob_moves() {
    let (sender, mut dsp) = plugin();
    for step in 0..6 {
        sender.send(StateUpdate::SetKnob(ONE * step / 5)).unwrap();
        let mut block: Vec<Vec<i64>> = vec![vec![0; 40], vec![0; 40]];
        dsp.process(&mut block);
        assert!(block[0].iter().all(|&y| y == 0));
        assert!(block[1].iter().all(|&y| y == 0));
        assert!(dsp.history(0).iter().all(|&h| h == 0));
        assert!(dsp.history(1).iter().all(|&h| h == 0));
        assert_eq!(dsp.cutoff(), knob_to_cutoff(ONE * step / 5));
    }
}

#[test]
fn state_carries_over_between_blocks() {
    let samples = noise(300, 5);
    let mut whole = laid_out(63, 1).ok().unwrap();
    let mut block: Vec<Vec<i64>> = vec![samples.clone()];
    whole.process_block(&[], &mut block);
    let mut pieces = laid_out(63, 1).ok().unwrap();
    let mut joined: Vec<i64> = Vec::new();
    let mut start = 0;
    for size in [1usize, 100, 7, 0, 64, 128] {
        let mut part: Vec<Vec<i64>> = vec![samples[start..start + size].to_vec()];
        pieces.process_block(&[], &mut part);
        joined.extend_from_slice(&part[0]);
        start += size;
    }
    assert_eq!(start, 300);
    assert_eq!(joined, block[0]);
}

#[test]
fn retuning_keeps_the_sums_in_flight() {
    let mut dsp = laid_out(5, 1).ok().unwrap();
    let mut block: Vec<Vec<i64>> = vec![vec![ONE, 0]];
    dsp.process_block(&[], &mut block);
    let first = designed(ONE / 4, 5);
    assert_eq!(block[0], vec![first[0], first[1]]);
    let mut block: Vec<Vec<i64>> = vec![vec![ONE, 0, 0, 0, 0, 0]];
    dsp.process_block(&[StateUpdate::SetKnob(HALF)], &mut block);
    let second = designed(ONE / 8, 5);
    assert_eq!(
        block[0],
        vec![
            first[2] + second[0],
            first[3] + second[1],
            first[4] + second[2],
            second[3],
            second[4],
            0
        ]
    );
}

#[test]
fn block_without_channels_changes_no_queue() {
    let (_sender, mut dsp) = plugin();
    let mut block: Vec<Vec<i64>> = Vec::new();
    dsp.process_block(&[], &mut block);
    assert!(block.is_empty());
    assert_eq!(dsp.history(0), &VecDeque::from(vec![0i64; 127]));
    assert_eq!(dsp.history(1), &VecDeque::from(vec![0i64; 127]));
    assert_eq!(dsp.kernel(), &designed(ONE / 4, 127));
}

#[test]
fn block_without_samples_changes_no_queue() {
    let (_sender, mut dsp) = plugin();
    let mut warm: Vec<Vec<i64>> = vec![noise(10, 3), noise(10, 4)];
    dsp.process_block(&[], &mut warm);
    let left = dsp.history(0).clone();
    let right = dsp.history(1).clone();
    let mut block: Vec<Vec<i64>> = vec![Vec::new(), Vec::new()];
    dsp.process_block(&[], &mut block);
    assert_eq!(block, vec![Vec::<i64>::new(), Vec::<i64>::new()]);
    assert_eq!(dsp.history(0), &left);
    assert_eq!(dsp.history(1), &right);
}

#[test]
fn events_are_applied_even_without_samples() {
    let (_sender, mut dsp) = plugin();
    let mut block: Vec<Vec<i64>> = Vec::new();
    dsp.process_block(&[StateUpdate::SetKnob(ONE)], &mut block);
    assert_eq!(dsp.cutoff(), HALF);
    assert_eq!(dsp.kernel(), &designed(HALF, 127));
}

#[test]
fn channel_missing_from_the_block_is_only_padded() {
    let (_sender, mut dsp) = plugin();
    let mut block: Vec<Vec<i64>> = vec![noise(20, 11)];
    dsp.process_block(&[], &mut block);
    assert_eq!(dsp.history(0).len(), 147);
    assert_eq!(dsp.history(1), &VecDeque::from(vec![0i64; 147]));
    assert!(dsp.history(0).iter().any(|&h| h != 0));
}

#[test]
fn samples_at_the_limit_do_not_overflow() {
    let mut dsp = laid_out(MAX_KERNEL_LEN, 1).ok().unwrap();
    let mut block: Vec<Vec<i64>> = vec![vec![SAMPLE_LIMIT; 64]];
    dsp.process_block(&[StateUpdate::SetKnob(ONE)], &mut block);
    let mut low: Vec<Vec<i64>> = vec![vec![-SAMPLE_LIMIT; 64]];
    dsp.process_block(&[], &mut low);
    assert_eq!(dsp.history(0).len(), MAX_KERNEL_LEN + 64);
}

#[test]
fn waiting_knob_event_is_applied_by_the_next_block() {
    let (sender, mut dsp) = plugin();
    sender.send(StateUpdate::SetKnob(HALF)).unwrap();
    let mut block: Vec<Vec<i64>> = vec![vec![0; 8], vec![0; 8]];
    dsp.process(&mut block);
    assert_eq!(dsp.cutoff(), ONE / 8);
    assert_eq!(dsp.kernel(), &designed(ONE / 8, 127));
}

#[test]
fn last_waiting_event_wins() {
    let (sender, mut dsp) = plugin();
    sender.send(StateUpdate::SetKnob(ONE / 10)).unwrap();
    sender.send(StateUpdate::SetKnob(ONE)).unwrap();
    sender.send(StateUpdate::SetKnob(ONE * 3 / 4)).unwrap();
    let mut impulse = vec![0i64; 127];
    impulse[0] = ONE;
    let mut block: Vec<Vec<i64>> = vec![impulse];
    dsp.process(&mut block);
    let kernel = designed(knob_to_cutoff(ONE * 3 / 4), 127);
    assert_eq!(dsp.kernel(), &kernel);
    assert_eq!(block[0], kernel);
}

#[test]
fn events_are_taken_only_once() {
    let (sender, mut dsp) = plugin();
    sender.send(StateUpdate::SetKnob(HALF)).unwrap();
    let mut block: Vec<Vec<i64>> = vec![vec![0; 4], vec![0; 4]];
    dsp.process(&mut block);
    assert_eq!(dsp.cutoff(), ONE / 8);
    dsp.process_block(&[StateUpdate::SetKnob(ONE)], &mut block);
    assert_eq!(dsp.cutoff(), HALF);
    dsp.process(&mut block);
    assert_eq!(dsp.cutoff(), HALF);
    assert_eq!(dsp.kernel(), &designed(HALF, 127));
}

#[test]
fn empty_channel_leaves_the_kernel_alone() {
    let (_sender, mut dsp) = plugin();
    let mut block: Vec<Vec<i64>> = vec![noise(12, 8), noise(12, 9)];
    dsp.process(&mut block);
    assert_eq!(dsp.cutoff(), DEFAULT_CUTOFF);
    assert_eq!(dsp.kernel(), &designed(ONE / 4, 127));
}

#[test]
fn process_filters_like_process_block() {
    let (sender, mut live) = plugin();
    let (_other, mut direct) = plugin();
    let samples = noise(40, 21);
    sender.send(StateUpdate::SetKnob(ONE / 3)).unwrap();
    let mut a: Vec<Vec<i64>> = vec![samples.clone(), samples.clone()];
    live.process(&mut a);
    let mut b: Vec<Vec<i64>> = vec![samples.clone(), samples];
    direct.process_block(&[StateUpdate::SetKnob(ONE / 3)], &mut b);
    assert_eq!(a, b);
    assert_eq!(live.kernel(), direct.kernel());
    assert_eq!(live.history(0), direct.history(0));
    assert_eq!(live.history(1), direct.history(1));
}

#[test]
fn hung_up_sender_is_no_failure() {
    let (sender, mut dsp) = plugin();
    sender.send(StateUpdate::SetKnob(ONE)).unwrap();
    drop(sender);
    let mut block: Vec<Vec<i64>> = vec![vec![ONE, 0, 0]];
    dsp.process(&mut block);
    assert_eq!(dsp.cutoff(), HALF);
    dsp.process(&mut block);
    assert_eq!(dsp.cutoff(), HALF);
}

#[test]
fn state_update_compares_by_value() {
    assert_eq!(StateUpdate::SetKnob(5), StateUpdate::SetKnob(5));
    assert_ne!(StateUpdate::SetKnob(5), StateUpdate::SetKnob(6));
    assert_ne!(ConfigError::EmptyKernel, ConfigError::KernelTooLong);
}
