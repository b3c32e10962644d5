use lox_linein_bridge::audio::ResamplerMode;
use lox_linein_bridge::resampler::{
    sinc_quality, sinc_settings, Interpolation, LinearResampler, RateTrack, RateVerdict,
    RateWindow, Resampler, Route, SincQuality, SincResampler, SincSettings,
};

const SECOND: u128 = 1_000_000_000;

fn mix(a: f32, b: f32, weight: f32) -> i16 {
    ((a + (b - a) * weight) * 1000.0).round() as i16
}

#[test]
fn linear_interpolation_mixes_neighbouring_frames() {
    let mut queue: LinearResampler<f32> = LinearResampler::new(2);
    assert_eq!(queue.push_input(&[0.0, 1.0, 0.5, 0.5, 1.0, 0.0], 2, 48_000), 0);
    assert_eq!(queue.available_frames(2), 3);
    let out = queue.emit(&vec![(0, 0.5), (1, 0.0)], 1, 2, 0.0, mix);
    assert_eq!(out, [250, 750, 500, 500]);
    // One frame was taken off the front.
    assert_eq!(queue.available_frames(2), 2);
    assert_eq!(queue.emit(&vec![(0, 0.25)], 2, 2, 0.0, mix), [625, 375]);
    assert_eq!(queue.available_frames(2), 0);
}

#[test]
fn linear_interpolation_doubles_mono() {
    let mut queue: LinearResampler<f32> = LinearResampler::new(1);
    queue.push_input(&[0.0, 1.0], 1, 48_000);
    assert_eq!(queue.emit(&vec![(0, 0.1)], 0, 1, 0.0, mix), [100, 100]);
    assert_eq!(queue.available_frames(1), 2);
    queue.reset();
    assert_eq!(queue.available_frames(1), 0);
}

#[test]
fn at_most_a_second_waits_for_interpolation() {
    let mut queue: LinearResampler<f32> = LinearResampler::new(2);
    assert_eq!(queue.push_input(&[0.1, 0.2, 0.3, 0.4], 2, 3), 0);
    assert_eq!(queue.push_input(&[0.5, 0.6, 0.7, 0.8], 2, 3), 1);
    assert_eq!(queue.available_frames(2), 3);
    assert_eq!(
        queue.emit(&vec![(0, 0.0), (1, 0.0)], 3, 2, 0.0, mix),
        [300, 400, 500, 600]
    );
    // Half a frame does not count as a dropped one.
    assert_eq!(queue.push_input(&[0.0; 7], 2, 3), 0);
    assert_eq!(queue.available_frames(2), 3);
}

#[test]
fn the_filter_gets_chunks_of_the_size_it_needs() {
    let mut queue: SincResampler<i32> = SincResampler::new(2);
    queue.push_stereo_frames(&[1, -1, 2, -2, 3, -3, 4, -4, 5, -5, 99], 2, 0);
    assert_eq!(queue.next_chunk(6), None);
    assert_eq!(queue.next_chunk(2), Some((vec![1, 2], vec![-1, -2])));
    // Until they are marked as read the same frames come again.
    assert_eq!(queue.next_chunk(1), Some((vec![1], vec![-1])));
    queue.advance(1);
    assert_eq!(queue.next_chunk(2), Some((vec![2, 3], vec![-2, -3])));
    queue.advance(3);
    assert_eq!(queue.next_chunk(1), Some((vec![5], vec![-5])));
    queue.push_stereo_frames(&[6, 7], 1, 0);
    assert_eq!(queue.next_chunk(3), Some((vec![5, 6, 7], vec![-5, 6, 7])));
    assert_eq!(queue.next_chunk(4), None);
    queue.reset();
    assert_eq!(queue.next_chunk(1), None);
    assert_eq!(queue.next_chunk(0), Some((vec![], vec![])));
}

#[test]
fn half_a_percent_is_within_the_deadband() {
    let mut track = RateTrack::new(48_000);
    assert_eq!(track.close(48_240), RateVerdict::Steady);
    assert_eq!(track.close(47_760), RateVerdict::Steady);
    assert_eq!(track.pending, None);
    assert_eq!(track.observed, Some(47_760));
    assert_eq!(track.close(48_241), RateVerdict::Suspect);
    assert_eq!(track.pending, Some(48_241));
    assert_eq!(track.close(47_759), RateVerdict::Suspect);
    assert_eq!(track.pending, Some(47_759));
    assert_eq!(track.in_rate, 48_000);
}

#[test]
fn the_deadband_agrees_with_the_quotient() {
    for reference in [1u32, 7, 199, 200, 201, 8_000, 44_100, 48_000, 192_000, u32::MAX] {
        for step in 0..1_200u32 {
            for observed in [reference.saturating_sub(step), reference.saturating_add(step)] {
                if observed == 0 {
                    continue;
                }
                let deviation =
                    (observed as f64 - reference as f64).abs() / reference as f64;
                let mut track = RateTrack::new(reference);
                let steady = track.close(observed) == RateVerdict::Steady;
                assert_eq!(steady, deviation <= 0.005, "{} {}", observed, reference);
            }
        }
    }
}

#[test]
fn three_agreeing_windows_rerate_the_resampler() {
    let mut track = RateTrack::new(48_000);
    assert_eq!(track.close(44_100), RateVerdict::Suspect);
    assert_eq!(track.close(44_090), RateVerdict::Suspect);
    assert_eq!(track.in_rate, 48_000);
    assert_eq!(track.close(44_110), RateVerdict::Rerated { previous: 48_000 });
    assert_eq!(track.in_rate, 44_110);
    assert_eq!(track.pending, None);
    assert_eq!(track.confirmations, 0);
}

#[test]
fn a_single_stall_does_not_rerate_it() {
    let mut track = RateTrack::new(48_000);
    track.close(44_100);
    track.close(44_100);
    // Back to normal: the suspicion ends.
    assert_eq!(track.close(48_000), RateVerdict::Steady);
    assert_eq!(track.close(44_100), RateVerdict::Suspect);
    assert_eq!(track.close(44_100), RateVerdict::Suspect);
    // Another rate starts the count anew.
    assert_eq!(track.close(50_000), RateVerdict::Suspect);
    assert_eq!(track.close(50_000), RateVerdict::Suspect);
    assert_eq!(track.close(50_000), RateVerdict::Rerated { previous: 48_000 });
}

#[test]
fn a_silent_window_changes_nothing() {
    let mut track = RateTrack::new(48_000);
    track.close(44_100);
    let before = track;
    assert_eq!(track.close(0), RateVerdict::Silent);
    assert_eq!(track, before);
}

#[test]
fn silent_windows_are_passed_over() {
    let mut track = RateTrack::new(48_000);
    for observed in [44_100, 0, 44_100, 0] {
        track.close(observed);
        assert_eq!(track.in_rate, 48_000);
    }
    assert_eq!(track.close(44_100), RateVerdict::Rerated { previous: 48_000 });
}

#[test]
fn batches_are_routed_by_rate_and_mode() {
    let linear: Resampler<f32> = Resampler::new(44_100, 2, 48_000, ResamplerMode::Linear, 0);
    assert!(linear.needs_resample_rate());
    assert_eq!(linear.route(10, 2), Route::Linear);
    assert_eq!(linear.route(0, 2), Route::Nothing);
    assert_eq!(linear.route(10, 0), Route::Nothing);
    for mode in [ResamplerMode::SincFast, ResamplerMode::SincQuality] {
        let sinc: Resampler<f32> = Resampler::new(44_100, 2, 48_000, mode, 0);
        assert_eq!(sinc.route(10, 2), Route::Sinc);
        assert!(sinc.sinc.is_some());
    }
    let same: Resampler<f32> = Resampler::new(48_000, 2, 48_000, ResamplerMode::Linear, 0);
    assert!(!same.needs_resample_rate());
    assert_eq!(same.route(0, 2), Route::Direct);
    assert!(same.sinc.is_none());
}

#[test]
fn a_window_closes_after_two_seconds() {
    let mut resampler: Resampler<f32> =
        Resampler::new(48_000, 2, 44_100, ResamplerMode::Linear, SECOND);
    assert_eq!(resampler.observe_input(100, 2, 3 * SECOND - 1), None);
    assert_eq!(
        resampler.observe_input(51, 2, 3 * SECOND),
        Some(RateWindow {
            frames: 75,
            elapsed_ns: 2 * SECOND
        })
    );
    assert_eq!(resampler.close_window(48_001, 3 * SECOND), RateVerdict::Steady);
    assert_eq!(resampler.rate_frames, 0);
    assert_eq!(resampler.rate_start_ns, 3 * SECOND);
    assert_eq!(resampler.track.observed, Some(48_001));
    assert_eq!(resampler.observe_input(2, 2, 4 * SECOND), None);
}

#[test]
fn rerating_starts_interpolation_afresh() {
    let mut resampler: Resampler<f32> =
        Resampler::new(48_000, 1, 32_000, ResamplerMode::Linear, 0);
    resampler.linear.push_input(&[0.5, 0.5], 1, 32_000);
    resampler.close_window(44_100, SECOND);
    resampler.close_window(44_100, SECOND);
    assert_eq!(resampler.linear.available_frames(1), 2);
    let verdict = resampler.close_window(44_100, SECOND);
    assert_eq!(verdict, RateVerdict::Rerated { previous: 48_000 });
    assert_eq!(resampler.linear.available_frames(1), 0);
    assert_eq!(resampler.track.in_rate, 44_100);
}

#[test]
fn the_queue_of_the_filter_is_kept_until_a_new_filter_stands() {
    let mut resampler: Resampler<f32> =
        Resampler::new(48_000, 1, 32_000, ResamplerMode::SincFast, 0);
    resampler
        .sinc
        .as_mut()
        .expect("this mode has a filter")
        .push_stereo_frames(&[0.5], 1, 0.0);
    for _ in 0..3 {
        resampler.close_window(44_100, SECOND);
    }
    assert_eq!(resampler.track.in_rate, 44_100);
    let waiting = |resampler: &Resampler<f32>| {
        let sinc = resampler.sinc.as_ref().expect("this mode has a filter");
        sinc.next_chunk(1).is_some()
    };
    assert!(waiting(&resampler));
    resampler.sinc_rebuilt();
    assert!(!waiting(&resampler));
}

#[test]
fn filters_have_their_settings() {
    assert_eq!(sinc_quality(ResamplerMode::Linear), None);
    assert_eq!(sinc_quality(ResamplerMode::SincFast), Some(SincQuality::Fast));
    assert_eq!(sinc_quality(ResamplerMode::SincQuality), Some(SincQuality::Quality));
    assert_eq!(
        sinc_settings(SincQuality::Fast),
        SincSettings {
            sinc_len: 128,
            oversampling_factor: 64,
            interpolation: Interpolation::Quadratic,
            cutoff_percent: 90,
        }
    );
    assert_eq!(
        sinc_settings(SincQuality::Quality),
        SincSettings {
            sinc_len: 256,
            oversampling_factor: 256,
            interpolation: Interpolation::Cubic,
            cutoff_percent: 95,
        }
    );
}

/// Takes two and three frames in turn, and hands each block out as it came.
struct TakesTurns {
    blocks: Vec<(Vec<i32>, Vec<i32>)>,
}

impl TakesTurns {
    fn process(&mut self, queue: &mut SincResampler<i32>, input: &[i32], channels: u16) {
        queue.push_stereo_frames(input, channels, 0);
        loop {
            let needed = 2 + self.blocks.len() % 2;
            let Some(block) = queue.next_chunk(needed) else {
                break;
            };
            self.blocks.push(block);
            queue.advance(needed);
        }
    }
}

#[test]
fn how_the_input_is_cut_does_not_show() {
    for channels in [1u16, 2, 3] {
        let step = channels as usize;
        let input: Vec<i32> = (0..17 * channels as i32).collect();
        let mut whole = TakesTurns { blocks: vec![] };
        let mut queue = SincResampler::new(channels);
        whole.process(&mut queue, &input, channels);
        // Seven blocks take all frames, in order.
        assert_eq!(whole.blocks.len(), 7);
        let left: Vec<i32> = whole.blocks.iter().flat_map(|block| block.0.clone()).collect();
        let expected: Vec<i32> = input.iter().step_by(step).copied().collect();
        assert_eq!(left, expected);
        for cut in 0..=17 {
            let (a, b) = input.split_at(cut * step);
            let mut parts = TakesTurns { blocks: vec![] };
            let mut queue = SincResampler::new(channels);
            parts.process(&mut queue, a, channels);
            parts.process(&mut queue, b, channels);
            assert_eq!(parts.blocks, whole.blocks);
        }
    }
}

#[test]
fn what_the_filter_made_is_interleaved() {
    let mut queue: SincResampler<f32> = SincResampler::new(1);
    queue.push_stereo_frames(&[0.1, 0.2, 0.3], 1, 0.0);
    let to_i16 = |sample: f32| (sample * 100.0) as i16;
    let made = queue.settle(2, Some(vec![vec![0.5, 0.25, 0.75], vec![-0.5, -0.25]]), to_i16);
    assert_eq!(made, Some(vec![50, -50, 25, -25]));
    assert_eq!(queue.next_chunk(1), Some((vec![0.3], vec![0.3])));
    assert_eq!(queue.next_chunk(2), None);
}

#[test]
fn frames_on_which_the_filter_fails_are_kept() {
    let mut queue: SincResampler<f32> = SincResampler::new(1);
    queue.push_stereo_frames(&[0.1, 0.2, 0.3], 1, 0.0);
    assert_eq!(queue.settle(2, None, |sample: f32| sample as i16), None);
    assert_eq!(
        queue.next_chunk(3),
        Some((vec![0.1, 0.2, 0.3], vec![0.1, 0.2, 0.3]))
    );
}

/// Linear interpolation from a place that is added up in floating point.
struct Interpolation64 {
    queue: LinearResampler<f32>,
    pos: f64,
}

impl Interpolation64 {
    fn process(&mut self, input: &[f32], channels: u16, step: f64, target: u32) -> Vec<i16> {
        let dropped = self.queue.push_input(input, channels, target);
        self.pos = (self.pos - dropped as f64).max(0.0);
        let available = self.queue.available_frames(channels);
        let mut positions = Vec::new();
        while self.pos + 1.0 < available as f64 {
            let index = self.pos.floor() as usize;
            positions.push((index, (self.pos - index as f64) as f32));
            self.pos += step;
        }
        let consumed = self.pos.floor() as usize;
        let out = self.queue.emit(&positions, consumed, channels, 0.0, mix);
        self.pos -= consumed as f64;
        out
    }
}

fn interpolation(channels: u16) -> Interpolation64 {
    Interpolation64 {
        queue: LinearResampler::new(channels),
        pos: 0.0,
    }
}

#[test]
fn how_the_input_is_cut_does_not_show_in_interpolation() {
    for channels in [1u16, 2, 3] {
        let width = channels as usize;
        let input: Vec<f32> = (0..23 * width).map(|i| (i * i % 97) as f32 / 97.0).collect();
        for step in [0.5, 1.0, 2.0] {
            let expected = interpolation(channels).process(&input, channels, step, 100);
            assert!(!expected.is_empty());
            for cut in 0..=23 {
                let (a, b) = input.split_at(cut * width);
                let mut parts = interpolation(channels);
                let mut out = parts.process(a, channels, step, 100);
                out.extend(parts.process(b, channels, step, 100));
                assert_eq!(out, expected, "step {} cut {}", step, cut);
            }
        }
    }
}
