use wsola::arithmetic::Operations;
use wsola::timestretch::{StretchError, Wsola};

fn times(a: u32, b: u32) -> u32 {
    (f32::from_bits(a) * f32::from_bits(b)).to_bits()
}

fn plus(a: u32, b: u32) -> u32 {
    (f32::from_bits(a) + f32::from_bits(b)).to_bits()
}

fn apart(a: u32, b: u32) -> u32 {
    (f32::from_bits(a) - f32::from_bits(b)).abs().to_bits()
}

type Op = fn(u32, u32) -> u32;

fn floats() -> Operations<Op, Op, Op> {
    Operations { product: times, sum: plus, distance: apart }
}

fn words(samples: &[f32]) -> Vec<u32> {
    samples.iter().map(|s| s.to_bits()).collect()
}

fn samples(words: &[u32]) -> Vec<f32> {
    words.iter().map(|w| f32::from_bits(*w)).collect()
}

fn hann(size: usize) -> Vec<f32> {
    (0..size)
        .map(|i| {
            0.5 * (1.0 - (2.0 * std::f32::consts::PI * i as f32 / (size - 1) as f32).cos())
        })
        .collect()
}

fn engine_for(sample_rate: f64, speed_ratio: f64) -> Wsola {
    let window_size = (0.02 * sample_rate) as usize;
    let search_range = (0.01 * sample_rate) as usize;
    let unit = Wsola::new(window_size, search_range);
    unit.with_hop_in((unit.hop_out() as f64 * speed_ratio) as usize)
}

fn stretch(input: &[f32], sample_rate: f64, speed_ratio: f64) -> Result<Vec<f32>, StretchError> {
    let engine = engine_for(sample_rate, speed_ratio);
    let window = words(&hann(engine.window_size));
    let estimate = (input.len() as f64 / speed_ratio) as usize;
    let signal = engine.process(words(input), &window, estimate, &floats())?;
    Ok(samples(&signal))
}

fn sine(frequency: f64, sample_rate: f64, len: usize) -> Vec<f32> {
    (0..len)
        .map(|n| (2.0 * std::f64::consts::PI * frequency * n as f64 / sample_rate).sin() as f32)
        .collect()
}

fn chord(sample_rate: f64, len: usize) -> Vec<f32> {
    let low = sine(220.0, sample_rate, len);
    let high = sine(587.33, sample_rate, len);
    low.iter().zip(high.iter()).map(|(a, b)| 0.6 * a + 0.3 * b).collect()
}

/// The synthesis written out on floating-point numbers, to hold the engine against.
fn synthesis_in_floats(input: &[f32], sample_rate: f64, speed_ratio: f64) -> Vec<f32> {
    let size = (0.02 * sample_rate) as usize;
    let range = (0.01 * sample_rate) as usize;
    if input.len() < size + range {
        return input.to_vec();
    }
    let half = size / 2;
    let stride = (half as f64 * speed_ratio) as usize;
    let envelope = hann(size);
    let mut out = vec![0.0f32; (input.len() as f64 / speed_ratio) as usize + size];
    for (slot, (x, w)) in out.iter_mut().zip(input.iter().zip(envelope.iter())) {
        *slot = x * w;
    }
    let (mut read, mut write) = (0usize, 0usize);
    while read + stride + size + range < input.len() {
        let tail = out[write + half..write + 2 * half].to_vec();
        let nominal = read + stride;
        let mut chosen = 0;
        let mut least = f32::MAX;
        for shift in 0..=range {
            let mut total = 0.0f32;
            for (t, x) in tail.iter().zip(input[nominal + shift..].iter()) {
                total += (t - x).abs();
            }
            if total < least {
                least = total;
                chosen = shift;
            }
        }
        read = nominal + chosen;
        write += half;
        for k in 0..size {
            if write + k < out.len() {
                out[write + k] += input[read + k] * envelope[k];
            }
        }
    }
    out.truncate(write + size);
    out
}

#[test]
fn sine_at_one_and_a_half_speed() {
    let engine = engine_for(44100.0, 1.5);
    assert_eq!(engine.window_size, 882);
    assert_eq!(engine.search_range, 441);
    assert_eq!(engine.hop_out(), 441);
    assert_eq!(engine.hop_in, 661);

    let input = sine(440.0, 44100.0, 100_000);
    let output = stretch(&input, 44100.0, 1.5).unwrap();

    // whole hops and one window
    assert_eq!((output.len() - 882) % 441, 0);
    // never beyond the estimate and one window
    assert!(output.len() <= 66_666 + 882);
    // near two thirds of the input: between the length that the furthest
    // move in every search gives and the one that no move at all gives
    assert!(output.len() >= 89 * 441 + 882);
    assert!(output.len() <= 149 * 441 + 882);
    assert!(output.len() < input.len());
}

#[test]
fn short_input_is_returned_bit_for_bit() {
    let mut input = sine(440.0, 8000.0, 239);
    input[7] = f32::NAN;
    input[8] = -0.0;
    input[9] = f32::INFINITY;
    let engine = engine_for(8000.0, 1.5);
    assert_eq!(engine.window_size + engine.search_range, 240);
    let window = words(&hann(engine.window_size));
    let output = engine.process(words(&input), &window, 159, &floats()).unwrap();
    assert_eq!(output, words(&input));
    let empty = engine.process(vec![], &window, 0, &floats()).unwrap();
    assert!(empty.is_empty());
}

#[test]
fn input_of_exactly_window_and_range_is_windowed() {
    let input = vec![1.0f32; 240];
    let output = stretch(&input, 8000.0, 1.5).unwrap();
    assert_eq!(output, hann(160));
}

#[test]
fn estimate_and_window_bound_the_length() {
    let input = chord(8000.0, 6000);
    for ratio in [0.8, 1.0, 1.25, 1.5, 2.0, 3.0] {
        let output = stretch(&input, 8000.0, ratio).unwrap();
        let estimate = (6000.0 / ratio) as usize;
        assert!(output.len() <= estimate + 160);
        assert_eq!((output.len() - 160) % 80, 0);
    }
}

#[test]
fn double_speed_is_shorter_than_unit_speed() {
    let input = sine(440.0, 8000.0, 8200);
    let unit = stretch(&input, 8000.0, 1.0).unwrap();
    let double = stretch(&input, 8000.0, 2.0).unwrap();
    assert!(double.len() < unit.len());
    let input = chord(8000.0, 8200);
    let unit = stretch(&input, 8000.0, 1.0).unwrap();
    let double = stretch(&input, 8000.0, 2.0).unwrap();
    assert!(double.len() < unit.len());
}

#[test]
fn length_falls_as_speed_rises() {
    let input = chord(8000.0, 8000);
    let mut last = usize::MAX;
    for ratio in [1.0, 2.0, 3.0, 4.0, 5.0] {
        let output = stretch(&input, 8000.0, ratio).unwrap();
        assert!(output.len() < last);
        last = output.len();
    }
}

#[test]
fn unit_speed_keeps_a_steady_signal() {
    let engine = engine_for(8000.0, 1.0);
    assert_eq!(engine.hop_in, engine.hop_out());
    let input = vec![0.5f32; 4000];
    let output = stretch(&input, 8000.0, 1.0).unwrap();
    // 46 frames follow the first: 46 hops of 80 and one window of 160
    assert_eq!(output.len(), 3840);
    assert!(input.len() - output.len() <= 160 + 80);
    // between the fade-in of the first frame and the fade-out of the last
    for sample in &output[80..output.len() - 80] {
        assert!((sample - 0.5).abs() < 0.01);
    }
}

#[test]
fn unit_speed_never_lengthens() {
    let input = chord(8000.0, 5000);
    let output = stretch(&input, 8000.0, 1.0).unwrap();
    assert!(output.len() <= input.len());
    assert!(output.len() >= 30 * 80 + 160);
}

#[test]
fn silence_stays_silence() {
    let input = vec![0.0f32; 5000];
    let output = stretch(&input, 8000.0, 1.5).unwrap();
    // frames at 120, 240, ... while 120 k + 120 + 240 < 5000: 39 of them
    assert_eq!(output.len(), 39 * 80 + 160);
    assert_eq!(output.len(), (5000 - 160 - 80 - 1) / 120 * 80 + 160);
    assert!(words(&output).iter().all(|w| *w == 0));
    let short = stretch(&[0.0f32; 100], 8000.0, 1.5).unwrap();
    assert_eq!(words(&short), vec![0u32; 100]);
}

#[test]
fn same_input_same_output() {
    let input = chord(8000.0, 6000);
    let first = stretch(&input, 8000.0, 1.3).unwrap();
    let second = stretch(&input, 8000.0, 1.3).unwrap();
    assert_eq!(words(&first), words(&second));
}

#[test]
fn engine_agrees_with_synthesis_in_floats() {
    let input = chord(8000.0, 6000);
    for ratio in [0.7, 1.0, 1.5, 2.2] {
        let output = stretch(&input, 8000.0, ratio).unwrap();
        let expected = synthesis_in_floats(&input, 8000.0, ratio);
        assert_eq!(words(&output), words(&expected));
    }
    let input = sine(440.0, 44100.0, 100_000);
    let output = stretch(&input, 44100.0, 1.5).unwrap();
    assert_eq!(words(&output), words(&synthesis_in_floats(&input, 44100.0, 1.5)));
}

#[test]
fn engine_agrees_with_synthesis_in_floats_on_odd_values() {
    let mut input = chord(8000.0, 6000);
    for (k, slot) in input.iter_mut().enumerate() {
        match k % 97 {
            0 => *slot = f32::NAN,
            13 => *slot = f32::INFINITY,
            29 => *slot = f32::NEG_INFINITY,
            41 => *slot = -0.0,
            53 => *slot = 1.0e-42,
            67 => *slot = f32::MAX,
            79 => *slot = f32::MIN,
            _ => {}
        }
    }
    // the head stays plain, so that some searches see numbers only
    for (k, slot) in input.iter_mut().enumerate().take(1500) {
        *slot = (k as f32 * 0.01).sin();
    }
    for ratio in [0.9, 1.5] {
        let output = stretch(&input, 8000.0, ratio).unwrap();
        let expected = synthesis_in_floats(&input, 8000.0, ratio);
        assert_eq!(words(&output), words(&expected));
    }
}

#[test]
fn one_call_stretches_floats() {
    let input = chord(8000.0, 3000);
    let engine = engine_for(8000.0, 1.5);
    let window = words(&hann(engine.window_size));
    let direct =
        wsola::timestretch(words(&input), &window, engine.search_range, engine.hop_in, 2000, &floats());
    assert_eq!(direct.map(|w| samples(&w)), stretch(&input, 8000.0, 1.5));
}

#[test]
fn hann_window_rises_and_falls() {
    let window = hann(5);
    assert_eq!(window[0], 0.0);
    assert!((window[1] - 0.5).abs() < 1.0e-6);
    assert!((window[2] - 1.0).abs() < 1.0e-6);
    assert!((window[3] - 0.5).abs() < 1.0e-6);
    assert!(window[4].abs() < 1.0e-6);
    assert!(hann(1)[0].is_nan());
    assert!(hann(0).is_empty());
}

#[test]
fn signal_ends_with_the_buffer_when_the_hop_was_rounded_down() {
    // ratio 1.05 leaves the input hop at 10, the output hop: 96 frames end
    // at 960 + 20, the buffer at 952 + 20
    let engine = engine_for(1000.0, 1.05);
    assert_eq!(engine, Wsola { window_size: 20, search_range: 10, hop_in: 10 });
    let output = stretch(&[0.0f32; 1000], 1000.0, 1.05).unwrap();
    assert_eq!(output.len(), 972);
}

#[test]
fn negative_speed_overruns() {
    // the input hop and the estimate both come out as zero
    let engine = engine_for(8000.0, -1.5);
    assert_eq!(engine, Wsola { window_size: 160, search_range: 80, hop_in: 0 });
    let input = sine(440.0, 8000.0, 2000);
    assert_eq!(stretch(&input, 8000.0, -1.5), Err(StretchError::Overrun));
}

#[test]
fn one_silent_sample_under_a_window_of_one_is_not_kept() {
    // the only coefficient of a window of one sample is not a number
    let engine = engine_for(50.0, 1.5);
    let window = words(&hann(engine.window_size));
    let output = engine.process(words(&[0.0]), &window, 0, &floats()).unwrap();
    assert_eq!(output.len(), 1);
    assert!(f32::from_bits(output[0]).is_nan());
}

#[test]
fn slow_speed_with_a_short_estimate_overruns() {
    // ratio 0.19 turns a hop of 10 into an input hop of 1, a tenth: the
    // frames need ten times the input's length, the estimate allows five
    let input = vec![0.0f32; 1000];
    assert_eq!(engine_for(1000.0, 0.19).hop_in, 1);
    assert_eq!(stretch(&input, 1000.0, 0.19), Err(StretchError::Overrun));
}

#[test]
fn window_of_one_sample_stalls() {
    let engine = engine_for(50.0, 1.5);
    assert_eq!(engine, Wsola { window_size: 1, search_range: 0, hop_in: 0 });
    let got = engine.process(words(&[0.25, 0.5, 0.75]), &words(&[1.0]), 2, &floats());
    assert_eq!(got, Err(StretchError::Stalled));
}
