use wsola::arithmetic::Operations;
use wsola::search::{find_best_match, segment_difference, CEILING};

fn plus(a: u32, b: u32) -> u32 {
    a.wrapping_add(b)
}

fn apart(a: u32, b: u32) -> u32 {
    a.abs_diff(b)
}

fn bits_plus(a: u32, b: u32) -> u32 {
    (f32::from_bits(a) + f32::from_bits(b)).to_bits()
}

fn bits_apart(a: u32, b: u32) -> u32 {
    (f32::from_bits(a) - f32::from_bits(b)).abs().to_bits()
}

fn times(a: u32, b: u32) -> u32 {
    a.wrapping_mul(b)
}

fn bits_times(a: u32, b: u32) -> u32 {
    (f32::from_bits(a) * f32::from_bits(b)).to_bits()
}

type Op = fn(u32, u32) -> u32;

fn integers() -> Operations<Op, Op, Op> {
    Operations { product: times, sum: plus, distance: apart }
}

fn floats() -> Operations<Op, Op, Op> {
    Operations { product: bits_times, sum: bits_plus, distance: bits_apart }
}

fn words(samples: &[f32]) -> Vec<u32> {
    samples.iter().map(|s| s.to_bits()).collect()
}

#[test]
fn difference_sums_the_absolute_gaps() {
    let template = [3, 1, 4];
    let area = [9, 2, 6, 5, 3];
    assert_eq!(segment_difference(&template, &area, 1, &integers()), 7);
    assert_eq!(segment_difference(&template, &area, 0, &integers()), 6 + 1 + 2);
    assert_eq!(segment_difference(&template, &area, 2, &integers()), 3 + 4 + 1);
}

#[test]
fn difference_of_an_empty_template_is_silence() {
    let template: [u32; 0] = [];
    let area = [9, 2, 6];
    assert_eq!(segment_difference(&template, &area, 3, &integers()), 0);
}

#[test]
fn difference_adds_from_the_left() {
    // 1e8 + 1 rounds back to 1e8, so the order of the additions shows.
    let template = words(&[1.0e8, 1.0, 1.0, 1.0, 1.0]);
    let area = words(&[0.0, 0.0, 0.0, 0.0, 0.0]);
    let got = segment_difference(&template, &area, 0, &floats());
    assert_eq!(f32::from_bits(got), 1.0e8);
    let template = words(&[1.0, 1.0, 1.0, 1.0, 1.0e8]);
    let got = segment_difference(&template, &area, 0, &floats());
    assert_eq!(f32::from_bits(got), 1.0e8 + 4.0);
}

#[test]
fn best_match_is_the_least_difference() {
    let template = [5, 9];
    let area = [1, 5, 9, 5, 9, 0];
    assert_eq!(find_best_match(&template, &area, &integers()), 1);
}

#[test]
fn best_match_prefers_the_earliest_of_equals() {
    let template = [4, 4];
    let area = [1, 1, 5, 3, 3, 5, 1];
    // offsets 2, 3 and 4 all differ by 2
    assert_eq!(find_best_match(&template, &area, &integers()), 2);
}

#[test]
fn best_match_tries_the_last_alignment() {
    let template = [5, 9];
    let area = [1, 5, 0, 5, 9];
    // the exact match sits at offset 3, where the segment ends with the area
    assert_eq!(find_best_match(&template, &area, &integers()), 3);
    let template = words(&[1.0]);
    let area = words(&[5.0, 1.0]);
    assert_eq!(find_best_match(&template, &area, &floats()), 1);
}

#[test]
fn best_match_finds_a_segment_cut_from_the_area() {
    let area = [9, 2, 6, 2, 6, 7, 3];
    for start in 0..6 {
        let template = &area[start..start + 2];
        let found = find_best_match(template, &area, &integers());
        assert!(found <= start);
        assert_eq!(&area[found..found + 2], template);
    }
    // [2, 6] occurs at 1 and at 3: the first is taken
    assert_eq!(find_best_match(&area[3..5], &area, &integers()), 1);
}

#[test]
fn best_match_is_no_worse_than_any_segment() {
    let template = [4, 1, 7];
    let area = [3, 3, 8, 0, 6, 5, 1, 7, 2];
    let found = find_best_match(&template, &area, &integers());
    let least = segment_difference(&template, &area, found, &integers());
    for offset in 0..=area.len() - template.len() {
        assert!(least <= segment_difference(&template, &area, offset, &integers()));
    }
}

#[test]
fn best_match_of_equal_lengths_is_zero() {
    let template = [5, 9, 7];
    let area = [5, 9, 7];
    assert_eq!(find_best_match(&template, &area, &integers()), 0);
    let area = [0, 0, 0];
    assert_eq!(find_best_match(&template, &area, &integers()), 0);
}

#[test]
fn best_match_ignores_differences_at_the_ceiling() {
    let template = [0];
    let area = [CEILING, CEILING + 1, u32::MAX];
    // none of the three candidates lies below the ceiling
    assert_eq!(find_best_match(&template, &area, &integers()), 0);
    let area = [CEILING, CEILING + 1, CEILING - 1, u32::MAX];
    assert_eq!(find_best_match(&template, &area, &integers()), 2);
}

#[test]
fn best_match_skips_segments_that_are_not_numbers() {
    let template = words(&[0.5, -0.25]);
    let area = words(&[f32::NAN, 0.5, 0.5, -0.25, 0.0]);
    // offset 0 touches the NaN, offsets 1 and 3 differ; offset 2 matches exactly
    assert_eq!(find_best_match(&template, &area, &floats()), 2);
    let area = words(&[f32::NAN, f32::NAN, f32::NAN, 0.0]);
    assert_eq!(find_best_match(&template, &area, &floats()), 0);
    let area = words(&[f32::INFINITY, 0.0, f32::NEG_INFINITY, 0.0]);
    assert_eq!(find_best_match(&template, &area, &floats()), 0);
}

#[test]
fn best_match_orders_words_as_their_values() {
    let template = words(&[0.0, 0.0, 0.0]);
    let area = words(&[0.75, -0.5, 0.25, 1.0e-40, -1.0e-41, 0.0, 3.0, 9.0]);
    // sums: 1.5, 0.75+, 0.25+, 1.1e-40, 3.0, 12.0
    assert_eq!(find_best_match(&template, &area, &floats()), 3);
}
