use wsola::arithmetic::Operations;
use wsola::frame::{overlap_add, write_first_frame};

fn times(a: u32, b: u32) -> u32 {
    a.wrapping_mul(b)
}

fn plus(a: u32, b: u32) -> u32 {
    a.wrapping_add(b)
}

fn apart(a: u32, b: u32) -> u32 {
    a.abs_diff(b)
}

fn keep_left(a: u32, _b: u32) -> u32 {
    a
}

type Op = fn(u32, u32) -> u32;

fn integers() -> Operations<Op, Op, Op> {
    Operations { product: times, sum: plus, distance: apart }
}

#[test]
fn first_frame_is_the_tapered_head() {
    let input = [3, 1, 4, 1, 5, 9];
    let window = [1, 2, 2, 1];
    let buffer = write_first_frame(&input, &window, 7, &integers());
    assert_eq!(buffer, vec![3, 2, 8, 1, 0, 0, 0]);
}

#[test]
fn first_frame_may_fill_the_buffer() {
    let input = [3, 1, 4];
    let window = [2, 2, 2];
    assert_eq!(write_first_frame(&input, &window, 3, &integers()), vec![6, 2, 8]);
}

#[test]
fn first_frame_of_an_empty_window_is_silence() {
    let input = [3, 1, 4];
    let window: [u32; 0] = [];
    assert_eq!(write_first_frame(&input, &window, 2, &integers()), vec![0, 0]);
}

#[test]
fn overlap_add_sums_onto_what_is_there() {
    let mut buffer = vec![10, 20, 30, 40, 50, 60];
    let input = [3, 1, 4, 1, 5, 9, 2];
    let window = [1, 2, 3];
    overlap_add(&mut buffer, &input, &window, 4, 2, &integers());
    assert_eq!(buffer, vec![10, 20, 30 + 5, 40 + 18, 50 + 6, 60]);
}

#[test]
fn overlap_add_drops_what_falls_behind_the_buffer() {
    let mut buffer = vec![10, 20, 30, 40];
    let input = [3, 1, 4, 1, 5, 9, 2];
    let window = [1, 2, 3];
    overlap_add(&mut buffer, &input, &window, 0, 3, &integers());
    assert_eq!(buffer, vec![10, 20, 30, 43]);
    overlap_add(&mut buffer, &input, &window, 0, 4, &integers());
    assert_eq!(buffer, vec![10, 20, 30, 43]);
    overlap_add(&mut buffer, &input, &window, 0, usize::MAX, &integers());
    assert_eq!(buffer, vec![10, 20, 30, 43]);
}

#[test]
fn overlap_add_hands_the_old_word_to_the_sum_first() {
    let mut buffer = vec![10, 20, 30];
    let input = [7, 7, 7];
    let window = [1, 1, 1];
    let lopsided: Operations<Op, Op, Op> =
        Operations { product: times, sum: keep_left, distance: apart };
    overlap_add(&mut buffer, &input, &window, 0, 0, &lopsided);
    assert_eq!(buffer, vec![10, 20, 30]);
}
