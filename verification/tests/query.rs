use waveview::vcd::{Logic, Signal};

fn square_wave() -> Signal {
    let mut signal = Signal::new(1);
    signal.insert_bit(0, Logic::V1);
    signal.insert_bit(5, Logic::V0);
    signal.insert_bit(10, Logic::V1);
    signal.insert_bit(20, Logic::V0);
    signal
}

fn bits(signal: &Signal, start: u64, end: u64) -> Vec<(u64, Logic)> {
    let mut iter = signal.bit_range(start..end).into_iter();
    let mut out = Vec::new();
    while let Some(item) = iter.next() {
        out.push(item);
    }
    out
}

fn times(signal: &Signal, start: u64, end: u64) -> Vec<u64> {
    let mut iter = signal.range(start..end).into_iter();
    let mut out = Vec::new();
    while let Some((time, _)) = iter.next() {
        out.push(time);
    }
    out
}

#[test]
fn window_begins_with_the_entry_in_effect_and_ends_past_the_end() {
    let signal = square_wave();
    let found = bits(&signal, 7, 15);
    assert_eq!(found[0], (5, Logic::V0));
    assert_eq!(found[1], (10, Logic::V1));
    assert_eq!(found, vec![(5, Logic::V0), (10, Logic::V1), (20, Logic::V0)]);
}

#[test]
fn window_that_starts_on_an_entry_begins_with_it() {
    let signal = square_wave();
    assert_eq!(times(&signal, 5, 8), vec![5, 10]);
}

#[test]
fn window_that_ends_on_an_entry_ends_with_it() {
    let signal = square_wave();
    assert_eq!(times(&signal, 6, 10), vec![5, 10]);
}

#[test]
fn window_before_the_first_entry_starts_at_the_first() {
    let mut signal = Signal::new(1);
    signal.insert_bit(3, Logic::V1);
    signal.insert_bit(8, Logic::V0);
    assert_eq!(times(&signal, 0, 2), vec![3]);
    assert_eq!(times(&signal, 0, 3), vec![3]);
    assert_eq!(times(&signal, 1, 5), vec![3, 8]);
}

#[test]
fn window_past_the_last_entry_runs_to_the_end_of_the_history() {
    let signal = square_wave();
    assert_eq!(times(&signal, 12, 1000), vec![10, 20]);
    assert_eq!(times(&signal, 25, 1000), vec![20]);
    assert_eq!(times(&signal, 0, u64::MAX), vec![0, 5, 10, 20]);
}

#[test]
fn window_reaches_an_entry_at_the_greatest_timestamp() {
    let mut signal = Signal::new(1);
    signal.insert_bit(1, Logic::V1);
    signal.insert_bit(u64::MAX, Logic::V0);
    assert_eq!(times(&signal, 0, 2), vec![1, u64::MAX]);
    assert_eq!(times(&signal, u64::MAX, u64::MAX), vec![u64::MAX]);
}

#[test]
fn window_on_an_empty_signal_is_empty() {
    let signal = Signal::new(1);
    assert_eq!(bits(&signal, 0, 100), vec![]);
    assert_eq!(times(&signal, 0, 100), Vec::<u64>::new());
}

#[test]
fn window_whose_end_is_before_its_start() {
    let signal = square_wave();
    assert_eq!(times(&signal, 20, 3), Vec::<u64>::new());
    assert_eq!(times(&signal, 7, 6), vec![5, 10]);
}

#[test]
fn vector_window_yields_whole_chunks() {
    let mut signal = Signal::new(3);
    assert_eq!(signal.insert(0, vec![Logic::V1, Logic::V0, Logic::V1]), Ok(()));
    assert_eq!(signal.insert(4, vec![Logic::X]), Ok(()));
    assert_eq!(signal.insert(9, vec![Logic::Z, Logic::Z, Logic::Z]), Ok(()));
    let mut iter = signal.range(5..6).into_iter();
    let first = iter.next().unwrap();
    assert_eq!(first.0, 4);
    assert_eq!(first.1, &[Logic::X, Logic::V0, Logic::V0][..]);
    let second = iter.next().unwrap();
    assert_eq!(second.0, 9);
    assert_eq!(second.1, &[Logic::Z, Logic::Z, Logic::Z][..]);
    assert!(iter.next().is_none());
    assert!(iter.next().is_none());
}

#[test]
fn window_can_be_walked_backwards() {
    let signal = square_wave();
    let mut iter = signal.range(0..25).into_iter();
    let mut seen = Vec::new();
    while let Some((time, chunk)) = iter.next_back() {
        seen.push((time, chunk[0]));
    }
    assert_eq!(
        seen,
        vec![(20, Logic::V0), (10, Logic::V1), (5, Logic::V0), (0, Logic::V1)]
    );
}

#[test]
fn window_can_be_walked_from_both_ends() {
    let signal = square_wave();
    let mut iter = signal.bit_range(0..25).into_iter();
    assert_eq!(iter.next(), Some((0, Logic::V1)));
    assert_eq!(iter.next_back(), Some((20, Logic::V0)));
    assert_eq!(iter.next_back(), Some((10, Logic::V1)));
    assert_eq!(iter.next(), Some((5, Logic::V0)));
    assert_eq!(iter.next(), None);
    assert_eq!(iter.next_back(), None);
}

#[test]
fn bit_window_of_a_vector_yields_first_values() {
    let mut signal = Signal::new(2);
    assert_eq!(signal.insert(1, vec![Logic::X, Logic::V1]), Ok(()));
    assert_eq!(signal.insert(2, vec![Logic::V1, Logic::V0]), Ok(()));
    assert_eq!(bits(&signal, 0, 10), vec![(1, Logic::X), (2, Logic::V1)]);
}

#[test]
fn point_query_before_the_first_entry_finds_nothing() {
    let mut signal = Signal::new(1);
    signal.insert_bit(3, Logic::V1);
    assert_eq!(signal.index(0), None);
    assert_eq!(signal.index(2), None);
    assert_eq!(Signal::new(1).index(0), None);
}

#[test]
fn point_query_finds_the_value_in_effect() {
    let signal = square_wave();
    assert_eq!(signal.index(0), Some(&[Logic::V1][..]));
    assert_eq!(signal.index(4), Some(&[Logic::V1][..]));
    assert_eq!(signal.index(5), Some(&[Logic::V0][..]));
    assert_eq!(signal.index(19), Some(&[Logic::V1][..]));
    assert_eq!(signal.index(20), Some(&[Logic::V0][..]));
    assert_eq!(signal.index(u64::MAX), Some(&[Logic::V0][..]));
}

#[test]
fn point_query_on_a_vector_finds_the_whole_chunk() {
    let mut signal = Signal::new(2);
    assert_eq!(signal.insert(3, vec![Logic::V1]), Ok(()));
    assert_eq!(signal.index(7), Some(&[Logic::V1, Logic::V0][..]));
}
