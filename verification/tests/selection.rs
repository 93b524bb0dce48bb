use arrow::buffer::BooleanBuffer;
use liquid_cache::selection::row_selector_to_boolean_buffer;
use liquid_cache::selection::selects_any;
use liquid_cache::selection::take_next_batch;
use liquid_cache::selection::RowSelector;
use std::collections::VecDeque;

fn rows(selectors: &[RowSelector]) -> Vec<bool> {
    row_selector_to_boolean_buffer(selectors).iter().collect()
}

#[test]
fn selectors_become_bits() {
    let selection = vec![
        RowSelector::skip(2),
        RowSelector::select(3),
        RowSelector::skip(0),
        RowSelector::select(1),
        RowSelector::skip(1),
    ];
    let expected = BooleanBuffer::from(vec![false, false, true, true, true, true, false]);
    assert_eq!(row_selector_to_boolean_buffer(&selection), expected);
    assert_eq!(row_selector_to_boolean_buffer(&[]).len(), 0);
}

#[test]
fn any_selected_run_counts() {
    assert!(!selects_any(&[]));
    assert!(!selects_any(&[RowSelector::skip(4)]));
    assert!(selects_any(&[RowSelector::skip(4), RowSelector::select(1)]));
}

#[test]
fn batches_partition_the_rows() {
    let all = vec![
        RowSelector::select(5),
        RowSelector::skip(6),
        RowSelector::select(1),
        RowSelector::skip(3),
    ];
    let mut selection: VecDeque<RowSelector> = all.iter().copied().collect();
    let mut seen = Vec::new();
    let mut sizes = Vec::new();
    while let Some(batch) = take_next_batch(&mut selection, 4) {
        sizes.push(rows(&batch).len());
        seen.extend(rows(&batch));
    }
    assert_eq!(sizes, vec![4, 4, 4, 3]);
    assert_eq!(seen, rows(&all));
}

// Runs that end where a batch ends leave nothing behind.
#[test]
fn no_empty_run_comes_about() {
    let mut selection: VecDeque<RowSelector> =
        [RowSelector::select(4), RowSelector::skip(8)].into_iter().collect();
    let first = take_next_batch(&mut selection, 4).unwrap();
    assert_eq!(first, vec![RowSelector::select(4)]);
    assert_eq!(selection, vec![RowSelector::skip(8)]);
    assert_eq!(take_next_batch(&mut selection, 6).unwrap(), vec![RowSelector::skip(6)]);
    assert_eq!(take_next_batch(&mut selection, 2).unwrap(), vec![RowSelector::skip(2)]);
    assert!(take_next_batch(&mut selection, 2).is_none());
}

#[test]
fn nothing_is_taken_of_nothing() {
    let mut selection = VecDeque::new();
    assert!(take_next_batch(&mut selection, 8).is_none());
}
