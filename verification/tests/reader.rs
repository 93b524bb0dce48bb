use arrow::array::BooleanArray;
use arrow::buffer::BooleanBuffer;
use liquid_cache::bits::boolean_buffer_or;
use liquid_cache::ids::BatchID;
use liquid_cache::reader::rows_where_true;
use liquid_cache::reader::AblationStudyMode;
use liquid_cache::reader::BatchFilter;
use liquid_cache::reader::FilterAction;
use liquid_cache::reader::LiquidBatchReader;
use liquid_cache::reader::PredicateFilter;
use liquid_cache::reader::ReadAction;
use liquid_cache::schema::DataType;
use liquid_cache::schema::Field;
use liquid_cache::selection::RowSelector;
use std::collections::VecDeque;
use std::sync::Arc;

fn rows_type() -> DataType {
    let field = Field::new("a".to_string(), DataType::Int32, false);
    DataType::Struct(Arc::new(vec![Arc::new(field)]))
}

#[test]
fn predicates_narrow_one_after_the_other() {
    let selection = vec![RowSelector::select(6)];
    let mut filter =
        PredicateFilter::new(&selection, 3, AblationStudyMode::EvaluateOnEncodedData);

    assert_eq!(filter.next_action(), FilterAction::AskCache { predicate: 0 });
    let answer = BooleanBuffer::from(vec![true, false, true, true, false, true]);
    assert_eq!(filter.cache_answered(&answer), 6);

    assert_eq!(filter.next_action(), FilterAction::AskCache { predicate: 1 });
    assert_eq!(
        filter.rows_to_read(),
        vec![
            RowSelector::select(1),
            RowSelector::skip(1),
            RowSelector::select(2),
            RowSelector::skip(1),
            RowSelector::select(1),
        ]
    );
    filter.predicate_evaluated(BooleanArray::from(vec![Some(true), None, Some(false), None]));

    assert_eq!(filter.next_action(), FilterAction::AskCache { predicate: 2 });
    assert_eq!(filter.input_selection().count_set_bits(), 1);
    filter.predicate_evaluated(BooleanArray::from(vec![true]));

    assert_eq!(filter.next_action(), FilterAction::Done);
    assert_eq!(filter.finish(), vec![RowSelector::select(1), RowSelector::skip(5)]);
}

#[test]
fn predicates_that_see_no_row_are_skipped() {
    let selection = vec![RowSelector::skip(1), RowSelector::select(2)];
    let mut filter = PredicateFilter::new(
        &selection,
        2,
        AblationStudyMode::SelectiveWithLateMaterialization,
    );
    filter.cache_answered(&BooleanBuffer::from(vec![false, false]));
    assert_eq!(filter.next_action(), FilterAction::SkipReader { predicate: 1, rows: 3 });
    filter.skipped();
    assert_eq!(filter.next_action(), FilterAction::Done);
    assert_eq!(filter.finish(), vec![RowSelector::skip(3)]);
}

#[test]
fn without_late_materialization_the_input_stays() {
    let selection = vec![RowSelector::select(3)];
    let mut filter = PredicateFilter::new(&selection, 1, AblationStudyMode::SelectiveDecoding);
    filter.cache_answered(&BooleanBuffer::from(vec![false, true, false]));
    assert_eq!(filter.input_selection().count_set_bits(), 3);
    assert_eq!(
        filter.finish(),
        vec![RowSelector::skip(1), RowSelector::select(1), RowSelector::skip(1)]
    );
}

#[test]
fn nulls_count_as_false() {
    let mask = BooleanArray::from(vec![Some(true), None, Some(false), Some(true)]);
    let expected = BooleanBuffer::from(vec![true, false, false, true]);
    assert_eq!(rows_where_true(mask), expected);
    assert_eq!(boolean_buffer_or(&expected, &expected), expected);
}

#[test]
fn modes_with_late_materialization() {
    assert!(!AblationStudyMode::FullDecoding.late_materialization());
    assert!(!AblationStudyMode::SelectiveDecoding.late_materialization());
    assert!(AblationStudyMode::SelectiveWithLateMaterialization.late_materialization());
    assert!(AblationStudyMode::EvaluateOnEncodedData.late_materialization());
    assert!(AblationStudyMode::EvaluateOnPartialEncodedData.late_materialization());
}

#[test]
fn reader_goes_batch_by_batch() {
    let selection: VecDeque<RowSelector> =
        vec![RowSelector::select(3), RowSelector::skip(5)].into_iter().collect();
    let mut reader = LiquidBatchReader::new(
        4,
        &rows_type(),
        selection,
        None,
        AblationStudyMode::EvaluateOnEncodedData,
    );
    assert_eq!(reader.schema().fields[0].name, "a");
    assert_eq!(reader.current_batch_id(), BatchID::from_raw(0));

    let batch = reader.next_batch().unwrap();
    let filter = reader.build_predicate_filter(&batch);
    match filter {
        BatchFilter::Unfiltered(rows) => {
            assert_eq!(rows, vec![RowSelector::select(3), RowSelector::skip(1)]);
            assert_eq!(reader.read_selection(&rows), ReadAction::Read);
        }
        BatchFilter::Predicates(_) => panic!("there are no predicates"),
    }
    assert_eq!(reader.current_batch_id(), BatchID::from_raw(1));

    let batch = reader.next_batch().unwrap();
    assert_eq!(batch, vec![RowSelector::skip(4)]);
    assert_eq!(reader.read_selection(&batch), ReadAction::Skip(4));
    assert!(reader.next_batch().is_none());
}

#[test]
fn runs_are_joined_without_predicates() {
    let reader = LiquidBatchReader::new(
        4,
        &rows_type(),
        VecDeque::new(),
        None,
        AblationStudyMode::FullDecoding,
    );
    let runs = vec![
        RowSelector::select(1),
        RowSelector::select(2),
        RowSelector::skip(0),
        RowSelector::skip(1),
    ];
    match reader.build_predicate_filter(&runs) {
        BatchFilter::Unfiltered(rows) => {
            assert_eq!(rows, vec![RowSelector::select(3), RowSelector::skip(1)]);
        }
        BatchFilter::Predicates(_) => panic!("there are no predicates"),
    }
}

#[test]
fn filter_is_taken_once() {
    let mut reader = LiquidBatchReader::new(
        4,
        &rows_type(),
        VecDeque::new(),
        Some(2),
        AblationStudyMode::FullDecoding,
    );
    assert!(matches!(
        reader.build_predicate_filter(&vec![RowSelector::select(1)]),
        BatchFilter::Predicates(_)
    ));
    assert_eq!(reader.take_filter(), Some(2));
    assert_eq!(reader.take_filter(), None);
}
