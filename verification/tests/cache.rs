use arrow::array::Array;
use arrow::array::BooleanArray;
use arrow::array::Int32Array;
use arrow::buffer::BooleanBuffer;
use liquid_cache::arrays::ArrowArray;
use liquid_cache::cache::EvaluationAction;
use liquid_cache::cache::EvaluationEvent;
use liquid_cache::cache::EvaluationOutcome;
use liquid_cache::cache::LiquidCache;
use liquid_cache::cache::PredicateEvaluation;
use liquid_cache::column::encoded_outcome;
use liquid_cache::column::finish_evaluation;
use liquid_cache::column::try_retrieved_rows;
use liquid_cache::column::try_rows_for_evaluation;
use liquid_cache::column::ArraySource;
use liquid_cache::column::CachedBatch;
use liquid_cache::column::DisjunctPlan;
use liquid_cache::column::Evaluation;
use liquid_cache::column::InsertAction;
use liquid_cache::column::InsertArrowArrayError;
use liquid_cache::column::LiquidCachedColumn;
use liquid_cache::column::Retrieval;
use liquid_cache::ids::BatchID;
use liquid_cache::ids::CacheEntryID;
use liquid_cache::ids::CachePath;
use liquid_cache::modes::LiquidCacheMode;
use liquid_cache::reader::AblationStudyMode;
use liquid_cache::schema::DataType;
use liquid_cache::schema::Field;
use std::sync::Arc;

fn cache(mode: LiquidCacheMode) -> LiquidCache {
    LiquidCache::new(8192, 1000000, CachePath::new("test".to_string()), mode)
}

fn eager() -> LiquidCacheMode {
    LiquidCacheMode::Liquid { transcode_in_background: false }
}

fn field(name: &str, data_type: DataType) -> Arc<Field> {
    Arc::new(Field::new(name.to_string(), data_type, false))
}

fn column(mode: LiquidCacheMode) -> Arc<LiquidCachedColumn> {
    let mut cache = cache(mode);
    cache
        .register_or_get_file("file".to_string())
        .row_group(2)
        .create_column(3, field("a", DataType::Int32))
}

#[test]
fn files_are_numbered_in_order() {
    let mut cache = cache(eager());
    assert_eq!(cache.register_or_get_file("a".to_string()).file_id(), 0);
    assert_eq!(cache.register_or_get_file("b".to_string()).file_id(), 1);
    assert_eq!(cache.register_or_get_file("a".to_string()).file_id(), 0);
    assert_eq!(cache.register_or_get_file("c".to_string()).file_id(), 2);
    assert_eq!(*cache.register_or_get_file("c".to_string()).cache_mode(), eager());
}

#[test]
fn cache_remembers_its_settings() {
    let mut cache = cache(LiquidCacheMode::Arrow);
    assert_eq!(cache.batch_size(), 8192);
    assert_eq!(cache.max_cache_bytes(), 1000000);
    assert_eq!(*cache.cache_mode(), LiquidCacheMode::Arrow);
    assert!(cache.flush_trace().is_none());
    cache.enable_trace();
    cache.tracer().trace_get(CacheEntryID::new(1, 2, 3, BatchID::from_raw(4)), 5);
    cache.disable_trace();
    cache.tracer().trace_get(CacheEntryID::new(1, 2, 3, BatchID::from_raw(4)), 6);
    assert_eq!(cache.flush_trace().unwrap().inner.num_rows(), 1);
    assert!(cache.flush_trace().is_none());
}

#[test]
fn columns_are_created_once() {
    let mut cache = cache(eager());
    let file = cache.register_or_get_file("file".to_string());
    let group = file.row_group(1);
    assert!(group.get_column(7).is_none());
    let first = group.create_column(7, field("name", DataType::Utf8View));
    let dictionary = DataType::Dictionary(Arc::new(DataType::UInt16), Arc::new(DataType::Utf8));
    assert_eq!(first.field().data_type, dictionary);
    let again = group.create_column(7, field("name", DataType::Utf8View));
    assert!(Arc::ptr_eq(&first, &again));
    assert!(Arc::ptr_eq(&first, &group.get_column(7).unwrap()));
    assert_eq!(group.directory().components, vec!["test", "file_0", "rg_1"]);
    assert_eq!(first.directory().components, vec!["test", "file_0", "rg_1", "col_7"]);
    assert_eq!(
        first.entry_id(BatchID::from_raw(9)),
        CacheEntryID::new(0, 1, 7, BatchID::from_raw(9))
    );
    assert_eq!(first.batch_size(), 8192);
    assert!(cache.register_or_get_file("file".to_string()).row_group(1).get_column(7).is_some());
    assert!(cache.register_or_get_file("file".to_string()).row_group(2).get_column(7).is_none());
}

#[test]
fn insertion_depends_on_the_mode() {
    let background = LiquidCacheMode::Liquid { transcode_in_background: true };
    assert_eq!(column(LiquidCacheMode::Arrow).insert(false), Ok(InsertAction::StoreArrow));
    assert_eq!(column(background).insert(false), Ok(InsertAction::StoreArrowAndTranscode));
    assert_eq!(column(eager()).insert(false), Ok(InsertAction::TranscodeAndStore));
    assert_eq!(column(eager()).insert(true), Err(InsertArrowArrayError::AlreadyCached));
    assert_eq!(
        LiquidCachedColumn::insert_as_liquid_foreground(true),
        CachedBatch::MemoryLiquid
    );
    assert_eq!(
        LiquidCachedColumn::insert_as_liquid_foreground(false),
        CachedBatch::MemoryArrow
    );
    assert_eq!(
        LiquidCachedColumn::transcode_to_liquid(true),
        Some(CachedBatch::MemoryLiquid)
    );
    assert_eq!(LiquidCachedColumn::transcode_to_liquid(false), None);
}

#[test]
fn evaluation_depends_on_the_form() {
    let column = column(eager());
    let batch = BatchID::from_raw(5);
    let mode = AblationStudyMode::EvaluateOnEncodedData;
    assert!(column.eval_selection_with_predicate(batch, None, mode).is_none());

    let plan = column
        .eval_selection_with_predicate(batch, Some(CachedBatch::DiskArrow), mode)
        .unwrap();
    assert_eq!(plan.evaluation, Evaluation::OnArrow);
    match plan.source {
        ArraySource::File(path) => assert_eq!(
            path.components,
            vec!["test", "file_0", "rg_2", "col_3", "batch_5.arrow"]
        ),
        ArraySource::Memory => panic!("the batch is on disk"),
    }

    let plan = column
        .eval_selection_with_predicate(batch, Some(CachedBatch::DiskLiquid), mode)
        .unwrap();
    assert_eq!(plan.evaluation, Evaluation::OnEncoded);
    match plan.source {
        ArraySource::File(path) => assert_eq!(
            path.components,
            vec!["test", "file_0", "rg_2", "col_3", "batch_5.liquid"]
        ),
        ArraySource::Memory => panic!("the batch is on disk"),
    }

    for (mode, evaluation) in [
        (AblationStudyMode::FullDecoding, Evaluation::DecodeThenSelect),
        (AblationStudyMode::SelectiveDecoding, Evaluation::SelectThenDecode),
        (AblationStudyMode::SelectiveWithLateMaterialization, Evaluation::SelectThenDecode),
        (AblationStudyMode::EvaluateOnEncodedData, Evaluation::OnEncoded),
        (AblationStudyMode::EvaluateOnPartialEncodedData, Evaluation::OnEncoded),
    ] {
        let liquid = Some(CachedBatch::MemoryLiquid);
        let plan = column.eval_selection_with_predicate(batch, liquid, mode).unwrap();
        assert_eq!(plan.evaluation, evaluation);
        assert!(matches!(plan.source, ArraySource::Memory));
        let arrow = Some(CachedBatch::MemoryArrow);
        let plan = column.eval_selection_with_predicate(batch, arrow, mode).unwrap();
        assert_eq!(plan.evaluation, Evaluation::OnArrow);
    }
}

#[test]
fn retrieval_depends_on_the_form() {
    let column = column(eager());
    let batch = BatchID::from_raw(0);
    let retrieval = |cached, mode| {
        column.get_arrow_array_with_filter(batch, Some(cached), mode).unwrap().retrieval
    };
    let full = AblationStudyMode::FullDecoding;
    let encoded = AblationStudyMode::EvaluateOnEncodedData;
    assert_eq!(retrieval(CachedBatch::MemoryArrow, full), Retrieval::SelectArrow);
    assert_eq!(retrieval(CachedBatch::DiskArrow, encoded), Retrieval::SelectArrow);
    assert_eq!(retrieval(CachedBatch::MemoryLiquid, full), Retrieval::DecodeThenSelect);
    assert_eq!(retrieval(CachedBatch::MemoryLiquid, encoded), Retrieval::SelectThenDecode);
    assert_eq!(retrieval(CachedBatch::DiskLiquid, full), Retrieval::SelectThenDecode);
    assert!(column.get_arrow_array_with_filter(batch, None, full).is_none());
}

#[test]
fn only_arrow_evaluation_turns_nulls_into_false() {
    let mask = || {
        BooleanArray::new(
            BooleanBuffer::from(vec![true, true, false]),
            Some(arrow::buffer::NullBuffer::from(vec![true, false, true])),
        )
    };
    assert_eq!(
        finish_evaluation(Evaluation::OnArrow, mask()),
        BooleanBuffer::from(vec![true, false, false])
    );
    assert_eq!(
        finish_evaluation(Evaluation::OnEncoded, mask()),
        BooleanBuffer::from(vec![true, true, false])
    );
    assert_eq!(
        encoded_outcome(Some(mask())),
        Some(BooleanBuffer::from(vec![true, true, false]))
    );
    assert_eq!(encoded_outcome(None), None);
}

// The rows `n > 2` of a batch, half of which is selected, in each form and mode.
#[test]
fn predicates_give_the_same_in_all_forms() {
    let column = column(eager());
    let batch = vec![1, 3, 5, 2, 4, 0];
    let selection = BooleanBuffer::collect_bool(6, |i| i % 2 == 0);
    for cached in [
        CachedBatch::MemoryArrow,
        CachedBatch::MemoryLiquid,
        CachedBatch::DiskLiquid,
        CachedBatch::DiskArrow,
    ] {
        for mode in [
            AblationStudyMode::FullDecoding,
            AblationStudyMode::SelectiveDecoding,
            AblationStudyMode::SelectiveWithLateMaterialization,
            AblationStudyMode::EvaluateOnEncodedData,
            AblationStudyMode::EvaluateOnPartialEncodedData,
        ] {
            let id = BatchID::from_raw(0);
            let plan = column.eval_selection_with_predicate(id, Some(cached), mode).unwrap();
            let at_hand = match plan.evaluation {
                Evaluation::OnArrow | Evaluation::DecodeThenSelect => batch.clone(),
                _ => vec![1, 5, 4],
            };
            let at_hand = ArrowArray { inner: Arc::new(Int32Array::from(at_hand)) };
            let rows = try_rows_for_evaluation(plan.evaluation, at_hand, &selection).unwrap();
            let rows = rows.inner.as_any().downcast_ref::<Int32Array>().unwrap().clone();
            let mask: BooleanArray = rows.values().iter().map(|n| Some(*n > 2)).collect();
            let mask = BooleanArray::new(mask.values().clone(), None);
            assert_eq!(
                finish_evaluation(plan.evaluation, mask),
                BooleanBuffer::from(vec![false, true, true])
            );

            let plan = column.get_arrow_array_with_filter(id, Some(cached), mode).unwrap();
            let all = BooleanBuffer::new_set(6);
            let at_hand = ArrowArray { inner: Arc::new(Int32Array::from(batch.clone())) };
            let rows = try_retrieved_rows(plan.retrieval, at_hand, &all).unwrap();
            assert_eq!(rows.inner.as_ref(), &Int32Array::from(batch.clone()));
        }
    }
    let short = ArrowArray { inner: Arc::new(Int32Array::from(vec![1])) };
    assert!(try_rows_for_evaluation(Evaluation::OnArrow, short, &selection).is_none());
    let short = ArrowArray { inner: Arc::new(Int32Array::from(vec![1])) };
    assert!(try_retrieved_rows(Retrieval::SelectArrow, short, &selection).is_none());
}

#[test]
fn batches_on_disk_take_no_memory() {
    assert_eq!(CachedBatch::MemoryArrow.memory_usage_bytes(77), 77);
    assert_eq!(CachedBatch::MemoryLiquid.memory_usage_bytes(77), 77);
    assert_eq!(CachedBatch::DiskArrow.memory_usage_bytes(77), 0);
    assert_eq!(CachedBatch::DiskLiquid.memory_usage_bytes(77), 0);
    assert_eq!(CachedBatch::MemoryArrow.reference_count(2), 2);
    assert_eq!(CachedBatch::DiskLiquid.reference_count(2), 0);
    assert_eq!(CachedBatch::MemoryArrow.to_string(), "MemoryArrow");
    assert_eq!(CachedBatch::MemoryLiquid.to_string(), "MemoryLiquid");
    assert_eq!(CachedBatch::DiskLiquid.to_string(), "DiskLiquid");
    assert_eq!(CachedBatch::DiskArrow.to_string(), "DiskArrow");
}

fn values(outcome: EvaluationOutcome) -> BooleanBuffer {
    match outcome {
        EvaluationOutcome::Values(buffer) => buffer,
        _ => panic!("the evaluation is not done"),
    }
}

/// The evaluation of a predicate on a row group with the columns 0 to 9.
fn evaluation(column_ids: Vec<u64>, disjuncts: Option<Vec<u64>>) -> PredicateEvaluation {
    let mut cache = cache(eager());
    let group = cache.register_or_get_file("file".to_string()).row_group(0);
    for id in 0..10 {
        group.create_column(id, field("n", DataType::Int32));
    }
    group.evaluate_selection_with_predicate(column_ids, disjuncts)
}

#[test]
fn columns_that_were_never_created_are_not_cached() {
    let unknown = |evaluation: &PredicateEvaluation| {
        assert_eq!(evaluation.next_action(), EvaluationAction::GiveUp);
    };
    unknown(&evaluation(vec![17], None));
    unknown(&evaluation(vec![17, 2], None));
    unknown(&evaluation(vec![2, 17], Some(vec![17, 2])));
    let mut second = evaluation(vec![2, 17], None);
    assert_eq!(second.next_action(), EvaluationAction::RetrieveColumn { column_id: 2 });
    assert!(matches!(second.step(EvaluationEvent::Retrieved), EvaluationOutcome::Continue));
    unknown(&second);
    let mut second = evaluation(vec![2, 17], Some(vec![2, 17]));
    let values = BooleanBuffer::from(vec![true]);
    assert!(matches!(second.step(EvaluationEvent::Values(values)), EvaluationOutcome::Continue));
    unknown(&second);
}

#[test]
fn disjuncts_are_evaluated_on_liquid_arrays() {
    let column = column(eager());
    let batch = BatchID::from_raw(5);
    let plan = |cached| column.disjunct_plan(batch, cached);
    assert!(matches!(plan(None), DisjunctPlan::Missing));
    assert!(matches!(plan(Some(CachedBatch::MemoryArrow)), DisjunctPlan::NotEncoded));
    assert!(matches!(plan(Some(CachedBatch::DiskArrow)), DisjunctPlan::NotEncoded));
    assert!(matches!(
        plan(Some(CachedBatch::MemoryLiquid)),
        DisjunctPlan::Encoded(ArraySource::Memory)
    ));
    assert!(matches!(
        plan(Some(CachedBatch::DiskLiquid)),
        DisjunctPlan::Encoded(ArraySource::File(_))
    ));
}

#[test]
fn one_column_is_evaluated_directly() {
    let mut evaluation = evaluation(vec![4], None);
    assert_eq!(evaluation.next_action(), EvaluationAction::EvaluateColumn { column_id: 4 });
    let buffer = BooleanBuffer::from(vec![true, false]);
    assert_eq!(values(evaluation.step(EvaluationEvent::Values(buffer.clone()))), buffer);
}

// Three disjuncts on three columns, true in rows 1, 3 and 5.
#[test]
fn disjuncts_are_combined() {
    let size = 8;
    let mut evaluation = evaluation(vec![0, 1, 2], Some(vec![0, 1, 2]));
    for (i, row) in [1, 3, 5].into_iter().enumerate() {
        assert_eq!(
            evaluation.next_action(),
            EvaluationAction::EvaluateDisjunct { disjunct: i, column_id: i as u64 }
        );
        let mask = BooleanBuffer::collect_bool(size, |r| r == row);
        let outcome = evaluation.step(EvaluationEvent::Values(mask));
        if i < 2 {
            assert!(matches!(outcome, EvaluationOutcome::Continue));
        } else {
            let expected = BooleanBuffer::collect_bool(size, |r| r == 1 || r == 3 || r == 5);
            assert_eq!(values(outcome), expected);
        }
    }
}

#[test]
fn columns_are_retrieved_where_a_disjunct_fails() {
    let mut evaluation = evaluation(vec![6, 8], Some(vec![8, 6]));
    let mask = BooleanBuffer::from(vec![true, true]);
    evaluation.step(EvaluationEvent::Values(mask));
    evaluation.step(EvaluationEvent::NotEncoded);
    assert_eq!(evaluation.next_action(), EvaluationAction::RetrieveColumn { column_id: 6 });
    evaluation.step(EvaluationEvent::Retrieved);
    assert_eq!(evaluation.next_action(), EvaluationAction::RetrieveColumn { column_id: 8 });
    evaluation.step(EvaluationEvent::Retrieved);
    assert_eq!(evaluation.next_action(), EvaluationAction::EvaluateRetrieved);
    let result = evaluation.step(EvaluationEvent::Evaluated(BooleanArray::from(vec![false, true])));
    assert_eq!(values(result), BooleanBuffer::from(vec![false, true]));
}

#[test]
fn missing_columns_end_the_evaluation() {
    let mut evaluation = evaluation(vec![6, 8], None);
    assert_eq!(evaluation.next_action(), EvaluationAction::RetrieveColumn { column_id: 6 });
    assert!(matches!(evaluation.step(EvaluationEvent::Missing), EvaluationOutcome::NotCached));
}
