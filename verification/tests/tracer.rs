use arrow::array::UInt64Array;
use liquid_cache::ids::BatchID;
use liquid_cache::ids::CacheEntryID;
use liquid_cache::tracer::ArrowTable;
use liquid_cache::tracer::CacheTracer;
use parquet::arrow::arrow_writer::ArrowWriter;
use std::path::Path;
use tempfile::tempdir;
use tempfile::NamedTempFile;

fn column(table: &ArrowTable, index: usize) -> Vec<u64> {
    table
        .inner
        .column(index)
        .as_any()
        .downcast_ref::<UInt64Array>()
        .unwrap()
        .values()
        .to_vec()
}

/// Writes a table to a Parquet file, where there is one.
fn write_table(table: Option<ArrowTable>, path: &Path) {
    if let Some(table) = table {
        let file = NamedTempFile::new_in(path.parent().unwrap()).unwrap();
        let mut writer =
            ArrowWriter::try_new(file.reopen().unwrap(), table.inner.schema(), None).unwrap();
        writer.write(&table.inner).unwrap();
        writer.close().unwrap();
        file.persist(path).unwrap();
    }
}

#[test]
fn test_cache_tracer_enable_disable() {
    let mut tracer = CacheTracer::new();
    assert!(!tracer.enabled());

    tracer.enable();
    assert!(tracer.enabled());

    tracer.disable();
    assert!(!tracer.enabled());
}

#[test]
fn test_cache_tracer_event_recording() {
    let mut tracer = CacheTracer::new();

    // Should not record when disabled
    let entry_id = CacheEntryID::new(1, 2, 3, BatchID::from_raw(4));
    tracer.trace_get(entry_id, 1000);
    assert!(tracer.entries().is_empty());

    // Should record when enabled
    tracer.enable();
    tracer.trace_get(entry_id, 1000);
    assert_eq!(tracer.entries().len(), 1);

    // Multiple events
    tracer.trace_get(entry_id, 2000);
    assert_eq!(tracer.entries().len(), 2);

    // Check entry data
    let entries = tracer.entries();
    assert_eq!(entries[0].entry_id, entry_id);
    assert_eq!(entries[0].cache_memory_bytes, 1000);
    assert_eq!(entries[1].entry_id, entry_id);
    assert_eq!(entries[1].cache_memory_bytes, 2000);
    assert!(entries[0].time_stamp_nanos > 0);
    assert!(entries[0].time_stamp_nanos <= entries[1].time_stamp_nanos);
}

#[test]
fn test_cache_tracer_flush_empty() {
    let temp_dir = tempdir().unwrap();
    let file_path = temp_dir.path().join("empty_trace.parquet");

    let mut tracer = CacheTracer::new();
    write_table(tracer.flush(), &file_path);

    // File shouldn't exist since there was nothing to flush
    assert!(!file_path.exists());

    tracer.enable();
    tracer.trace_get(CacheEntryID::new(1, 2, 3, BatchID::from_raw(4)), 1000);
    write_table(tracer.flush(), &file_path);
    assert!(file_path.exists());
}

#[test]
fn test_cache_tracer_flush() {
    let mut tracer = CacheTracer::new();
    tracer.enable();

    // Add some entries
    let entry_id1 = CacheEntryID::new(1, 2, 3, BatchID::from_raw(4));
    let entry_id2 = CacheEntryID::new(5, 6, 7, BatchID::from_raw(8));

    tracer.trace_get(entry_id1, 1000);
    tracer.trace_get(entry_id2, 2000);

    let table = tracer.flush().unwrap();

    // Verify entries were cleared
    assert!(tracer.entries().is_empty());

    assert_eq!(table.inner.num_rows(), 2);
    assert_eq!(table.inner.num_columns(), 6);
    assert_eq!(column(&table, 0), vec![1, 5]);
    assert_eq!(column(&table, 1), vec![2, 6]);
    assert_eq!(column(&table, 2), vec![3, 7]);
    assert_eq!(column(&table, 3), vec![4, 8]);
    assert_eq!(column(&table, 4), vec![1000, 2000]);
    let schema = table.inner.schema();
    let names: Vec<&str> = schema.fields().iter().map(|f| f.name().as_str()).collect();
    assert_eq!(
        names,
        vec![
            "file_id",
            "row_group_id",
            "column_id",
            "batch_id",
            "cache_memory_bytes",
            "time_stamp_nanos"
        ]
    );
}

#[test]
fn test_cache_tracer_multiple_flush() {
    let mut tracer = CacheTracer::new();
    tracer.enable();

    tracer.trace_get(CacheEntryID::new(1, 2, 3, BatchID::from_raw(4)), 1000);
    let first = tracer.flush().unwrap();

    tracer.trace_get(CacheEntryID::new(5, 6, 7, BatchID::from_raw(8)), 2000);
    let second = tracer.flush().unwrap();

    assert_eq!(first.inner.num_rows(), 1);
    assert_eq!(second.inner.num_rows(), 1);
    assert_eq!(column(&first, 0), vec![1]);
    assert_eq!(column(&second, 0), vec![5]);
}

#[test]
fn time_stamps_are_cut_to_64_bits() {
    let mut tracer = CacheTracer::new();
    tracer.enable();
    tracer.record(CacheEntryID::new(0, 0, 0, BatchID::from_raw(0)), 7, (1u128 << 64) + 5);
    tracer.disable();
    tracer.record(CacheEntryID::new(0, 0, 0, BatchID::from_raw(0)), 8, 6);
    let table = tracer.flush().unwrap();
    assert_eq!(column(&table, 5), vec![5]);
}
