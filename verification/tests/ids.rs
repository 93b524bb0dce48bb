use liquid_cache::ids::BatchID;
use liquid_cache::ids::CacheConfig;
use liquid_cache::ids::CacheEntryID;
use liquid_cache::ids::CachePath;
use liquid_cache::ids::ColumnAccessPath;
use liquid_cache::modes::LiquidCacheMode;
use std::path::PathBuf;
use tempfile::tempdir;

fn to_path(path: &CachePath) -> PathBuf {
    path.components.iter().collect()
}

fn root(path: &std::path::Path) -> CachePath {
    CachePath::new(path.to_str().unwrap().to_string())
}

#[test]
fn test_column_path_from_cache_entry_id() {
    let entry_id = CacheEntryID::new(1, 2, 3, BatchID::from_raw(4));
    let column_path: ColumnAccessPath = entry_id.into();

    assert_eq!(column_path.file_id, 1);
    assert_eq!(column_path.rg_id, 2);
    assert_eq!(column_path.col_id, 3);
}

#[test]
fn test_column_path_directory_hosts_cache_entry_path() {
    let temp_dir = tempdir().unwrap();
    let cache_root = temp_dir.path();

    let file_id = 5u64;
    let row_group_id = 6u64;
    let column_id = 7u64;
    let column_path = ColumnAccessPath::new(file_id, row_group_id, column_id);
    let directory = to_path(&column_path.directory(&root(cache_root)));

    let batch_id = BatchID::from_raw(8);
    let entry_id = column_path.entry_id(batch_id);
    let entry_path = entry_id.on_disk_path(&root(cache_root));
    let parent = to_path(&entry_path.parent().unwrap());

    let expected_dir = cache_root
        .join(format!("file_{}", file_id))
        .join(format!("rg_{}", row_group_id))
        .join(format!("col_{}", column_id));

    assert_eq!(parent, expected_dir);
    assert_eq!(directory, expected_dir);
    assert_eq!(to_path(&entry_path).parent().unwrap(), &expected_dir);
    assert_eq!(to_path(&entry_path), expected_dir.join("batch_8.liquid"));
}

#[test]
fn test_batch_id_from_row_id() {
    let batch_id = BatchID::from_row_id(256, 128);
    assert_eq!(batch_id.v, 2);
}

#[test]
fn batch_id_keeps_low_bits() {
    assert_eq!(BatchID::from_row_id(255, 128).v, 1);
    assert_eq!(BatchID::from_row_id(65536 * 4 + 8, 4).v, 2);
}

#[test]
fn test_batch_id_from_raw() {
    let batch_id = BatchID::from_raw(5);
    assert_eq!(batch_id.v, 5);
}

#[test]
fn test_batch_id_inc() {
    let mut batch_id = BatchID::from_raw(10);
    batch_id.inc();
    assert_eq!(batch_id.v, 11);
}

#[test]
fn test_batch_id_deref() {
    let batch_id = BatchID::from_raw(15);
    assert_eq!(*batch_id, 15);
}

#[test]
fn test_cache_entry_id_new_and_getters() {
    let file_id = 10u64;
    let row_group_id = 20u64;
    let column_id = 30u64;
    let batch_id = BatchID::from_raw(40);
    let entry_id = CacheEntryID::new(file_id, row_group_id, column_id, batch_id);

    assert_eq!(entry_id.file_id_inner(), file_id);
    assert_eq!(entry_id.row_group_id_inner(), row_group_id);
    assert_eq!(entry_id.column_id_inner(), column_id);
    assert_eq!(entry_id.batch_id_inner(), *batch_id as u64);
    assert_eq!(entry_id.row_group_id(), 20);
}

#[test]
fn test_cache_entry_id_boundaries() {
    let file_id = u16::MAX as u64;
    let row_group_id = 0u64;
    let column_id = u16::MAX as u64;
    let batch_id = BatchID::from_raw(0);
    let entry_id = CacheEntryID::new(file_id, row_group_id, column_id, batch_id);

    assert_eq!(entry_id.file_id_inner(), file_id);
    assert_eq!(entry_id.row_group_id_inner(), row_group_id);
    assert_eq!(entry_id.column_id_inner(), column_id);
    assert_eq!(entry_id.batch_id_inner(), *batch_id as u64);
}

#[test]
fn test_cache_entry_id_on_disk_path() {
    let temp_dir = tempdir().unwrap();
    let cache_root = temp_dir.path();
    let entry_id = CacheEntryID::new(1, 2, 3, BatchID::from_raw(4));
    let expected_path = cache_root
        .join("file_1")
        .join("rg_2")
        .join("col_3")
        .join("batch_4.liquid");
    assert_eq!(to_path(&entry_id.on_disk_path(&root(cache_root))), expected_path);
}

#[test]
fn arrow_path_has_its_own_extension() {
    let entry_id = CacheEntryID::new(65535, 0, 10, BatchID::from_raw(1203));
    let path = entry_id.on_disk_arrow_path(&CachePath::new("cache".to_string()));
    assert_eq!(path.components, vec!["cache", "file_65535", "rg_0", "col_10", "batch_1203.arrow"]);
    assert_ne!(
        path.components,
        entry_id.on_disk_path(&CachePath::new("cache".to_string())).components
    );
}

#[test]
fn entry_survives_its_number() {
    let entry_id = CacheEntryID::new(0x1234, 0x5678, 0x9abc, BatchID::from_raw(0xdef0));
    assert_eq!(entry_id.to_bits(), 0x1234_5678_9abc_def0);
    assert_eq!(CacheEntryID::from_bits(0x1234_5678_9abc_def0), entry_id);
    let number: usize = entry_id.into();
    assert_eq!(number, 0x1234_5678_9abc_def0);
    assert_eq!(CacheEntryID::from(number), entry_id);
}

#[test]
fn root_has_no_parent() {
    assert!(CachePath::new("cache".to_string()).parent().is_none());
}

#[test]
fn config_remembers_its_settings() {
    let config = CacheConfig::new(
        128,
        3000,
        CachePath::new("cache".to_string()),
        LiquidCacheMode::Arrow,
    );
    assert_eq!(config.batch_size(), 128);
    assert_eq!(config.max_cache_bytes(), 3000);
    assert_eq!(config.cache_root_dir().components, vec!["cache"]);
    assert_eq!(*config.cache_mode(), LiquidCacheMode::Arrow);
}
