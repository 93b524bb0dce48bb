use datafusion::datasource::physical_plan::parquet::ParquetAccessPlan;
use liquid_cache::cache::LiquidCache;
use liquid_cache::ids::CachePath;
use liquid_cache::modes::LiquidCacheMode;
use liquid_cache::opener::create_initial_plan;
use liquid_cache::opener::should_enable_page_index;
use liquid_cache::opener::LiquidParquetOpener;
use liquid_cache::opener::OpenStep;
use liquid_cache::schema::DataType;
use liquid_cache::schema::Field;
use liquid_cache::schema::Schema;
use std::sync::Arc;

fn schema() -> Schema {
    Schema {
        fields: vec![
            Arc::new(Field::new("a".to_string(), DataType::Utf8, true)),
            Arc::new(Field::new("b".to_string(), DataType::Int64, true)),
        ],
        metadata: Arc::new(Vec::new()),
    }
}

fn opener(projection: Vec<usize>, prunes: bool, page_filters: Option<usize>) -> LiquidParquetOpener {
    LiquidParquetOpener::new(
        3,
        projection,
        1024,
        Some(10),
        prunes,
        page_filters,
        Arc::new(schema()),
        false,
    )
}

fn steps(opener: &LiquidParquetOpener, has_range: bool, is_empty: bool) -> Vec<OpenStep> {
    let mut steps = Vec::new();
    let mut step = OpenStep::Start;
    while step != OpenStep::Read {
        step = opener.next_step(step, has_range, is_empty);
        steps.push(step);
    }
    steps
}

#[test]
fn all_row_groups_are_scanned_by_default() {
    let plan = create_initial_plan("f", None, 3).unwrap();
    assert_eq!(plan.row_group_indexes(), vec![0, 1, 2]);
}

#[test]
fn given_plans_must_fit() {
    let mut given = ParquetAccessPlan::new_all(3);
    given.skip(1);
    let plan = create_initial_plan("f", Some(&given), 3).unwrap();
    assert_eq!(plan.row_group_indexes(), vec![0, 2]);
    assert_eq!(
        create_initial_plan("f.parquet", Some(&given), 12).unwrap_err(),
        "Invalid ParquetAccessPlan for f.parquet. Specified 3 row groups, but file has 12"
    );
}

#[test]
fn page_index_needs_filters() {
    assert!(!should_enable_page_index(None));
    assert!(!should_enable_page_index(Some(0)));
    assert!(should_enable_page_index(Some(1)));
}

#[test]
fn pruning_steps_come_in_order() {
    assert_eq!(steps(&opener(vec![], false, None), false, false), vec![OpenStep::Read]);
    assert_eq!(
        steps(&opener(vec![], true, Some(2)), true, false),
        vec![
            OpenStep::PruneByRange,
            OpenStep::PruneByStatistics,
            OpenStep::PruneByBloomFilters,
            OpenStep::PruneByPageIndex,
            OpenStep::Read,
        ]
    );
    assert_eq!(
        steps(&opener(vec![], true, Some(2)), false, true),
        vec![OpenStep::PruneByStatistics, OpenStep::Read]
    );
    assert_eq!(
        steps(&opener(vec![], false, Some(2)), false, false),
        vec![OpenStep::PruneByPageIndex, OpenStep::Read]
    );
}

#[test]
fn opening_registers_the_file() {
    let mut cache = LiquidCache::new(
        8192,
        1000,
        CachePath::new("cache".to_string()),
        LiquidCacheMode::Arrow,
    );
    let good = opener(vec![1], false, None);
    let bad = opener(vec![0, 2], false, None);
    assert_eq!(good.begin_open(&mut cache, "a".to_string()).unwrap().fields[0].name, "b");
    assert_eq!(
        bad.begin_open(&mut cache, "b".to_string()).unwrap_err(),
        "project index 2 out of bounds, max field 2"
    );
    assert!(bad.begin_open(&mut cache, "a".to_string()).is_err());
    assert!(good.begin_open(&mut cache, "b".to_string()).is_ok());
    assert_eq!(cache.register_or_get_file("a".to_string()).file_id(), 0);
    assert_eq!(cache.register_or_get_file("b".to_string()).file_id(), 1);
    assert_eq!(cache.register_or_get_file("c".to_string()).file_id(), 2);
}

#[test]
fn projected_columns() {
    let picked = opener(vec![1, 0], false, None).projected_schema().unwrap();
    assert_eq!(picked.fields[0].name, "b");
    assert_eq!(picked.fields[1].name, "a");
    assert!(opener(vec![2], false, None).projected_schema().is_err());
    let opener = opener(vec![], false, Some(1));
    assert_eq!(opener.partition_index(), 3);
    assert_eq!(opener.batch_size(), 1024);
    assert_eq!(opener.limit(), Some(10));
    assert!(opener.enable_page_index());
    let physical = opener.physical_file_schema(&schema());
    assert_eq!(physical.fields[0].data_type, DataType::Utf8View);
}
