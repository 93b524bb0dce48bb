use liquid_cache::behavior::behavior_cache_bytes;
use liquid_cache::behavior::behavior_cache_mode;
use liquid_cache::behavior::behavior_cache_policy;
use liquid_cache::behavior::behavior_steps;
use liquid_cache::behavior::benchmark_schema;
use liquid_cache::behavior::title_column;
use liquid_cache::behavior::BehaviorStep;
use liquid_cache::behavior::QueryResult;
use liquid_cache::bench::BenchmarkManifest;
use liquid_cache::bench::DiskUsage;
use liquid_cache::bench::InProcessBenchmarkMode;
use liquid_cache::bench::InProcessBenchmarkRunner;
use liquid_cache::bench::ObjectStoreConfig;
use liquid_cache::bench::Query;
use liquid_cache::bench::QuerySource;
use liquid_cache::bench::RunStep;
use liquid_cache::bench::SetupStep;
use liquid_cache::modes::CacheMode;
use liquid_cache::modes::LiquidCacheMode;
use liquid_cache::policies::ToDiskPolicy;
use liquid_cache::schema::DataType;
use liquid_cache::schema::Field;
use liquid_cache::schema::Schema;
use liquid_cache::tpch::answer_path;
use liquid_cache::tpch::get_query_by_id;
use liquid_cache::tpch::query_file_name;
use liquid_cache::tpch::tables;
use liquid_cache::tpch::BenchmarkMode;
use liquid_cache::tpch::TpchBenchmark;
use liquid_cache::tpch::TpchSetup;
use std::collections::HashMap;
use std::sync::Arc;

fn manifest() -> BenchmarkManifest {
    BenchmarkManifest::new("suite".to_string())
        .add_table("hits".to_string(), "data/hits.parquet".to_string())
        .add_table("old".to_string(), "data/old.orc".to_string())
        .add_query("SELECT 1 FROM hits".to_string())
        .add_query("queries/q1.sql".to_string())
        .add_query("single".to_string())
}

#[test]
fn benchmark_mode_names() {
    for (mode, name) in [
        (InProcessBenchmarkMode::Parquet, "parquet"),
        (InProcessBenchmarkMode::Arrow, "arrow"),
        (InProcessBenchmarkMode::Liquid, "liquid"),
        (InProcessBenchmarkMode::LiquidEagerTranscode, "liquid-eager-transcode"),
        (InProcessBenchmarkMode::Orc, "orc"),
    ] {
        assert_eq!(name.parse::<InProcessBenchmarkMode>(), Ok(mode));
    }
    assert_eq!(
        "csv".parse::<InProcessBenchmarkMode>().unwrap_err(),
        "Invalid in-process benchmark mode: csv, must be one of: parquet, arrow, liquid, liquid-eager-transcode, orc"
    );
    assert_eq!(InProcessBenchmarkMode::default(), InProcessBenchmarkMode::Liquid);
    assert_eq!(InProcessBenchmarkMode::Orc.cache_mode(), None);
    assert_eq!(InProcessBenchmarkMode::Arrow.cache_mode(), Some(LiquidCacheMode::Arrow));
}

#[test]
fn manifests_are_built_up() {
    let manifest = manifest()
        .with_description("about".to_string())
        .add_table("hits".to_string(), "other.parquet".to_string());
    assert_eq!(manifest.name, "suite");
    assert_eq!(manifest.description.as_deref(), Some("about"));
    assert_eq!(manifest.tables.len(), 2);
    assert!(manifest.tables.contains(&("hits".to_string(), "other.parquet".to_string())));
    assert_eq!(manifest.queries.len(), 3);
    assert!(manifest.object_stores.is_none());
}

#[test]
fn runners_are_built_up() {
    let runner = InProcessBenchmarkRunner::default();
    assert_eq!(runner.iteration, 3);
    assert_eq!(runner.cache_size(), usize::MAX);
    let runner = runner
        .with_bench_mode(InProcessBenchmarkMode::Orc)
        .with_iteration(5)
        .with_reset_cache(true)
        .with_partitions(Some(4))
        .with_max_cache_mb(Some(2))
        .with_flamegraph_dir(Some("graphs".to_string()))
        .with_query_filter(Some(1));
    assert_eq!(runner.bench_mode, InProcessBenchmarkMode::Orc);
    assert_eq!(runner.iteration, 5);
    assert!(runner.reset_cache);
    assert_eq!(runner.cache_size(), 2097152);
    assert_eq!(runner.flamegraph_dir.as_deref(), Some("graphs"));
    assert_eq!(runner.query_filter, Some(1));
    let settings = runner.session_settings();
    assert!(settings.pushdown_filters);
    assert_eq!(settings.target_partitions, Some(4));
    assert_eq!(settings.batch_size, 16384);
}

#[test]
fn queries_are_paths_or_text() {
    assert!(InProcessBenchmarkRunner::is_file_path("select 1.sql"));
    assert!(InProcessBenchmarkRunner::is_file_path("a b/c"));
    assert!(InProcessBenchmarkRunner::is_file_path("a b\\c"));
    assert!(InProcessBenchmarkRunner::is_file_path("/"));
    assert!(!InProcessBenchmarkRunner::is_file_path("VACUUM"));
    assert!(!InProcessBenchmarkRunner::is_file_path("query.sql2"));
    assert!(!InProcessBenchmarkRunner::is_file_path(""));
    assert!(!InProcessBenchmarkRunner::is_file_path("SELECT 1"));
    assert!(!InProcessBenchmarkRunner::is_file_path("SELECT\n1"));
    let sources = InProcessBenchmarkRunner::new().load_queries(&manifest());
    assert_eq!(sources.len(), 3);
    assert!(matches!(&sources[0], (0, QuerySource::Inline(sql)) if sql == "SELECT 1 FROM hits"));
    assert!(matches!(&sources[1], (1, QuerySource::File(path)) if path == "queries/q1.sql"));
    assert!(matches!(&sources[2], (2, QuerySource::Inline(sql)) if sql == "single"));
}

#[test]
fn object_stores_are_registered_in_order() {
    let runner = InProcessBenchmarkRunner::new();
    assert!(runner.object_store_registrations(&manifest()).is_empty());
    let mut manifest = manifest();
    let options = vec![("region".to_string(), "eu".to_string())];
    manifest.object_stores = Some(vec![
        ObjectStoreConfig { url: "s3://bucket".to_string(), options: Some(options.clone()) },
        ObjectStoreConfig { url: "http://localhost:9000".to_string(), options: None },
        ObjectStoreConfig { url: "s3://bucket/path".to_string(), options: None },
        ObjectStoreConfig { url: "no address".to_string(), options: None },
    ]);
    let registrations = runner.object_store_registrations(&manifest);
    let urls: Vec<Option<&str>> = registrations.iter().map(|r| r.url.as_deref()).collect();
    assert_eq!(urls, vec![Some("s3://bucket/"), Some("http://localhost:9000/"), None, None]);
    assert_eq!(registrations[0].options, options);
    assert!(registrations[1].options.is_empty());
}

#[test]
fn caches_of_benchmarks_write_to_disk() {
    assert!(InProcessBenchmarkRunner::new().cache_policy().is_some());
    for mode in [InProcessBenchmarkMode::Parquet, InProcessBenchmarkMode::Orc] {
        assert!(InProcessBenchmarkRunner::new().with_bench_mode(mode).cache_policy().is_none());
    }
    assert_eq!(
        behavior_cache_mode(),
        LiquidCacheMode::Liquid { transcode_in_background: false }
    );
    assert_eq!(behavior_cache_policy(), ToDiskPolicy::new());
}

#[test]
fn orc_tables_are_registered_in_orc_mode() {
    let mut manifest = manifest();
    manifest.object_stores =
        Some(vec![ObjectStoreConfig { url: "s3://bucket".to_string(), options: None }]);
    let orc = InProcessBenchmarkRunner::new().with_bench_mode(InProcessBenchmarkMode::Orc);
    assert_eq!(
        described(orc.setup_steps(&manifest)),
        vec!["Orc old data/old.orc", "store s3://bucket/", "Parquet hits data/hits.parquet"]
    );
    assert_eq!(
        described(InProcessBenchmarkRunner::new().setup_steps(&manifest)),
        vec!["store s3://bucket/", "Parquet hits data/hits.parquet"]
    );
    manifest.object_stores = None;
    assert_eq!(
        described(InProcessBenchmarkRunner::new().setup_steps(&manifest)),
        vec!["Parquet hits data/hits.parquet"]
    );
}

fn described(steps: Vec<SetupStep>) -> Vec<String> {
    steps
        .into_iter()
        .map(|step| match step {
            SetupStep::RegisterTable(table) => {
                format!("{:?} {} {}", table.format, table.name, table.path)
            }
            SetupStep::RegisterObjectStore(store) => format!("store {}", store.url.unwrap()),
        })
        .collect()
}

#[test]
fn chosen_queries() {
    let all = InProcessBenchmarkRunner::new();
    assert_eq!(all.query_indices(3), Ok(vec![0, 1, 2]));
    let one = InProcessBenchmarkRunner::new().with_query_filter(Some(2));
    assert_eq!(one.query_indices(3), Ok(vec![2]));
    assert_eq!(one.query_indices(2).unwrap_err(), "Query index 2 out of range (max: 1)");
}

#[test]
fn flamegraph_names() {
    let secs = 2 * 86400 + 13 * 3600 + 5 * 60 + 9;
    assert_eq!(
        InProcessBenchmarkRunner::write_flamegraph(secs, 7, 123),
        "13h05m09s_q07_i123.svg"
    );
}

#[test]
fn iterations_add_up_disks() {
    let disks = [
        DiskUsage { read_bytes: 5, written_bytes: 7 },
        DiskUsage { read_bytes: 10, written_bytes: 1 },
    ];
    let result = InProcessBenchmarkRunner::run_single_iteration(42, Some(99), &disks, 3);
    assert_eq!(result.disk_bytes_read, 15);
    assert_eq!(result.disk_bytes_written, 8);
    assert_eq!(result.time_millis, 42);
    assert_eq!(result.cache_memory_usage, 99);
    assert_eq!(result.liquid_cache_usage, 99);
    assert_eq!(result.starting_timestamp, 3);
    let result = InProcessBenchmarkRunner::run_single_iteration(0, None, &[], 0);
    assert_eq!(result.cache_memory_usage, 0);
}

#[test]
fn runs_come_in_order() {
    let runner = InProcessBenchmarkRunner::new().with_iteration(2).with_reset_cache(true);
    let mut run = runner.run(vec![4, 6], true);
    let mut steps = Vec::new();
    while let Some(step) = run.next_step() {
        steps.push(step);
    }
    assert_eq!(
        steps,
        vec![
            RunStep::Run { query: 4, iteration: 1 },
            RunStep::ResetCache,
            RunStep::Run { query: 4, iteration: 2 },
            RunStep::ResetCache,
            RunStep::Record { query: 4 },
            RunStep::Run { query: 6, iteration: 1 },
            RunStep::ResetCache,
            RunStep::Run { query: 6, iteration: 2 },
            RunStep::ResetCache,
            RunStep::Record { query: 6 },
        ]
    );
    let mut run = runner.run(vec![0], false);
    assert_eq!(run.next_step(), Some(RunStep::Run { query: 0, iteration: 1 }));
    assert_eq!(run.next_step(), Some(RunStep::Run { query: 0, iteration: 2 }));
    assert_eq!(run.next_step(), Some(RunStep::Record { query: 0 }));
    assert_eq!(run.next_step(), None);
}

#[test]
fn special_queries_keep_their_second_statement() {
    let mut handling = HashMap::new();
    handling.insert(15, "tpch_q15".to_string());
    handling.insert(16, "tpch_q15".to_string());
    let manifest = manifest().with_special_query_handling(handling);
    let query = |id| Query { id, sql: "create;select;drop".to_string() };
    let plan = manifest.execute_query(&query(15));
    assert_eq!(plan.statements, vec!["create", "select", "drop"]);
    assert_eq!(plan.kept, 1);
    for id in [14, 16] {
        let plan = manifest.execute_query(&query(id));
        assert_eq!(plan.statements, vec!["create;select;drop"]);
        assert_eq!(plan.kept, 0);
    }
}

#[test]
fn tpch_queries_are_cut_at_semicolons() {
    let content = "  create view v ;\n select 1;\t;drop view v;\n\u{a0}";
    assert_eq!(get_query_by_id(content), vec!["create view v", "select 1", "drop view v"]);
    let query = TpchBenchmark::get_query(15, content);
    assert_eq!(query.sql, "create view v;select 1;drop view v");
    let plan = TpchBenchmark::execute_query(&query);
    assert_eq!(plan.statements, get_query_by_id(content));
    assert_eq!(plan.statements[plan.kept], "select 1");
    assert!(get_query_by_id("").is_empty());
    let query = TpchBenchmark::get_query(3, "a;b");
    assert_eq!(TpchBenchmark::execute_query(&query).statements, vec!["a;b"]);
    assert_eq!(TpchBenchmark::query_ids(), (1..=22).collect::<Vec<u32>>());
    assert_eq!(query_file_name(15), "q15.sql");
    assert_eq!(answer_path("answers", 3), "answers/q3.parquet");
}

#[test]
fn white_space_around_statements_is_that_of_unicode() {
    for ch in (0u32..=0x10FFFF).filter_map(char::from_u32).filter(|c| c.is_whitespace()) {
        assert_eq!(get_query_by_id(&format!("{ch}a{ch}b{ch}")), vec![format!("a{ch}b")]);
    }
    for ch in ['\u{200b}', '\u{feff}', '\u{180e}', '\u{8}', '\u{2060}'] {
        assert_eq!(get_query_by_id(&format!("{ch}a")), vec![format!("{ch}a")]);
    }
}

fn tpch(bench_mode: BenchmarkMode) -> TpchBenchmark {
    TpchBenchmark {
        query_dir: "queries".to_string(),
        data_dir: "data/sf 1".to_string(),
        server: "http://localhost:50051".to_string(),
        bench_mode,
        partitions: Some(8),
        answer_dir: None,
    }
}

#[test]
fn tpch_sessions() {
    assert!(matches!(
        tpch(BenchmarkMode::ParquetFileserver).setup_context(),
        TpchSetup::FileServer
    ));
    for (bench_mode, expected) in [
        (BenchmarkMode::ParquetPushdown, CacheMode::Parquet),
        (BenchmarkMode::ArrowPushdown, CacheMode::Arrow),
        (BenchmarkMode::LiquidCache, CacheMode::Liquid),
        (BenchmarkMode::LiquidEagerTranscode, CacheMode::LiquidEagerTranscode),
    ] {
        match tpch(bench_mode).setup_context() {
            TpchSetup::CacheServer { mode, partitions } => {
                assert_eq!(mode, expected);
                assert_eq!(partitions, Some(8));
            }
            TpchSetup::FileServer => panic!("a cache server was asked for"),
        }
    }
    let benchmark = tpch(BenchmarkMode::LiquidCache);
    assert_eq!(benchmark.benchmark_name(), "tpch");
    assert_eq!(benchmark.server_url().unwrap(), "http://localhost:50051/");
    let mut nowhere = tpch(BenchmarkMode::LiquidCache);
    nowhere.server = "nowhere".to_string();
    assert!(nowhere.server_url().is_none());
    assert_eq!(tables().len(), 8);
    assert_eq!(
        benchmark.table_url_text("/home", "orders"),
        "file:///home/data/sf 1/orders.parquet"
    );
    assert_eq!(
        benchmark.table_url("/home", "orders").unwrap(),
        "file:///home/data/sf%201/orders.parquet"
    );
}

#[test]
fn behaviour_of_the_cache() {
    let steps = behavior_steps();
    assert_eq!(steps.len(), 14);
    assert_eq!(steps[0], BehaviorStep::DropPageCache);
    assert_eq!(steps[4], BehaviorStep::FlushCache);
    assert_eq!(steps[11], BehaviorStep::ResetCache);
    assert_eq!(
        steps[3],
        BehaviorStep::RunQuery("SELECT COUNT(*) FROM test_table WHERE \"A\">'Utah'")
    );
    assert_eq!(behavior_cache_bytes(), 10 << 30);
    let result = QueryResult {
        query: "SELECT 1".to_string(),
        duration_millis: 123456789012345678901234567890,
        cache_memory_usage: 77,
    };
    assert_eq!(
        result.log(),
        format!(
            "Query: SELECT 1 | Duration: {} ms | Cache memory: 77 bytes",
            result.duration_millis
        )
    );
    let schema = benchmark_schema();
    assert_eq!(schema.fields[0].name, "A");
    assert_eq!(schema.fields[1].data_type, DataType::Utf8);
    assert_eq!(title_column(&schema).unwrap_err(), "Title column not found in hits.parquet");
    let titled = Schema {
        fields: vec![
            Arc::new(Field::new("URL".to_string(), DataType::Utf8, true)),
            Arc::new(Field::new("Title".to_string(), DataType::Utf8, true)),
        ],
        metadata: Arc::new(Vec::new()),
    };
    assert_eq!(title_column(&titled), Ok(1));
}
