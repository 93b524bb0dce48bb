//! A benchmark of what the cache does: fresh, warm, flushed to disk, and reset.

use crate::modes::LiquidCacheMode;
use crate::policies::ToDiskPolicy;
use crate::schema::DataType;
use crate::schema::Field;
use crate::schema::Schema;
use crate::text::append_decimal;
use crate::text::append_large_decimal;
use crate::text::decimal;
use crate::text::same_text;
use std::sync::Arc;
use vstd::prelude::*;

verus! {

/// What a query took.
pub struct QueryResult {
    /// The query.
    pub query: String,
    /// The time in milliseconds.
    pub duration_millis: u128,
    /// The memory that the cache held afterwards.
    pub cache_memory_usage: usize,
}

impl QueryResult {
    /// A line that says what the query took.
    pub fn log(&self) -> (line: String)
        ensures
            line@ == "Query: "@ + self.query@ + " | Duration: "@ + decimal(
                self.duration_millis as nat,
            ) + " ms | Cache memory: "@ + decimal(self.cache_memory_usage as nat) + " bytes"@,
    {
        let mut line = String::new();
        line.append("Query: ");
        line.append(self.query.as_str());
        line.append(" | Duration: ");
        append_large_decimal(&mut line, self.duration_millis);
        line.append(" ms | Cache memory: ");
        append_decimal(&mut line, self.cache_memory_usage as u64);
        line.append(" bytes");
        assert(line@ =~= "Query: "@ + self.query@ + " | Duration: "@ + decimal(
            self.duration_millis as nat,
        ) + " ms | Cache memory: "@ + decimal(self.cache_memory_usage as nat) + " bytes"@);
        line
    }
}

/// The first column with a name; a message where there is none.
pub fn title_column(schema: &Schema) -> (index: Result<usize, String>)
    ensures
        match index {
            Ok(i) => {
                &&& i < schema.fields@.len()
                &&& schema.fields@[i as int].name@ == "Title"@
                &&& forall|j: int|
                    0 <= j < i ==> (#[trigger] schema.fields@[j]).name@ != "Title"@
            },
            Err(message) => {
                &&& message@ == "Title column not found in hits.parquet"@
                &&& forall|j: int|
                    0 <= j < schema.fields@.len() ==> (#[trigger] schema.fields@[j]).name@
                        != "Title"@
            },
        },
{
    let n: usize = schema.fields.len();
    let mut i: usize = 0;
    while i < n
        invariant
            i <= n,
            n == schema.fields@.len(),
            forall|j: int| 0 <= j < i ==> (#[trigger] schema.fields@[j]).name@ != "Title"@,
        decreases n - i,
    {
        if same_text(schema.fields[i].name.as_str(), "Title") {
            return Ok(i);
        }
        i += 1;
    }
    Err("Title column not found in hits.parquet".to_owned())
}

/// The schema of the benchmark's table: two columns of text that may be null.
pub fn benchmark_schema() -> (schema: Schema)
    ensures
        schema.fields@.len() == 2,
        schema.fields@[0].name@ == "A"@,
        schema.fields@[1].name@ == "B"@,
        forall|i: int|
            0 <= i < 2 ==> {
                let field = #[trigger] schema.fields@[i];
                &&& field.data_type == DataType::Utf8
                &&& field.nullable
                &&& field.dict_id == 0
                &&& !field.dict_is_ordered
                &&& field.metadata@.len() == 0
            },
        schema.metadata@.len() == 0,
{
    let mut fields: Vec<Arc<Field>> = Vec::new();
    fields.push(Arc::new(Field::new("A".to_owned(), DataType::Utf8, true)));
    fields.push(Arc::new(Field::new("B".to_owned(), DataType::Utf8, true)));
    Schema { fields, metadata: Arc::new(Vec::new()) }
}

/// A step of the benchmark.
#[derive(Clone, Copy, Debug, PartialEq, Eq)]
pub enum BehaviorStep {
    /// Let the operating system forget the files it has read.
    DropPageCache,
    /// Run a query, and log what it took.
    RunQuery(&'static str),
    /// Write everything in the cache to disk.
    FlushCache,
    /// Empty the cache.
    ResetCache,
}

impl BehaviorStep {
    /// The query of a step.
    pub open spec fn query(self) -> Option<Seq<char>> {
        match self {
            BehaviorStep::RunQuery(sql) => Some(sql@),
            _ => None,
        }
    }
}

/// The steps of the benchmark: a fresh cache, then one that was flushed to disk, then one that was
/// reset, each time with nothing in the page cache.
pub fn behavior_steps() -> (steps: Vec<BehaviorStep>)
    ensures
        steps@.len() == 14,
        forall|i: int|
            0 <= i < 14 ==> ((#[trigger] steps@[i]) is DropPageCache <==> i == 0 || i == 5 || i == 12),
        forall|i: int| 0 <= i < 14 ==> ((#[trigger] steps@[i]) is FlushCache <==> i == 4),
        forall|i: int| 0 <= i < 14 ==> ((#[trigger] steps@[i]) is ResetCache <==> i == 11),
        steps@[1].query() == Some("SELECT COUNT(*) FROM test_table WHERE \"A\"='Madison'"@),
        steps@[2].query() == Some("SELECT COUNT(*) FROM test_table WHERE \"A\"='Seattle'"@),
        steps@[3].query() == Some("SELECT COUNT(*) FROM test_table WHERE \"A\">'Utah'"@),
        steps@[6].query() == Some("SELECT COUNT(*) FROM test_table WHERE \"A\"<>'Chicago'"@),
        steps@[7].query() == Some("SELECT COUNT(*) FROM test_table WHERE \"B\"='Madison'"@),
        steps@[8].query() == Some(
            "SELECT COUNT(*) FROM test_table WHERE \"A\" like 'Pitts%' AND \"B\" <> 'Madison'"@,
        ),
        steps@[9].query() == Some("SELECT COUNT(*) FROM test_table WHERE \"A\"='Seattle'"@),
        steps@[10].query() == Some("SELECT COUNT(*) FROM test_table WHERE \"A\"='Seattle'"@),
        steps@[13].query() == Some(
            "SELECT COUNT(*) FROM test_table WHERE \"A\"='Chicago' OR \"B\"='Madison'"@,
        ),
{
    let mut steps: Vec<BehaviorStep> = Vec::new();
    steps.push(BehaviorStep::DropPageCache);
    steps.push(
        BehaviorStep::RunQuery("SELECT COUNT(*) FROM test_table WHERE \"A\"='Madison'"),
    );
    steps.push(
        BehaviorStep::RunQuery("SELECT COUNT(*) FROM test_table WHERE \"A\"='Seattle'"),
    );
    steps.push(BehaviorStep::RunQuery("SELECT COUNT(*) FROM test_table WHERE \"A\">'Utah'"));
    steps.push(BehaviorStep::FlushCache);
    steps.push(BehaviorStep::DropPageCache);
    steps.push(
        BehaviorStep::RunQuery("SELECT COUNT(*) FROM test_table WHERE \"A\"<>'Chicago'"),
    );
    steps.push(
        BehaviorStep::RunQuery("SELECT COUNT(*) FROM test_table WHERE \"B\"='Madison'"),
    );
    steps.push(
        BehaviorStep::RunQuery(
            "SELECT COUNT(*) FROM test_table WHERE \"A\" like 'Pitts%' AND \"B\" <> 'Madison'",
        ),
    );
    steps.push(
        BehaviorStep::RunQuery("SELECT COUNT(*) FROM test_table WHERE \"A\"='Seattle'"),
    );
    steps.push(
        BehaviorStep::RunQuery("SELECT COUNT(*) FROM test_table WHERE \"A\"='Seattle'"),
    );
    steps.push(BehaviorStep::ResetCache);
    steps.push(BehaviorStep::DropPageCache);
    steps.push(
        BehaviorStep::RunQuery(
            "SELECT COUNT(*) FROM test_table WHERE \"A\"='Chicago' OR \"B\"='Madison'",
        ),
    );
    steps
}

/// The memory that the benchmark's cache may use: ten gibibytes.
pub fn behavior_cache_bytes() -> (bytes: u64)
    ensures
        bytes == 10737418240,
{
    10 * 1024 * 1024 * 1024
}

/// How the benchmark's cache holds arrays: transcoded before the query goes on.
pub fn behavior_cache_mode() -> (mode: LiquidCacheMode)
    ensures
        mode == (LiquidCacheMode::Liquid { transcode_in_background: false }),
{
    LiquidCacheMode::Liquid { transcode_in_background: false }
}

/// What the benchmark's cache does when it is full: it writes entries to disk in the format they
/// have.
pub fn behavior_cache_policy() -> (policy: ToDiskPolicy)
    ensures
        policy == ToDiskPolicy,
{
    ToDiskPolicy::new()
}

/// The query of a step is the one that it runs, and other steps have none.
pub proof fn steps_have_the_query_they_run(sql: &'static str)
    ensures
        BehaviorStep::RunQuery(sql).query() == Some(sql@),
        BehaviorStep::DropPageCache.query() is None,
        BehaviorStep::FlushCache.query() is None,
        BehaviorStep::ResetCache.query() is None,
{
}

} // verus!
