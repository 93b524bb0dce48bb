//! Benchmarks that run against a cache in the same process: what is registered, what is run, and
//! what is recorded.

use crate::modes::LiquidCacheMode;
use crate::policies::ToDiskPolicy;
use crate::text::append_decimal;
use crate::text::append_decimal2;
use crate::text::contains_char;
use crate::text::decimal;
use crate::text::decimal2;
use crate::text::ends_with;
use crate::text::has_suffix;
use crate::text::same_text;
use crate::text::split;
use crate::text::split_on;
use crate::text::texts;
use std::collections::HashMap;
use std::str::FromStr;
use vstd::prelude::*;

verus! {

broadcast use vstd::std_specs::hash::group_hash_axioms;

/// What a benchmark reads from.
#[derive(Clone, Copy, Debug, PartialEq, Eq, Structural)]
pub enum InProcessBenchmarkMode {
    /// Parquet files.
    Parquet,
    /// A cache of Arrow arrays.
    Arrow,
    /// A cache of liquid arrays, transcoded in the background.
    Liquid,
    /// A cache of liquid arrays, transcoded at once.
    LiquidEagerTranscode,
    /// ORC files.
    Orc,
}

impl Default for InProcessBenchmarkMode {
    fn default() -> (mode: Self)
        ensures
            mode == InProcessBenchmarkMode::Liquid,
    {
        InProcessBenchmarkMode::Liquid
    }
}

impl InProcessBenchmarkMode {
    /// The name of a mode.
    pub open spec fn name(self) -> Seq<char> {
        match self {
            InProcessBenchmarkMode::Parquet => "parquet"@,
            InProcessBenchmarkMode::Arrow => "arrow"@,
            InProcessBenchmarkMode::Liquid => "liquid"@,
            InProcessBenchmarkMode::LiquidEagerTranscode => "liquid-eager-transcode"@,
            InProcessBenchmarkMode::Orc => "orc"@,
        }
    }

    /// The message for a text that names no mode.
    pub open spec fn invalid_name(text: Seq<char>) -> Seq<char> {
        "Invalid in-process benchmark mode: "@ + text
            + ", must be one of: parquet, arrow, liquid, liquid-eager-transcode, orc"@
    }

    /// No two modes share a name.
    pub proof fn names_are_distinct(a: InProcessBenchmarkMode, b: InProcessBenchmarkMode)
        requires
            a.name() == b.name(),
        ensures
            a == b,
    {
        reveal_strlit("parquet");
        reveal_strlit("arrow");
        reveal_strlit("liquid");
        reveal_strlit("liquid-eager-transcode");
        reveal_strlit("orc");
        assert("parquet"@.len() == 7);
        assert("arrow"@.len() == 5);
        assert("liquid"@.len() == 6);
        assert("liquid-eager-transcode"@.len() == 22);
        assert("orc"@.len() == 3);
    }

    /// The mode with the given name; a message that lists the names when there is none.
    pub fn from_name(text: &str) -> (mode: Result<InProcessBenchmarkMode, String>)
        ensures
            forall|m: InProcessBenchmarkMode|
                mode == Ok::<InProcessBenchmarkMode, String>(m) <==> text@ == #[trigger] m.name(),
            mode is Err <==> forall|m: InProcessBenchmarkMode| text@ != #[trigger] m.name(),
            mode is Err ==> mode->Err_0@ == InProcessBenchmarkMode::invalid_name(text@),
    {
        proof {
            assert forall|a: InProcessBenchmarkMode, b: InProcessBenchmarkMode|
                #[trigger] a.name() == #[trigger] b.name() implies a == b by {
                InProcessBenchmarkMode::names_are_distinct(a, b);
            }
        }
        if same_text(text, "parquet") {
            assert(text@ == InProcessBenchmarkMode::Parquet.name());
            Ok(InProcessBenchmarkMode::Parquet)
        } else if same_text(text, "arrow") {
            assert(text@ == InProcessBenchmarkMode::Arrow.name());
            Ok(InProcessBenchmarkMode::Arrow)
        } else if same_text(text, "liquid") {
            assert(text@ == InProcessBenchmarkMode::Liquid.name());
            Ok(InProcessBenchmarkMode::Liquid)
        } else if same_text(text, "liquid-eager-transcode") {
            assert(text@ == InProcessBenchmarkMode::LiquidEagerTranscode.name());
            Ok(InProcessBenchmarkMode::LiquidEagerTranscode)
        } else if same_text(text, "orc") {
            assert(text@ == InProcessBenchmarkMode::Orc.name());
            Ok(InProcessBenchmarkMode::Orc)
        } else {
            let mut message = String::new();
            message.append("Invalid in-process benchmark mode: ");
            message.append(text);
            message.append(", must be one of: parquet, arrow, liquid, liquid-eager-transcode, orc");
            assert(message@ =~= InProcessBenchmarkMode::invalid_name(text@));
            Err(message)
        }
    }

    /// How the cache of a benchmark holds arrays, where the benchmark has a cache.
    pub open spec fn spec_cache_mode(self) -> Option<LiquidCacheMode> {
        match self {
            InProcessBenchmarkMode::Parquet => None,
            InProcessBenchmarkMode::Arrow => Some(LiquidCacheMode::Arrow),
            InProcessBenchmarkMode::Liquid => Some(
                LiquidCacheMode::Liquid { transcode_in_background: true },
            ),
            InProcessBenchmarkMode::LiquidEagerTranscode => Some(
                LiquidCacheMode::Liquid { transcode_in_background: false },
            ),
            InProcessBenchmarkMode::Orc => None,
        }
    }

    /// How the cache of a benchmark holds arrays, where the benchmark has a cache.
    pub fn cache_mode(&self) -> (mode: Option<LiquidCacheMode>)
        ensures
            mode == self.spec_cache_mode(),
    {
        match self {
            InProcessBenchmarkMode::Parquet => None,
            InProcessBenchmarkMode::Arrow => Some(LiquidCacheMode::Arrow),
            InProcessBenchmarkMode::Liquid => Some(
                LiquidCacheMode::Liquid { transcode_in_background: true },
            ),
            InProcessBenchmarkMode::LiquidEagerTranscode => Some(
                LiquidCacheMode::Liquid { transcode_in_background: false },
            ),
            InProcessBenchmarkMode::Orc => None,
        }
    }
}

impl FromStr for InProcessBenchmarkMode {
    type Err = String;

    /// The mode with the given name. See [InProcessBenchmarkMode::from_name].
    fn from_str(s: &str) -> (mode: Result<Self, Self::Err>)
        ensures
            forall|m: InProcessBenchmarkMode|
                mode == Ok::<InProcessBenchmarkMode, String>(m) <==> s@ == #[trigger] m.name(),
            mode is Err <==> forall|m: InProcessBenchmarkMode| s@ != #[trigger] m.name(),
            mode is Err ==> mode->Err_0@ == InProcessBenchmarkMode::invalid_name(s@),
    {
        InProcessBenchmarkMode::from_name(s)
    }
}

/// An object store that a benchmark reads from.
pub struct ObjectStoreConfig {
    /// The address.
    pub url: String,
    /// The options by name, where there are any.
    pub options: Option<Vec<(String, String)>>,
}

/// The normal form of the address of an object store, where a text is one.
pub uninterp spec fn parsed_store_url(text: Seq<char>) -> Option<Seq<char>>;

/// `ObjectStoreUrl::parse` turns a text into the address of an object store, where it is one; the
/// result is its normal form.
#[verifier::external_body]
fn parse_store_url(text: &str) -> (url: Option<String>)
    ensures
        url is Some <==> parsed_store_url(text@) is Some,
        url is Some ==> url->0@ == parsed_store_url(text@)->0,
{
    datafusion::execution::object_store::ObjectStoreUrl::parse(text)
        .ok()
        .map(|url| url.as_str().to_string())
}

impl ObjectStoreConfig {
    /// The normal form of the address, where it is one.
    pub fn store_url(&self) -> (url: Option<String>)
        ensures
            url is Some <==> parsed_store_url(self.url@) is Some,
            url is Some ==> url->0@ == parsed_store_url(self.url@)->0,
    {
        parse_store_url(self.url.as_str())
    }

    /// The names and values of the options; none where there are no options.
    pub open spec fn option_texts(self) -> Seq<(Seq<char>, Seq<char>)> {
        match self.options {
            None => Seq::empty(),
            Some(options) => pair_texts(options@),
        }
    }

    /// The options; none where there are no options.
    pub fn store_options(&self) -> (options: Vec<(String, String)>)
        ensures
            pair_texts(options@) == self.option_texts(),
    {
        let mut options: Vec<(String, String)> = Vec::new();
        assert(pair_texts(options@) =~= Seq::empty());
        if let Some(given) = &self.options {
            let n: usize = given.len();
            let mut i: usize = 0;
            while i < n
                invariant
                    i <= n,
                    n == given@.len(),
                    pair_texts(options@) == pair_texts(given@).take(i as int),
                decreases n - i,
            {
                let ghost before = pair_texts(options@);
                options.push((given[i].0.clone(), given[i].1.clone()));
                proof {
                    let pair = (given@[i as int].0@, given@[i as int].1@);
                    assert(pair_texts(options@) =~= before.push(pair));
                    assert(pair_texts(given@)[i as int] == pair);
                }
                i += 1;
                assert(pair_texts(options@) =~= pair_texts(given@).take(i as int));
            }
            assert(pair_texts(options@) =~= pair_texts(given@));
        }
        options
    }
}

/// The texts of a list of pairs of strings.
pub open spec fn pair_texts(pairs: Seq<(String, String)>) -> Seq<(Seq<char>, Seq<char>)> {
    pairs.map_values(|pair: (String, String)| (pair.0@, pair.1@))
}

/// An object store that is registered before the queries are run.
pub struct ObjectStoreRegistration {
    /// The normal form of its address; nothing where its address is none.
    pub url: Option<String>,
    /// Its options.
    pub options: Vec<(String, String)>,
}

impl ObjectStoreRegistration {
    /// Whether an object store is registered under its address and with its options.
    pub open spec fn registers(self, store: ObjectStoreConfig) -> bool {
        &&& self.url is Some <==> parsed_store_url(store.url@) is Some
        &&& self.url is Some ==> self.url->0@ == parsed_store_url(store.url@)->0
        &&& pair_texts(self.options@) == store.option_texts()
    }
}

/// The tables and queries of a benchmark.
pub struct BenchmarkManifest {
    /// The name of the benchmark.
    pub name: String,
    /// What the benchmark is about.
    pub description: Option<String>,
    /// The names of the tables and the paths of their files. No name occurs twice.
    pub tables: Vec<(String, String)>,
    /// The queries, each the path of a file or the query itself.
    pub queries: Vec<String>,
    /// The object stores, where there are any.
    pub object_stores: Option<Vec<ObjectStoreConfig>>,
    /// The queries, by number, that are handled in a special way, where there are any.
    pub special_query_handling: Option<HashMap<u32, String>>,
}

impl BenchmarkManifest {
    /// Whether a table has a path.
    pub open spec fn has_table(self, name: Seq<char>, path: Seq<char>) -> bool {
        exists|i: int|
            0 <= i < self.tables@.len() && (#[trigger] self.tables@[i]).0@ == name
                && self.tables@[i].1@ == path
    }

    /// Whether no table is listed twice.
    pub open spec fn wf(self) -> bool {
        forall|i: int, j: int|
            0 <= i < self.tables@.len() && 0 <= j < self.tables@.len() && i != j ==> (
            #[trigger] self.tables@[i]).0@ != (#[trigger] self.tables@[j]).0@
    }

    /// A benchmark without tables and queries.
    pub fn new(name: String) -> (manifest: Self)
        ensures
            manifest.wf(),
            manifest.name == name,
            manifest.description is None,
            manifest.tables@.len() == 0,
            manifest.queries@.len() == 0,
            manifest.object_stores is None,
            manifest.special_query_handling is None,
    {
        BenchmarkManifest {
            name,
            description: None,
            tables: Vec::new(),
            queries: Vec::new(),
            object_stores: None,
            special_query_handling: None,
        }
    }

    /// The benchmark with a description.
    pub fn with_description(self, description: String) -> (manifest: Self)
        ensures
            manifest == (BenchmarkManifest { description: Some(description), ..self }),
    {
        BenchmarkManifest { description: Some(description), ..self }
    }

    /// The benchmark with one more table, or with another path for a table that it has.
    pub fn add_table(self, name: String, path: String) -> (manifest: Self)
        requires
            self.wf(),
        ensures
            manifest.wf(),
            forall|n: Seq<char>, p: Seq<char>| #[trigger]
                manifest.has_table(n, p) <==> if n == name@ {
                    p == path@
                } else {
                    self.has_table(n, p)
                },
            manifest == (BenchmarkManifest { tables: manifest.tables, ..self }),
    {
        let mut manifest = self;
        let ghost before = self.tables@;
        let n: usize = manifest.tables.len();
        let mut i: usize = 0;
        while i < n
            invariant
                i <= n,
                n == before.len(),
                self.tables@ == before,
                self.wf(),
                manifest == self,
                forall|j: int| 0 <= j < i ==> (#[trigger] before[j]).0@ != name@,
            decreases n - i,
        {
            if same_text(manifest.tables[i].0.as_str(), name.as_str()) {
                let ghost place = i as int;
                manifest.tables.set(i, (name, path));
                proof {
                    let after = manifest.tables@;
                    assert(after == before.update(place, (name, path)));
                    assert forall|m: Seq<char>, p: Seq<char>| #[trigger]
                        manifest.has_table(m, p) <==> if m == name@ {
                            p == path@
                        } else {
                            self.has_table(m, p)
                        } by {
                        if manifest.has_table(m, p) {
                            let k = choose|k: int|
                                0 <= k < after.len() && (#[trigger] after[k]).0@ == m
                                    && after[k].1@ == p;
                            if k == place {
                            } else {
                                assert(before[k].0@ != before[place].0@);
                                assert(before[k].0@ == m && before[k].1@ == p);
                            }
                        }
                        if m == name@ && p == path@ {
                            assert(after[place].0@ == m && after[place].1@ == p);
                        }
                        if m != name@ && self.has_table(m, p) {
                            let k = choose|k: int|
                                0 <= k < before.len() && (#[trigger] before[k]).0@ == m
                                    && before[k].1@ == p;
                            assert(after[k] == before[k]);
                        }
                    }
                    assert(manifest.wf()) by {
                        assert forall|a: int, b: int|
                            0 <= a < after.len() && 0 <= b < after.len() && a != b implies (
                        #[trigger] after[a]).0@ != (#[trigger] after[b]).0@ by {
                            assert(before[a].0@ != before[b].0@);
                        }
                    }
                }
                return manifest;
            }
            i += 1;
        }
        manifest.tables.push((name, path));
        proof {
            let after = manifest.tables@;
            assert(after == before.push((name, path)));
            assert forall|m: Seq<char>, p: Seq<char>| #[trigger]
                manifest.has_table(m, p) <==> if m == name@ {
                    p == path@
                } else {
                    self.has_table(m, p)
                } by {
                if manifest.has_table(m, p) {
                    let k = choose|k: int|
                        0 <= k < after.len() && (#[trigger] after[k]).0@ == m && after[k].1@ == p;
                    if k < before.len() {
                        assert(before[k].0@ == m && before[k].1@ == p);
                    }
                }
                if m == name@ && p == path@ {
                    assert(after[before.len() as int].0@ == m);
                }
                if m != name@ && self.has_table(m, p) {
                    let k = choose|k: int|
                        0 <= k < before.len() && (#[trigger] before[k]).0@ == m && before[k].1@ == p;
                    assert(after[k] == before[k]);
                }
            }
            assert(manifest.wf()) by {
                assert forall|a: int, b: int|
                    0 <= a < after.len() && 0 <= b < after.len() && a != b implies (
                #[trigger] after[a]).0@ != (#[trigger] after[b]).0@ by {
                    if a < before.len() && b < before.len() {
                        assert(before[a].0@ != before[b].0@);
                    } else if a < before.len() {
                        assert(before[a].0@ != name@);
                    } else {
                        assert(before[b].0@ != name@);
                    }
                }
            }
        }
        manifest
    }

    /// The benchmark with one more query.
    pub fn add_query(self, query: String) -> (manifest: Self)
        ensures
            manifest.queries@ == self.queries@.push(query),
            manifest == (BenchmarkManifest { queries: manifest.queries, ..self }),
    {
        let mut manifest = self;
        manifest.queries.push(query);
        manifest
    }

    /// The benchmark with queries that are handled in a special way.
    pub fn with_special_query_handling(self, handling: HashMap<u32, String>) -> (manifest: Self)
        ensures
            manifest == (BenchmarkManifest { special_query_handling: Some(handling), ..self }),
    {
        BenchmarkManifest { special_query_handling: Some(handling), ..self }
    }

    /// Whether a query is the one of the TPC-H benchmark that consists of three statements.
    pub open spec fn is_three_part_query(self, query_id: u32) -> bool {
        &&& query_id == 15
        &&& self.special_query_handling is Some
        &&& self.special_query_handling->0@.contains_key(query_id)
        &&& self.special_query_handling->0@[query_id]@ == "tpch_q15"@
    }

    /// The statements of a query, and which of their results is the query's.
    pub open spec fn statements(self, query_id: u32, sql: Seq<char>) -> (Seq<Seq<char>>, int) {
        if self.is_three_part_query(query_id) {
            (split_on(sql, ';'), 1)
        } else {
            (seq![sql], 0)
        }
    }

    fn has_three_parts(&self, query_id: u32) -> (has: bool)
        ensures
            has == self.is_three_part_query(query_id),
    {
        if query_id != 15 {
            return false;
        }
        match &self.special_query_handling {
            None => false,
            Some(handling) => match handling.get(&query_id) {
                None => false,
                Some(kind) => same_text(kind.as_str(), "tpch_q15"),
            },
        }
    }

    /// The statements of a query, and which of their results is the query's. A query of several
    /// statements has a second one.
    pub fn execute_query(&self, query: &Query) -> (plan: StatementPlan)
        requires
            self.is_three_part_query(query.id) ==> split_on(query.sql@, ';').len() >= 2,
        ensures
            (texts(plan.statements@), plan.kept as int) == self.statements(query.id, query.sql@),
            plan.kept < plan.statements@.len(),
            query.id != 15 || self.special_query_handling is None ==> plan.kept == 0 && texts(
                plan.statements@,
            ) == seq![query.sql@],
    {
        if self.has_three_parts(query.id) {
            let statements = split(query.sql.as_str(), ';');
            assert(texts(statements@).len() == statements@.len());
            StatementPlan { statements, kept: 1 }
        } else {
            let mut statements: Vec<String> = Vec::new();
            statements.push(query.sql.clone());
            assert(texts(statements@) =~= seq![query.sql@]);
            StatementPlan { statements, kept: 0 }
        }
    }
}

/// Statements that are run one after the other, and which of their results is kept.
pub struct StatementPlan {
    /// The statements.
    pub statements: Vec<String>,
    /// The statement whose result is kept.
    pub kept: usize,
}

/// A query of a benchmark.
pub struct Query {
    /// Its number.
    pub id: u32,
    /// Its text.
    pub sql: String,
}

/// The format of a file.
#[derive(Clone, Copy, Debug, PartialEq, Eq, Structural)]
pub enum TableFormat {
    /// Parquet.
    Parquet,
    /// ORC.
    Orc,
}

/// A table that is registered before the queries are run.
pub struct TableRegistration {
    /// The name of the table.
    pub name: String,
    /// The path of its file.
    pub path: String,
    /// The format of the file.
    pub format: TableFormat,
}

impl TableRegistration {
    /// Whether a table is registered under its name, with its path and in a format.
    pub open spec fn registers(self, table: (String, String), format: TableFormat) -> bool {
        &&& self.name@ == table.0@
        &&& self.path@ == table.1@
        &&& self.format == format
    }
}

/// One step of the set-up before the queries are run.
pub enum SetupStep {
    /// Register a table.
    RegisterTable(TableRegistration),
    /// Register an object store.
    RegisterObjectStore(ObjectStoreRegistration),
}

/// Where the text of a query comes from.
pub enum QuerySource {
    /// From the file with this path.
    File(String),
    /// This is the text.
    Inline(String),
}

/// How a session is set up.
#[derive(Clone, Copy, Debug, PartialEq, Eq, Structural)]
pub struct SessionSettings {
    /// Whether filters are evaluated by the scan.
    pub pushdown_filters: bool,
    /// The number of partitions, where it is not left to the machine.
    pub target_partitions: Option<usize>,
    /// The number of rows in a batch.
    pub batch_size: usize,
}

/// What one run of a query took.
#[derive(Clone, Copy, Debug, PartialEq, Eq, Structural)]
pub struct IterationResult {
    /// The bytes sent over the network.
    pub network_traffic: u64,
    /// The time in milliseconds.
    pub time_millis: u64,
    /// The processor time that the cache took.
    pub cache_cpu_time: u64,
    /// The memory that the cache held after the run.
    pub cache_memory_usage: u64,
    /// The memory that liquid arrays held after the run.
    pub liquid_cache_usage: u64,
    /// The bytes read from disk.
    pub disk_bytes_read: u64,
    /// The bytes written to disk.
    pub disk_bytes_written: u64,
    /// The time from the start of the benchmark to that of the run, in nanoseconds.
    pub starting_timestamp: u128,
}

/// What was read from and written to a disk.
#[derive(Clone, Copy, Debug, PartialEq, Eq, Structural)]
pub struct DiskUsage {
    /// The bytes read.
    pub read_bytes: u64,
    /// The bytes written.
    pub written_bytes: u64,
}

/// The bytes read from all disks.
pub open spec fn total_read(disks: Seq<DiskUsage>) -> nat
    decreases disks.len(),
{
    if disks.len() == 0 {
        0
    } else {
        total_read(disks.drop_last()) + disks.last().read_bytes as nat
    }
}

/// The bytes written to all disks.
pub open spec fn total_written(disks: Seq<DiskUsage>) -> nat
    decreases disks.len(),
{
    if disks.len() == 0 {
        0
    } else {
        total_written(disks.drop_last()) + disks.last().written_bytes as nat
    }
}

proof fn lemma_totals_grow(disks: Seq<DiskUsage>, n: int)
    requires
        0 <= n <= disks.len(),
    ensures
        total_read(disks.take(n)) <= total_read(disks),
        total_written(disks.take(n)) <= total_written(disks),
    decreases disks.len() - n,
{
    if n < disks.len() {
        lemma_totals_grow(disks, n + 1);
        assert(disks.take(n + 1).drop_last() =~= disks.take(n));
    } else {
        assert(disks.take(n) =~= disks);
    }
}

/// The number of bytes in mebibytes.
pub fn mebibytes(size: usize) -> (bytes: usize)
    requires
        size * 1048576 <= usize::MAX,
    ensures
        bytes == size * 1048576,
{
    assert(size * 1024 * 1024 == size * 1048576 && size * 1024 <= size * 1048576)
        by (nonlinear_arith);
    size * 1024 * 1024
}

/// Whether the text of a query is the path of a file: it ends like one or holds a separator of
/// directories. Any other text is the query itself.
pub open spec fn looks_like_path(text: Seq<char>) -> bool {
    ||| has_suffix(text, ".sql"@)
    ||| text.contains('/')
    ||| text.contains('\\')
}

/// The tables among some whose file is, or is not, in ORC format, by the end of its path.
pub open spec fn tables_in_orc(tables: Seq<(String, String)>, orc: bool) -> Seq<(String, String)> {
    tables.filter(|t: (String, String)| has_suffix(t.1@, ".orc"@) == orc)
}

/// Runs a benchmark.
pub struct InProcessBenchmarkRunner {
    /// What the benchmark reads from.
    pub bench_mode: InProcessBenchmarkMode,
    /// How often each query is run.
    pub iteration: u32,
    /// Whether the cache is reset after each run.
    pub reset_cache: bool,
    /// The number of partitions, where it is not left to the machine.
    pub partitions: Option<usize>,
    /// The size of the cache in mebibytes, where it is bounded.
    pub max_cache_mb: Option<usize>,
    /// The directory for flame graphs, where they are wanted.
    pub flamegraph_dir: Option<String>,
    /// The only query to be run, where not all are.
    pub query_filter: Option<usize>,
}

impl Default for InProcessBenchmarkRunner {
    fn default() -> (runner: Self)
        ensures
            runner == InProcessBenchmarkRunner::spec_new(),
    {
        InProcessBenchmarkRunner::new()
    }
}

impl InProcessBenchmarkRunner {
    /// Three runs of all queries against a cache without bounds.
    pub open spec fn spec_new() -> InProcessBenchmarkRunner {
        InProcessBenchmarkRunner {
            bench_mode: InProcessBenchmarkMode::Liquid,
            iteration: 3,
            reset_cache: false,
            partitions: None,
            max_cache_mb: None,
            flamegraph_dir: None,
            query_filter: None,
        }
    }

    /// Three runs of all queries against a cache without bounds.
    pub fn new() -> (runner: Self)
        ensures
            runner == InProcessBenchmarkRunner::spec_new(),
    {
        InProcessBenchmarkRunner {
            bench_mode: InProcessBenchmarkMode::default(),
            iteration: 3,
            reset_cache: false,
            partitions: None,
            max_cache_mb: None,
            flamegraph_dir: None,
            query_filter: None,
        }
    }

    /// The runner with something else to read from.
    pub fn with_bench_mode(self, mode: InProcessBenchmarkMode) -> (runner: Self)
        ensures
            runner == (InProcessBenchmarkRunner { bench_mode: mode, ..self }),
    {
        InProcessBenchmarkRunner { bench_mode: mode, ..self }
    }

    /// The runner with another number of runs.
    pub fn with_iteration(self, iteration: u32) -> (runner: Self)
        ensures
            runner == (InProcessBenchmarkRunner { iteration, ..self }),
    {
        InProcessBenchmarkRunner { iteration, ..self }
    }

    /// The runner with or without resets of the cache.
    pub fn with_reset_cache(self, reset_cache: bool) -> (runner: Self)
        ensures
            runner == (InProcessBenchmarkRunner { reset_cache, ..self }),
    {
        InProcessBenchmarkRunner { reset_cache, ..self }
    }

    /// The runner with another number of partitions.
    pub fn with_partitions(self, partitions: Option<usize>) -> (runner: Self)
        ensures
            runner == (InProcessBenchmarkRunner { partitions, ..self }),
    {
        InProcessBenchmarkRunner { partitions, ..self }
    }

    /// The runner with another size of the cache.
    pub fn with_max_cache_mb(self, max_cache_mb: Option<usize>) -> (runner: Self)
        ensures
            runner == (InProcessBenchmarkRunner { max_cache_mb, ..self }),
    {
        InProcessBenchmarkRunner { max_cache_mb, ..self }
    }

    /// The runner with another directory for flame graphs.
    pub fn with_flamegraph_dir(self, flamegraph_dir: Option<String>) -> (runner: Self)
        ensures
            runner == (InProcessBenchmarkRunner { flamegraph_dir, ..self }),
    {
        InProcessBenchmarkRunner { flamegraph_dir, ..self }
    }

    /// The runner with another choice of queries.
    pub fn with_query_filter(self, query_filter: Option<usize>) -> (runner: Self)
        ensures
            runner == (InProcessBenchmarkRunner { query_filter, ..self }),
    {
        InProcessBenchmarkRunner { query_filter, ..self }
    }

    /// Whether the text of a query is the path of a file.
    pub fn is_file_path(query_str: &str) -> (is: bool)
        ensures
            is == looks_like_path(query_str@),
            is <==> (exists|rest: Seq<char>| query_str@ == #[trigger] (rest + ".sql"@))
                || query_str@.contains('/') || query_str@.contains('\\'),
    {
        ends_with(query_str, ".sql") || contains_char(query_str, '/') || contains_char(
            query_str,
            '\\',
        )
    }

    /// How the session of a benchmark is set up.
    pub fn session_settings(&self) -> (settings: SessionSettings)
        ensures
            settings == (SessionSettings {
                pushdown_filters: true,
                target_partitions: self.partitions,
                batch_size: 16384,
            }),
    {
        SessionSettings {
            pushdown_filters: true,
            target_partitions: self.partitions,
            batch_size: 8192 * 2,
        }
    }

    /// The size of the cache in bytes.
    pub fn cache_size(&self) -> (bytes: usize)
        requires
            self.max_cache_mb is Some ==> self.max_cache_mb->0 * 1048576 <= usize::MAX,
        ensures
            bytes == match self.max_cache_mb {
                Some(size) => size * 1048576,
                None => usize::MAX as int,
            },
    {
        match self.max_cache_mb {
            Some(size) => mebibytes(size),
            None => usize::MAX,
        }
    }

    /// What the cache of a benchmark does when it is full, where the benchmark has a cache: it writes
    /// entries to disk in the format they have.
    pub fn cache_policy(&self) -> (policy: Option<ToDiskPolicy>)
        ensures
            policy is Some <==> self.bench_mode.spec_cache_mode() is Some,
            policy is Some <==> self.bench_mode != InProcessBenchmarkMode::Parquet
                && self.bench_mode != InProcessBenchmarkMode::Orc,
    {
        match self.bench_mode.cache_mode() {
            Some(_) => Some(ToDiskPolicy::new()),
            None => None,
        }
    }

    /// The object stores to be registered, in the order of the list.
    pub fn object_store_registrations(&self, manifest: &BenchmarkManifest) -> (registrations: Vec<
        ObjectStoreRegistration,
    >)
        ensures
            manifest.object_stores is None ==> registrations@.len() == 0,
            manifest.object_stores is Some ==> {
                let stores = manifest.object_stores->0@;
                &&& registrations@.len() == stores.len()
                &&& forall|i: int|
                    0 <= i < stores.len() ==> (#[trigger] registrations@[i]).registers(stores[i])
            },
    {
        let mut registrations: Vec<ObjectStoreRegistration> = Vec::new();
        if let Some(stores) = &manifest.object_stores {
            let n: usize = stores.len();
            let mut i: usize = 0;
            while i < n
                invariant
                    i <= n,
                    n == stores@.len(),
                    registrations@.len() == i,
                    forall|j: int|
                        0 <= j < i ==> (#[trigger] registrations@[j]).registers(stores@[j]),
                decreases n - i,
            {
                let store = &stores[i];
                registrations.push(
                    ObjectStoreRegistration {
                        url: store.store_url(),
                        options: store.store_options(),
                    },
                );
                i += 1;
            }
        }
        registrations
    }

    /// The tables in ORC format that are registered: all in ORC mode, and else none.
    pub open spec fn orc_tables(&self, manifest: &BenchmarkManifest) -> Seq<(String, String)> {
        if self.bench_mode == InProcessBenchmarkMode::Orc {
            tables_in_orc(manifest.tables@, true)
        } else {
            Seq::empty()
        }
    }

    /// What is registered before the queries are run: in ORC mode the tables in ORC format, then the
    /// object stores, then, in every mode, the tables in another format.
    pub fn setup_steps(&self, manifest: &BenchmarkManifest) -> (steps: Vec<SetupStep>)
        ensures
            ({
                let orc = self.orc_tables(manifest);
                let stores = match manifest.object_stores {
                    None => Seq::<ObjectStoreConfig>::empty(),
                    Some(stores) => stores@,
                };
                let others = tables_in_orc(manifest.tables@, false);
                &&& steps@.len() == orc.len() + stores.len() + others.len()
                &&& forall|i: int|
                    #![trigger steps@[i]]
                    0 <= i < steps@.len() ==> if i < orc.len() {
                        steps@[i] is RegisterTable && steps@[i]->RegisterTable_0.registers(
                            orc[i],
                            TableFormat::Orc,
                        )
                    } else if i < orc.len() + stores.len() {
                        steps@[i] is RegisterObjectStore
                            && steps@[i]->RegisterObjectStore_0.registers(stores[i - orc.len()])
                    } else {
                        steps@[i] is RegisterTable && steps@[i]->RegisterTable_0.registers(
                            others[i - orc.len() - stores.len()],
                            TableFormat::Parquet,
                        )
                    }
            }),
    {
        let mut steps: Vec<SetupStep> = Vec::new();
        match self.bench_mode {
            InProcessBenchmarkMode::Orc => {
                push_tables(table_registrations(manifest, TableFormat::Orc), &mut steps);
            },
            _ => {},
        }
        let ghost first = steps@;
        push_stores(self.object_store_registrations(manifest), &mut steps);
        let ghost second = steps@;
        push_tables(table_registrations(manifest, TableFormat::Parquet), &mut steps);
        proof {
            assert forall|i: int| 0 <= i < first.len() implies steps@[i] == first[i] by {}
            assert forall|i: int| 0 <= i < second.len() implies steps@[i] == second[i] by {}
        }
        steps
    }

    /// The queries, by their place in the list, and where their texts come from.
    pub fn load_queries(&self, manifest: &BenchmarkManifest) -> (sources: Vec<(u32, QuerySource)>)
        ensures
            sources@.len() == manifest.queries@.len(),
            forall|i: int|
                0 <= i < sources@.len() ==> {
                    let text = manifest.queries@[i]@;
                    &&& (#[trigger] sources@[i]).0 == i as u32
                    &&& match sources@[i].1 {
                        QuerySource::File(path) => looks_like_path(text) && path@ == text,
                        QuerySource::Inline(sql) => !looks_like_path(text) && sql@ == text,
                    }
                },
    {
        let mut sources: Vec<(u32, QuerySource)> = Vec::new();
        let n: usize = manifest.queries.len();
        let mut i: usize = 0;
        while i < n
            invariant
                i <= n,
                n == manifest.queries@.len(),
                sources@.len() == i,
                forall|j: int|
                    0 <= j < i ==> {
                        let text = manifest.queries@[j]@;
                        &&& (#[trigger] sources@[j]).0 == j as u32
                        &&& match sources@[j].1 {
                            QuerySource::File(path) => looks_like_path(text) && path@ == text,
                            QuerySource::Inline(sql) => !looks_like_path(text) && sql@ == text,
                        }
                    },
            decreases n - i,
        {
            let text = manifest.queries[i].clone();
            let source = if Self::is_file_path(text.as_str()) {
                QuerySource::File(text)
            } else {
                QuerySource::Inline(text)
            };
            #[verifier::truncate]
            let id: u32 = i as u32;
            sources.push((id, source));
            i += 1;
        }
        sources
    }

    /// The message for a query that does not exist.
    pub open spec fn query_out_of_range(index: nat, queries: nat) -> Seq<char> {
        "Query index "@ + decimal(index) + " out of range (max: "@ + decimal((queries - 1) as nat)
            + ")"@
    }

    /// The queries to be run: the one that was chosen, or all of them. There must be queries to
    /// choose from.
    pub fn query_indices(&self, queries: usize) -> (indices: Result<Vec<usize>, String>)
        requires
            self.query_filter is Some ==> queries > 0,
        ensures
            indices is Err <==> self.query_filter is Some && self.query_filter->0 >= queries,
            indices is Err ==> indices->Err_0@ == Self::query_out_of_range(
                self.query_filter->0 as nat,
                queries as nat,
            ),
            indices is Ok ==> indices->Ok_0@ == match self.query_filter {
                Some(index) => seq![index],
                None => Seq::new(queries as nat, |i: int| i as usize),
            },
    {
        let mut indices: Vec<usize> = Vec::new();
        match self.query_filter {
            Some(index) => {
                if index >= queries {
                    let mut message = String::new();
                    message.append("Query index ");
                    append_decimal(&mut message, index as u64);
                    message.append(" out of range (max: ");
                    append_decimal(&mut message, (queries - 1) as u64);
                    message.append(")");
                    assert(message@ =~= Self::query_out_of_range(index as nat, queries as nat));
                    return Err(message);
                }
                indices.push(index);
                assert(indices@ =~= seq![index]);
            },
            None => {
                let mut i: usize = 0;
                while i < queries
                    invariant
                        i <= queries,
                        indices@ == Seq::new(i as nat, |j: int| j as usize),
                    decreases queries - i,
                {
                    indices.push(i);
                    i += 1;
                    assert(indices@ =~= Seq::new(i as nat, |j: int| j as usize));
                }
            },
        }
        Ok(indices)
    }

    /// The name of the file of a flame graph.
    pub open spec fn flamegraph_name(secs: u64, query_id: u32, iteration: u32) -> Seq<char> {
        decimal2(((secs / 3600) % 24) as nat) + "h"@ + decimal2(((secs / 60) % 60) as nat) + "m"@
            + decimal2((secs % 60) as nat) + "s_q"@ + decimal2(query_id as nat) + "_i"@ + decimal2(
            iteration as nat,
        ) + ".svg"@
    }

    /// The name of the file of the flame graph of a run that ended so many seconds after the Unix
    /// epoch.
    pub fn write_flamegraph(secs: u64, query_id: u32, iteration: u32) -> (name: String)
        ensures
            name@ == Self::flamegraph_name(secs, query_id, iteration),
    {
        let mut name = String::new();
        append_decimal2(&mut name, (secs / 3600) % 24);
        name.append("h");
        append_decimal2(&mut name, (secs / 60) % 60);
        name.append("m");
        append_decimal2(&mut name, secs % 60);
        name.append("s_q");
        append_decimal2(&mut name, query_id as u64);
        name.append("_i");
        append_decimal2(&mut name, iteration as u64);
        name.append(".svg");
        assert(name@ =~= Self::flamegraph_name(secs, query_id, iteration));
        name
    }

    /// What a run took. There is no memory usage where there is no cache.
    pub fn run_single_iteration(
        elapsed_millis: u128,
        cache_memory_usage: Option<usize>,
        disks: &[DiskUsage],
        starting_timestamp: u128,
    ) -> (result: IterationResult)
        requires
            total_read(disks@) <= u64::MAX,
            total_written(disks@) <= u64::MAX,
        ensures
            result == (IterationResult {
                network_traffic: 0,
                time_millis: elapsed_millis as u64,
                cache_cpu_time: 0,
                cache_memory_usage: (match cache_memory_usage {
                    Some(bytes) => bytes as u64,
                    None => 0,
                }),
                liquid_cache_usage: (match cache_memory_usage {
                    Some(bytes) => bytes as u64,
                    None => 0,
                }),
                disk_bytes_read: total_read(disks@) as u64,
                disk_bytes_written: total_written(disks@) as u64,
                starting_timestamp,
            }),
    {
        let mut read: u64 = 0;
        let mut written: u64 = 0;
        let n: usize = disks.len();
        let mut i: usize = 0;
        while i < n
            invariant
                i <= n,
                n == disks@.len(),
                total_read(disks@) <= u64::MAX,
                total_written(disks@) <= u64::MAX,
                read == total_read(disks@.take(i as int)),
                written == total_written(disks@.take(i as int)),
            decreases n - i,
        {
            proof {
                lemma_totals_grow(disks@, i + 1);
                assert(disks@.take(i + 1).drop_last() =~= disks@.take(i as int));
            }
            let disk: DiskUsage = disks[i];
            read = read + disk.read_bytes;
            written = written + disk.written_bytes;
            i += 1;
        }
        assert(disks@.take(n as int) =~= disks@);
        let usage: u64 = match cache_memory_usage {
            Some(bytes) => bytes as u64,
            None => 0,
        };
        #[verifier::truncate]
        let time_millis: u64 = elapsed_millis as u64;
        IterationResult {
            network_traffic: 0,
            time_millis,
            cache_cpu_time: 0,
            cache_memory_usage: usage,
            liquid_cache_usage: usage,
            disk_bytes_read: read,
            disk_bytes_written: written,
            starting_timestamp,
        }
    }

    /// The runs of the given queries.
    pub fn run(&self, indices: Vec<usize>, has_cache: bool) -> (run: BenchmarkRun)
        ensures
            run.wf(),
            run.remaining() == schedule(
                indices@,
                self.iteration as nat,
                self.reset_cache && has_cache,
            ),
    {
        let run = BenchmarkRun {
            indices,
            iterations: self.iteration,
            reset: self.reset_cache && has_cache,
            position: 0,
            iteration: 0,
            reset_due: false,
        };
        proof {
            assert(run.indices@.skip(0) =~= run.indices@);
            if run.indices@.len() > 0 {
                assert(run.remaining() =~= schedule(
                    run.indices@,
                    run.iterations as nat,
                    run.reset,
                ));
            }
        }
        run
    }
}

/// The tables whose file is in ORC format, or those whose file is not.
fn table_registrations(manifest: &BenchmarkManifest, format: TableFormat) -> (registrations: Vec<
    TableRegistration,
>)
    ensures
        ({
            let tables = tables_in_orc(manifest.tables@, format == TableFormat::Orc);
            &&& registrations@.len() == tables.len()
            &&& forall|i: int|
                0 <= i < registrations@.len() ==> (#[trigger] registrations@[i]).registers(
                    tables[i],
                    format,
                )
        }),
{
    let mut registrations: Vec<TableRegistration> = Vec::new();
    let orc: bool = format == TableFormat::Orc;
    let n: usize = manifest.tables.len();
    let mut i: usize = 0;
    proof {
        reveal(Seq::filter);
        assert(manifest.tables@.take(0) =~= Seq::empty());
    }
    while i < n
        invariant
            i <= n,
            n == manifest.tables@.len(),
            registrations@.len() == tables_in_orc(manifest.tables@.take(i as int), orc).len(),
            forall|j: int|
                0 <= j < registrations@.len() ==> (#[trigger] registrations@[j]).registers(
                    tables_in_orc(manifest.tables@.take(i as int), orc)[j],
                    format,
                ),
        decreases n - i,
    {
        proof {
            reveal(Seq::filter);
            assert(manifest.tables@.take(i + 1).drop_last() =~= manifest.tables@.take(i as int));
        }
        let table = &manifest.tables[i];
        if ends_with(table.1.as_str(), ".orc") == orc {
            registrations.push(
                TableRegistration { name: table.0.clone(), path: table.1.clone(), format },
            );
        }
        i += 1;
    }
    assert(manifest.tables@.take(n as int) =~= manifest.tables@);
    registrations
}

/// Adds steps that register tables.
fn push_tables(tables: Vec<TableRegistration>, steps: &mut Vec<SetupStep>)
    ensures
        final(steps)@ == old(steps)@ + tables@.map_values(
            |table: TableRegistration| SetupStep::RegisterTable(table),
        ),
{
    let ghost before = steps@;
    let ghost added = tables@.map_values(
        |table: TableRegistration| SetupStep::RegisterTable(table),
    );
    for table in iter: tables
        invariant
            iter.seq() == tables@,
            added == tables@.map_values(|table: TableRegistration| SetupStep::RegisterTable(table)),
            steps@ == before + added.take(iter.index() as int),
    {
        steps.push(SetupStep::RegisterTable(table));
        assert(steps@ =~= before + added.take(iter.index() + 1));
    }
    assert(added.take(added.len() as int) =~= added);
}

/// Adds steps that register object stores.
fn push_stores(stores: Vec<ObjectStoreRegistration>, steps: &mut Vec<SetupStep>)
    ensures
        final(steps)@ == old(steps)@ + stores@.map_values(
            |store: ObjectStoreRegistration| SetupStep::RegisterObjectStore(store),
        ),
{
    let ghost before = steps@;
    let ghost added = stores@.map_values(
        |store: ObjectStoreRegistration| SetupStep::RegisterObjectStore(store),
    );
    for store in iter: stores
        invariant
            iter.seq() == stores@,
            added == stores@.map_values(
                |store: ObjectStoreRegistration| SetupStep::RegisterObjectStore(store),
            ),
            steps@ == before + added.take(iter.index() as int),
    {
        steps.push(SetupStep::RegisterObjectStore(store));
        assert(steps@ =~= before + added.take(iter.index() + 1));
    }
    assert(added.take(added.len() as int) =~= added);
}

/// A step of a benchmark.
#[derive(Clone, Copy, Debug, PartialEq, Eq, Structural)]
pub enum RunStep {
    /// Run a query for the given time, counted from one.
    Run {
        /// The query.
        query: usize,
        /// The time.
        iteration: u32,
    },
    /// Reset the cache.
    ResetCache,
    /// Record what the runs of a query took.
    Record {
        /// The query.
        query: usize,
    },
}

/// The steps for a query that has been run `done` times.
pub open spec fn query_steps(query: usize, done: nat, iterations: nat, reset: bool) -> Seq<RunStep>
    decreases iterations - done,
{
    if done >= iterations {
        seq![RunStep::Record { query }]
    } else {
        seq![RunStep::Run { query, iteration: (done + 1) as u32 }] + (if reset {
            seq![RunStep::ResetCache]
        } else {
            Seq::empty()
        }) + query_steps(query, done + 1, iterations, reset)
    }
}

/// The steps of a benchmark: each query is run a number of times, with a reset of the cache after
/// each where that is wanted.
pub open spec fn schedule(queries: Seq<usize>, iterations: nat, reset: bool) -> Seq<RunStep>
    decreases queries.len(),
{
    if queries.len() == 0 {
        Seq::empty()
    } else {
        query_steps(queries[0], 0, iterations, reset) + schedule(
            queries.skip(1),
            iterations,
            reset,
        )
    }
}

/// A benchmark on its way through its steps.
pub struct BenchmarkRun {
    indices: Vec<usize>,
    iterations: u32,
    reset: bool,
    position: usize,
    iteration: u32,
    reset_due: bool,
}

impl BenchmarkRun {
    /// Whether the records agree with each other.
    pub closed spec fn wf(&self) -> bool {
        &&& self.position <= self.indices@.len()
        &&& self.iteration <= self.iterations
    }

    /// The steps that are left.
    pub closed spec fn remaining(&self) -> Seq<RunStep> {
        if self.position >= self.indices@.len() {
            Seq::empty()
        } else {
            (if self.reset_due {
                seq![RunStep::ResetCache]
            } else {
                Seq::empty()
            }) + query_steps(
                self.indices@[self.position as int],
                self.iteration as nat,
                self.iterations as nat,
                self.reset,
            ) + schedule(
                self.indices@.skip(self.position + 1),
                self.iterations as nat,
                self.reset,
            )
        }
    }

    /// Takes the next step; nothing where none is left.
    pub fn next_step(&mut self) -> (step: Option<RunStep>)
        requires
            old(self).wf(),
        ensures
            final(self).wf(),
            step is Some <==> old(self).remaining().len() > 0,
            step is Some ==> step->0 == old(self).remaining()[0],
            step is Some ==> final(self).remaining() == old(self).remaining().skip(1),
            step is None ==> final(self).remaining() == old(self).remaining(),
    {
        if self.position >= self.indices.len() {
            return None;
        }
        let query: usize = self.indices[self.position];
        let ghost before = *self;
        let ghost rest = schedule(
            self.indices@.skip(self.position + 1),
            self.iterations as nat,
            self.reset,
        );
        let ghost steps = query_steps(
            query,
            self.iteration as nat,
            self.iterations as nat,
            self.reset,
        );
        if self.reset_due {
            self.reset_due = false;
            assert(before.remaining().skip(1) =~= self.remaining());
            return Some(RunStep::ResetCache);
        }
        assert(before.remaining() =~= steps + rest);
        if self.iteration < self.iterations {
            self.iteration += 1;
            self.reset_due = self.reset;
            assert(before.remaining().skip(1) =~= self.remaining());
            return Some(RunStep::Run { query, iteration: self.iteration });
        }
        self.position += 1;
        self.iteration = 0;
        proof {
            assert(before.remaining().skip(1) =~= rest);
            if self.position < self.indices@.len() {
                let left = self.indices@.skip(self.position as int);
                assert(left[0] == self.indices@[self.position as int]);
                assert(left.skip(1) =~= self.indices@.skip(self.position + 1));
                assert(self.remaining() =~= rest);
            } else {
                assert(self.indices@.skip(self.position as int) =~= Seq::empty());
                assert(self.remaining() =~= rest);
            }
        }
        Some(RunStep::Record { query })
    }
}

/// The number of runs of a query among some steps.
pub open spec fn runs_of(steps: Seq<RunStep>, query: usize) -> nat
    decreases steps.len(),
{
    if steps.len() == 0 {
        0
    } else {
        runs_of(steps.drop_last(), query) + if steps.last() is Run && steps.last()->Run_query
            == query {
            1nat
        } else {
            0nat
        }
    }
}

proof fn lemma_runs_of_sum(a: Seq<RunStep>, b: Seq<RunStep>, query: usize)
    ensures
        runs_of(a + b, query) == runs_of(a, query) + runs_of(b, query),
    decreases b.len(),
{
    if b.len() == 0 {
        assert(a + b =~= a);
    } else {
        lemma_runs_of_sum(a, b.drop_last(), query);
        assert((a + b).drop_last() =~= a + b.drop_last());
    }
}

proof fn lemma_runs_of_query(query: usize, done: nat, iterations: nat, reset: bool, other: usize)
    requires
        done <= iterations,
    ensures
        runs_of(query_steps(query, done, iterations, reset), other) == if other == query {
            (iterations - done) as nat
        } else {
            0
        },
    decreases iterations - done,
{
    reveal_with_fuel(runs_of, 3);
    if done < iterations {
        let head = seq![RunStep::Run { query, iteration: (done + 1) as u32 }];
        let middle = if reset {
            seq![RunStep::ResetCache]
        } else {
            Seq::empty()
        };
        let tail = query_steps(query, done + 1, iterations, reset);
        lemma_runs_of_query(query, done + 1, iterations, reset, other);
        lemma_runs_of_sum(head + middle, tail, other);
        lemma_runs_of_sum(head, middle, other);
        assert(head.drop_last() =~= Seq::empty());
        assert(reset ==> middle.drop_last() =~= Seq::empty());
    } else {
        assert(seq![RunStep::Record { query }].drop_last() =~= Seq::empty());
    }
}

/// Each chosen query is run as often as wanted, and no other query is run.
pub proof fn every_query_is_run(
    queries: Seq<usize>,
    iterations: nat,
    reset: bool,
    query: usize,
)
    requires
        queries.no_duplicates(),
    ensures
        runs_of(schedule(queries, iterations, reset), query) == if queries.contains(query) {
            iterations
        } else {
            0
        },
    decreases queries.len(),
{
    if queries.len() > 0 {
        let rest = queries.skip(1);
        every_query_is_run(rest, iterations, reset, query);
        lemma_runs_of_query(queries[0], 0, iterations, reset, query);
        lemma_runs_of_sum(
            query_steps(queries[0], 0, iterations, reset),
            schedule(rest, iterations, reset),
            query,
        );
        assert(queries.contains(query) <==> query == queries[0] || rest.contains(query)) by {
            if queries.contains(query) {
                let i = choose|i: int| 0 <= i < queries.len() && queries[i] == query;
                if i > 0 {
                    assert(rest[i - 1] == query);
                }
            }
            if rest.contains(query) {
                let i = choose|i: int| 0 <= i < rest.len() && rest[i] == query;
                assert(queries[i + 1] == query);
            }
        }
        assert(!rest.contains(queries[0])) by {
            if rest.contains(queries[0]) {
                let i = choose|i: int| 0 <= i < rest.len() && rest[i] == queries[0];
                assert(queries[i + 1] == queries[0]);
            }
        }
    }
}

/// Each run of a query is counted from one on and, where that is wanted, followed by a reset of the
/// cache; after the last one what they took is recorded.
pub proof fn runs_of_a_query_are_counted(query: usize, iterations: nat, k: int)
    requires
        iterations <= u32::MAX,
    ensures
        ({
            let plain = query_steps(query, 0, iterations, false);
            let resetting = query_steps(query, 0, iterations, true);
            &&& plain.len() == iterations + 1
            &&& 0 <= k < iterations ==> plain[k] == (RunStep::Run {
                query,
                iteration: (k + 1) as u32,
            })
            &&& plain[iterations as int] == RunStep::Record { query }
            &&& resetting.len() == 2 * iterations + 1
            &&& 0 <= k < iterations ==> resetting[2 * k] == (RunStep::Run {
                query,
                iteration: (k + 1) as u32,
            }) && resetting[2 * k + 1] == RunStep::ResetCache
            &&& resetting[2 * iterations as int] == RunStep::Record { query }
        }),
{
    lemma_steps_from(query, 0, iterations, k);
}

proof fn lemma_steps_from(query: usize, done: nat, iterations: nat, k: int)
    requires
        done <= iterations,
        done <= k || k < 0,
    ensures
        ({
            let plain = query_steps(query, done, iterations, false);
            let resetting = query_steps(query, done, iterations, true);
            let n = iterations - done;
            &&& plain.len() == n + 1
            &&& done <= k < iterations ==> plain[k - done] == (RunStep::Run {
                query,
                iteration: (k + 1) as u32,
            })
            &&& plain[n] == RunStep::Record { query }
            &&& resetting.len() == 2 * n + 1
            &&& done <= k < iterations ==> resetting[2 * (k - done)] == (RunStep::Run {
                query,
                iteration: (k + 1) as u32,
            }) && resetting[2 * (k - done) + 1] == RunStep::ResetCache
            &&& resetting[2 * n] == RunStep::Record { query }
        }),
    decreases iterations - done,
{
    if done < iterations {
        if k == done {
            lemma_steps_from(query, done + 1, iterations, -1);
        } else {
            lemma_steps_from(query, done + 1, iterations, k);
        }
        let head = seq![RunStep::Run { query, iteration: (done + 1) as u32 }];
        let tail = query_steps(query, done + 1, iterations, false);
        let resets = query_steps(query, done + 1, iterations, true);
        assert(query_steps(query, done, iterations, false) =~= head + tail);
        assert(query_steps(query, done, iterations, true) =~= head + seq![RunStep::ResetCache]
            + resets);
    }
}

/// The steps of a benchmark are those of its first queries and then those of the others, each query
/// with all its runs before the next.
pub proof fn queries_are_run_one_after_the_other(
    a: Seq<usize>,
    b: Seq<usize>,
    query: usize,
    iterations: nat,
    reset: bool,
)
    ensures
        schedule(Seq::<usize>::empty(), iterations, reset).len() == 0,
        schedule(seq![query], iterations, reset) == query_steps(query, 0, iterations, reset),
        schedule(a + b, iterations, reset) == schedule(a, iterations, reset) + schedule(
            b,
            iterations,
            reset,
        ),
    decreases a.len(),
{
    let none = Seq::<usize>::empty();
    assert(seq![query].skip(1) =~= none);
    assert(schedule(none, iterations, reset) =~= Seq::<RunStep>::empty());
    assert(schedule(seq![query], iterations, reset) =~= query_steps(query, 0, iterations, reset));
    if a.len() == 0 {
        assert(a + b =~= b);
        assert(schedule(a, iterations, reset) + schedule(b, iterations, reset) =~= schedule(
            b,
            iterations,
            reset,
        ));
    } else {
        queries_are_run_one_after_the_other(a.skip(1), b, query, iterations, reset);
        assert((a + b).skip(1) =~= a.skip(1) + b);
        assert((a + b)[0] == a[0]);
        assert(schedule(a + b, iterations, reset) =~= schedule(a, iterations, reset) + schedule(
            b,
            iterations,
            reset,
        ));
    }
}

/// The text of a query is the path of a file exactly if it is something followed by `.sql` or holds a
/// slash or a backslash.
pub proof fn paths_end_in_sql_or_hold_separators(text: Seq<char>)
    ensures
        looks_like_path(text) <==> (exists|rest: Seq<char>| text == #[trigger] (rest + ".sql"@)) || (
        exists|i: int| 0 <= i < text.len() && (#[trigger] text[i] == '/' || text[i] == '\\')),
{
    crate::text::suffix_is_what_follows_the_rest(text, ".sql"@);
    if text.contains('/') {
        let i = choose|i: int| 0 <= i < text.len() && text[i] == '/';
        assert(text[i] == '/');
    }
    if text.contains('\\') {
        let i = choose|i: int| 0 <= i < text.len() && text[i] == '\\';
        assert(text[i] == '\\');
    }
}

/// Each table is either in ORC format, by the end of its path, or not, and tables stay in their
/// order.
pub proof fn tables_are_told_apart_by_their_paths(
    tables: Seq<(String, String)>,
    table: (String, String),
    orc: bool,
)
    ensures
        tables_in_orc(Seq::<(String, String)>::empty(), orc).len() == 0,
        tables_in_orc(tables.push(table), orc) == if (exists|rest: Seq<char>|
            table.1@ == #[trigger] (rest + ".orc"@)) == orc {
            tables_in_orc(tables, orc).push(table)
        } else {
            tables_in_orc(tables, orc)
        },
        tables_in_orc(tables, true).len() + tables_in_orc(tables, false).len() == tables.len(),
    decreases tables.len(),
{
    reveal(Seq::filter);
    crate::text::suffix_is_what_follows_the_rest(table.1@, ".orc"@);
    assert(tables.push(table).drop_last() =~= tables);
    if tables.len() > 0 {
        let last = tables.last();
        tables_are_told_apart_by_their_paths(tables.drop_last(), last, true);
        tables_are_told_apart_by_their_paths(tables.drop_last(), last, false);
        assert(tables =~= tables.drop_last().push(last));
    }
}

/// Tables in ORC format are registered in ORC mode only.
pub proof fn orc_tables_are_for_orc_mode(
    runner: &InProcessBenchmarkRunner,
    manifest: &BenchmarkManifest,
)
    ensures
        runner.bench_mode == InProcessBenchmarkMode::Orc ==> runner.orc_tables(manifest)
            == tables_in_orc(manifest.tables@, true),
        runner.bench_mode != InProcessBenchmarkMode::Orc ==> runner.orc_tables(manifest).len() == 0,
{
}

/// A table is registered under its name, from its path and in the format that was asked for; an
/// object store under the normal form of its address, where it has one, and with all its options.
pub proof fn registrations_are_complete(
    table: TableRegistration,
    listed: (String, String),
    format: TableFormat,
    store: ObjectStoreRegistration,
    config: ObjectStoreConfig,
)
    ensures
        table.registers(listed, format) <==> table.name@ == listed.0@ && table.path@ == listed.1@
            && table.format == format,
        store.registers(config) ==> {
            &&& parsed_store_url(config.url@) is Some ==> store.url is Some && store.url->0@
                == parsed_store_url(config.url@)->0
            &&& parsed_store_url(config.url@) is None ==> store.url is None
            &&& config.options is None ==> store.options@.len() == 0
            &&& config.options is Some ==> store.options@.len() == config.options->0@.len()
                && forall|i: int|
                0 <= i < store.options@.len() ==> (#[trigger] store.options@[i]).0@
                    == config.options->0@[i].0@ && store.options@[i].1@ == config.options->0@[i].1@
        },
{
    if store.registers(config) {
        let given = pair_texts(store.options@);
        assert(given.len() == store.options@.len());
        if let Some(options) = config.options {
            assert forall|i: int| 0 <= i < store.options@.len() implies (
            #[trigger] store.options@[i]).0@ == options@[i].0@ && store.options@[i].1@
                == options@[i].1@ by {
                assert(given[i] == pair_texts(options@)[i]);
            }
        }
    }
}

/// The options of an object store are handed over one by one, names with their values; there are none
/// where none are given.
pub proof fn options_are_handed_over(config: ObjectStoreConfig, i: int)
    ensures
        config.options is None ==> config.option_texts().len() == 0,
        config.options is Some ==> config.option_texts().len() == config.options->0@.len(),
        config.options is Some && 0 <= i < config.options->0@.len() ==> config.option_texts()[i] == (
            config.options->0@[i].0@,
            config.options->0@[i].1@,
        ),
{
}

/// A benchmark has a cache unless it reads Parquet or ORC files as they are; the cache holds Arrow
/// arrays, or liquid ones that are transcoded in the background or at once.
pub proof fn in_process_modes_ask_for_caches()
    ensures
        InProcessBenchmarkMode::Parquet.spec_cache_mode() is None,
        InProcessBenchmarkMode::Orc.spec_cache_mode() is None,
        InProcessBenchmarkMode::Arrow.spec_cache_mode() == Some(LiquidCacheMode::Arrow),
        InProcessBenchmarkMode::Liquid.spec_cache_mode() == Some(
            LiquidCacheMode::Liquid { transcode_in_background: true },
        ),
        InProcessBenchmarkMode::LiquidEagerTranscode.spec_cache_mode() == Some(
            LiquidCacheMode::Liquid { transcode_in_background: false },
        ),
        InProcessBenchmarkMode::Parquet.name() == "parquet"@,
        InProcessBenchmarkMode::Arrow.name() == "arrow"@,
        InProcessBenchmarkMode::Liquid.name() == "liquid"@,
        InProcessBenchmarkMode::LiquidEagerTranscode.name() == "liquid-eager-transcode"@,
        InProcessBenchmarkMode::Orc.name() == "orc"@,
{
}

/// A query is cut into statements, of which the second counts, exactly if its number is 15 and the
/// benchmark asks for that under this number; every other query is run as it is.
pub proof fn queries_are_cut_where_asked_for(
    manifest: BenchmarkManifest,
    query_id: u32,
    sql: Seq<char>,
)
    ensures
        manifest.is_three_part_query(query_id) <==> query_id == 15
            && manifest.special_query_handling is Some
            && manifest.special_query_handling->0@.contains_key(15)
            && manifest.special_query_handling->0@[15]@ == "tpch_q15"@,
        manifest.is_three_part_query(query_id) ==> manifest.statements(query_id, sql).0 == split_on(
            sql,
            ';',
        ) && manifest.statements(query_id, sql).1 == 1,
        !manifest.is_three_part_query(query_id) ==> manifest.statements(query_id, sql).0
            == seq![sql] && manifest.statements(query_id, sql).1 == 0,
{
}

/// Bytes are added up over all disks.
pub proof fn disk_usage_adds_up(disks: Seq<DiskUsage>, disk: DiskUsage)
    ensures
        total_read(Seq::empty()) == 0,
        total_written(Seq::empty()) == 0,
        total_read(disks.push(disk)) == total_read(disks) + disk.read_bytes,
        total_written(disks.push(disk)) == total_written(disks) + disk.written_bytes,
{
    assert(disks.push(disk).drop_last() =~= disks);
}

/// The name of a flame graph tells the time of day at which the run ended, the query and the run.
pub proof fn flame_graphs_tell_time_query_and_run(secs: u64, query_id: u32, iteration: u32)
    ensures
        exists|h: nat, m: nat, s: nat|
            {
                &&& h < 24 && m < 60 && s < 60
                &&& 3600 * h + 60 * m + s == secs % 86400
                &&& InProcessBenchmarkRunner::flamegraph_name(secs, query_id, iteration)
                    == #[trigger] decimal2(h) + "h"@ + #[trigger] decimal2(m) + "m"@
                    + #[trigger] decimal2(s) + "s_q"@ + decimal2(query_id as nat) + "_i"@ + decimal2(
                    iteration as nat,
                ) + ".svg"@
            },
{
    let h = ((secs / 3600) % 24) as nat;
    let m = ((secs / 60) % 60) as nat;
    let s = (secs % 60) as nat;
    assert(3600 * h + 60 * m + s == secs % 86400);
    assert(InProcessBenchmarkRunner::flamegraph_name(secs, query_id, iteration) == decimal2(h)
        + "h"@ + decimal2(m) + "m"@ + decimal2(s) + "s_q"@ + decimal2(query_id as nat) + "_i"@
        + decimal2(iteration as nat) + ".svg"@);
}

/// The message names the query that was asked for and the last one that there is.
pub proof fn message_names_query_and_last(index: nat, queries: nat)
    requires
        queries > 0,
    ensures
        InProcessBenchmarkRunner::query_out_of_range(index, queries) == "Query index "@ + decimal(
            index,
        ) + " out of range (max: "@ + decimal((queries - 1) as nat) + ")"@,
{
}

/// A text that names no mode is named in the message, which lists the names of all modes.
pub proof fn message_names_text_and_modes(text: Seq<char>)
    ensures
        InProcessBenchmarkMode::invalid_name(text) == "Invalid in-process benchmark mode: "@ + text
            + ", must be one of: parquet, arrow, liquid, liquid-eager-transcode, orc"@,
{
}

/// A new runner runs all queries three times against a liquid cache without bounds, and does not
/// reset it in between.
pub proof fn new_runners_run_everything_three_times()
    ensures
        ({
            let runner = InProcessBenchmarkRunner::spec_new();
            &&& runner.bench_mode == InProcessBenchmarkMode::Liquid
            &&& runner.iteration == 3
            &&& !runner.reset_cache
            &&& runner.partitions is None
            &&& runner.max_cache_mb is None
            &&& runner.flamegraph_dir is None
            &&& runner.query_filter is None
        }),
{
}

/// A benchmark that lists no table twice has one path for each of its tables.
pub proof fn tables_have_one_path(
    manifest: BenchmarkManifest,
    name: Seq<char>,
    a: Seq<char>,
    b: Seq<char>,
    i: int,
)
    requires
        manifest.wf(),
    ensures
        manifest.has_table(name, a) && manifest.has_table(name, b) ==> a == b,
        0 <= i < manifest.tables@.len() ==> manifest.has_table(
            manifest.tables@[i].0@,
            manifest.tables@[i].1@,
        ),
        manifest.has_table(name, a) ==> exists|k: int|
            0 <= k < manifest.tables@.len() && (#[trigger] manifest.tables@[k]).0@ == name
                && manifest.tables@[k].1@ == a,
{
    if manifest.has_table(name, a) && manifest.has_table(name, b) {
        let k = choose|k: int|
            0 <= k < manifest.tables@.len() && (#[trigger] manifest.tables@[k]).0@ == name
                && manifest.tables@[k].1@ == a;
        let l = choose|l: int|
            0 <= l < manifest.tables@.len() && (#[trigger] manifest.tables@[l]).0@ == name
                && manifest.tables@[l].1@ == b;
        if k != l {
            assert(manifest.tables@[k].0@ != manifest.tables@[l].0@);
        }
    }
}

/// A benchmark is in order exactly if no name of a table comes twice.
pub proof fn names_of_tables_come_once(manifest: BenchmarkManifest)
    ensures
        manifest.wf() <==> manifest.tables@.map_values(
            |table: (String, String)| table.0@,
        ).no_duplicates(),
{
    let names = manifest.tables@.map_values(|table: (String, String)| table.0@);
    if names.no_duplicates() {
        assert forall|i: int, j: int|
            0 <= i < manifest.tables@.len() && 0 <= j < manifest.tables@.len() && i != j implies (
        #[trigger] manifest.tables@[i]).0@ != (#[trigger] manifest.tables@[j]).0@ by {
            assert(names[i] != names[j]);
        }
    }
}

} // verus!
