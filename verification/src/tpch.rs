//! The TPC-H benchmark against a cache server.

use crate::bench::Query;
use crate::bench::StatementPlan;
use crate::modes::CacheMode;
use crate::text::append_decimal;
use crate::text::decimal;
use crate::text::join;
use crate::text::joined;
use crate::text::parts_hold_no_separator;
use crate::text::split;
use crate::text::split_on;
use crate::text::splitting_undoes_joining;
use crate::text::texts;
use crate::text::trim;
use crate::text::trimmed;
use crate::text::trimming_exists;
use vstd::prelude::*;

verus! {

/// What a benchmark runs against.
#[derive(Clone, Copy, Debug, PartialEq, Eq, Structural)]
pub enum BenchmarkMode {
    /// A server of files.
    ParquetFileserver,
    /// A server that evaluates filters on Parquet files.
    ParquetPushdown,
    /// A server that caches Arrow arrays.
    ArrowPushdown,
    /// A server that caches liquid arrays, transcoded in the background.
    LiquidCache,
    /// A server that caches liquid arrays, transcoded at once.
    LiquidEagerTranscode,
}

impl BenchmarkMode {
    /// What the server caches, unless it is one of files.
    pub open spec fn spec_cache_mode(self) -> Option<CacheMode> {
        match self {
            BenchmarkMode::ParquetFileserver => None,
            BenchmarkMode::ParquetPushdown => Some(CacheMode::Parquet),
            BenchmarkMode::ArrowPushdown => Some(CacheMode::Arrow),
            BenchmarkMode::LiquidCache => Some(CacheMode::Liquid),
            BenchmarkMode::LiquidEagerTranscode => Some(CacheMode::LiquidEagerTranscode),
        }
    }

    /// What the server caches, unless it is one of files.
    pub fn cache_mode(&self) -> (mode: Option<CacheMode>)
        ensures
            mode == self.spec_cache_mode(),
    {
        match self {
            BenchmarkMode::ParquetFileserver => None,
            BenchmarkMode::ParquetPushdown => Some(CacheMode::Parquet),
            BenchmarkMode::ArrowPushdown => Some(CacheMode::Arrow),
            BenchmarkMode::LiquidCache => Some(CacheMode::Liquid),
            BenchmarkMode::LiquidEagerTranscode => Some(CacheMode::LiquidEagerTranscode),
        }
    }
}

/// The normal form of an address, where a text is one.
pub uninterp spec fn parsed_url(text: Seq<char>) -> Option<Seq<char>>;

/// `Url::parse` turns a text into an address, where it is one; the result is its normal form.
#[verifier::external_body]
fn parse_url(text: &str) -> (url: Option<String>)
    ensures
        url is Some <==> parsed_url(text@) is Some,
        url is Some ==> url->0@ == parsed_url(text@)->0,
{
    url::Url::parse(text).ok().map(|url| url.to_string())
}

/// The statements of a query file: the parts between semicolons, without the white space around
/// them, unless nothing is left.
pub open spec fn statements_of(content: Seq<char>) -> Seq<Seq<char>> {
    split_on(content, ';').map_values(|part: Seq<char>| trimmed(part)).filter(
        |part: Seq<char>| part.len() > 0,
    )
}

/// The name of the file of a query.
pub fn query_file_name(query_id: u32) -> (name: String)
    ensures
        name@ == "q"@ + decimal(query_id as nat) + ".sql"@,
{
    let mut name = String::new();
    name.append("q");
    append_decimal(&mut name, query_id as u64);
    name.append(".sql");
    assert(name@ =~= "q"@ + decimal(query_id as nat) + ".sql"@);
    name
}

/// The statements in the file of a query.
pub fn get_query_by_id(content: &str) -> (statements: Vec<String>)
    ensures
        texts(statements@) == statements_of(content@),
{
    let parts = split(content, ';');
    let n: usize = parts.len();
    let mut statements: Vec<String> = Vec::new();
    let mut i: usize = 0;
    let ghost all = split_on(content@, ';').map_values(|part: Seq<char>| trimmed(part));
    proof {
        reveal(Seq::filter);
        assert(all.take(0) =~= Seq::empty());
        assert(texts(statements@) =~= all.take(0).filter(|part: Seq<char>| part.len() > 0));
        assert(texts(parts@).len() == n);
    }
    while i < n
        invariant
            i <= n,
            n == parts@.len(),
            n == all.len(),
            texts(parts@) == split_on(content@, ';'),
            all == split_on(content@, ';').map_values(|part: Seq<char>| trimmed(part)),
            texts(statements@) == all.take(i as int).filter(|part: Seq<char>| part.len() > 0),
        decreases n - i,
    {
        let statement = trim(parts[i].as_str());
        let ghost before = texts(statements@);
        proof {
            reveal(Seq::filter);
            assert(all.take(i + 1).drop_last() =~= all.take(i as int));
            assert(texts(parts@)[i as int] == parts@[i as int]@);
            assert(all.take(i + 1).last() == statement@);
        }
        if statement.as_str().unicode_len() > 0 {
            statements.push(statement);
            assert(texts(statements@) =~= before.push(statement@));
        }
        i += 1;
    }
    assert(all.take(n as int) =~= all);
    statements
}

/// The path of the file with the expected results of a query.
pub fn answer_path(answer_dir: &str, query_id: u32) -> (path: String)
    ensures
        path@ == answer_dir@ + "/q"@ + decimal(query_id as nat) + ".parquet"@,
{
    let mut path = String::new();
    path.append(answer_dir);
    path.append("/q");
    append_decimal(&mut path, query_id as u64);
    path.append(".parquet");
    assert(path@ =~= answer_dir@ + "/q"@ + decimal(query_id as nat) + ".parquet"@);
    path
}

/// The names of the tables of the benchmark.
pub open spec fn table_names() -> Seq<Seq<char>> {
    seq![
        "customer"@,
        "lineitem"@,
        "nation"@,
        "orders"@,
        "part"@,
        "partsupp"@,
        "region"@,
        "supplier"@,
    ]
}

/// The names of the tables of the benchmark.
pub fn tables() -> (names: Vec<String>)
    ensures
        texts(names@) == table_names(),
{
    let mut names: Vec<String> = Vec::new();
    names.push("customer".to_owned());
    names.push("lineitem".to_owned());
    names.push("nation".to_owned());
    names.push("orders".to_owned());
    names.push("part".to_owned());
    names.push("partsupp".to_owned());
    names.push("region".to_owned());
    names.push("supplier".to_owned());
    assert(texts(names@) =~= table_names());
    names
}

/// How a session of the benchmark is set up.
pub enum TpchSetup {
    /// Files are read from a server of files.
    FileServer,
    /// Plans are sent to a cache server.
    CacheServer {
        /// What the server caches.
        mode: CacheMode,
        /// The number of partitions, where it is not left to the machine.
        partitions: Option<usize>,
    },
}

/// The TPC-H benchmark.
pub struct TpchBenchmark {
    /// The directory of the queries.
    pub query_dir: String,
    /// The directory of the tables, below the one in which the benchmark is run.
    pub data_dir: String,
    /// The address of the server.
    pub server: String,
    /// What the benchmark runs against.
    pub bench_mode: BenchmarkMode,
    /// The number of partitions, where it is not left to the machine.
    pub partitions: Option<usize>,
    /// The directory of the expected results, where results are to be checked.
    pub answer_dir: Option<String>,
}

impl TpchBenchmark {
    /// The name of the benchmark.
    pub fn benchmark_name(&self) -> (name: &'static str)
        ensures
            name@ == "tpch"@,
    {
        "tpch"
    }

    /// How a session is set up.
    pub fn setup_context(&self) -> (setup: TpchSetup)
        ensures
            setup == match self.bench_mode.spec_cache_mode() {
                None => TpchSetup::FileServer,
                Some(mode) => TpchSetup::CacheServer { mode, partitions: self.partitions },
            },
    {
        match self.bench_mode.cache_mode() {
            None => TpchSetup::FileServer,
            Some(mode) => TpchSetup::CacheServer { mode, partitions: self.partitions },
        }
    }

    /// The normal form of the address of the server, where it is one.
    pub fn server_url(&self) -> (url: Option<String>)
        ensures
            url is Some <==> parsed_url(self.server@) is Some,
            url is Some ==> url->0@ == parsed_url(self.server@)->0,
    {
        parse_url(self.server.as_str())
    }

    /// The text of the address of a table.
    pub open spec fn table_address(self, current_dir: Seq<char>, table: Seq<char>) -> Seq<char> {
        "file://"@ + current_dir + "/"@ + self.data_dir@ + "/"@ + table + ".parquet"@
    }

    /// The text of the address of a table.
    pub fn table_url_text(&self, current_dir: &str, table: &str) -> (text: String)
        ensures
            text@ == self.table_address(current_dir@, table@),
    {
        let mut text = String::new();
        text.append("file://");
        text.append(current_dir);
        text.append("/");
        text.append(self.data_dir.as_str());
        text.append("/");
        text.append(table);
        text.append(".parquet");
        assert(text@ =~= self.table_address(current_dir@, table@));
        text
    }

    /// The address of a table, where its text is one.
    pub fn table_url(&self, current_dir: &str, table: &str) -> (url: Option<String>)
        ensures
            url is Some <==> parsed_url(self.table_address(current_dir@, table@)) is Some,
            url is Some ==> url->0@ == parsed_url(self.table_address(current_dir@, table@))->0,
    {
        parse_url(self.table_url_text(current_dir, table).as_str())
    }

    /// The numbers of the queries: from 1 to 22.
    pub fn query_ids() -> (ids: Vec<u32>)
        ensures
            ids@ == Seq::new(22, |i: int| (i + 1) as u32),
    {
        let mut ids: Vec<u32> = Vec::new();
        let mut id: u32 = 1;
        while id <= 22
            invariant
                1 <= id <= 23,
                ids@ == Seq::new((id - 1) as nat, |i: int| (i + 1) as u32),
            decreases 23 - id,
        {
            ids.push(id);
            id += 1;
            assert(ids@ =~= Seq::new((id - 1) as nat, |i: int| (i + 1) as u32));
        }
        ids
    }

    /// A query, from the content of its file.
    pub fn get_query(id: u32, content: &str) -> (query: Query)
        ensures
            query.id == id,
            query.sql@ == joined(statements_of(content@), ";"@),
    {
        let statements = get_query_by_id(content);
        Query { id, sql: join(&statements, ";") }
    }

    /// The statements of a query, and which of their results is the query's.
    pub open spec fn statements(query: Query) -> (Seq<Seq<char>>, int) {
        if query.id == 15 {
            (split_on(query.sql@, ';'), 1)
        } else {
            (seq![query.sql@], 0)
        }
    }

    /// The statements of a query, and which of their results is the query's. Query 15 has three, and
    /// the second one counts.
    pub fn execute_query(query: &Query) -> (plan: StatementPlan)
        requires
            query.id == 15 ==> split_on(query.sql@, ';').len() >= 2,
        ensures
            (texts(plan.statements@), plan.kept as int) == Self::statements(*query),
            plan.kept < plan.statements@.len(),
    {
        if query.id == 15 {
            let statements = split(query.sql.as_str(), ';');
            assert(texts(statements@).len() == statements@.len());
            StatementPlan { statements, kept: 1 }
        } else {
            let mut statements: Vec<String> = Vec::new();
            statements.push(query.sql.clone());
            assert(texts(statements@) =~= seq![query.sql@]);
            StatementPlan { statements, kept: 0 }
        }
    }
}

/// The statements in the file of a query are the ones that its text is cut into when it is run.
pub proof fn statements_survive_joining(content: Seq<char>)
    requires
        statements_of(content).len() > 0,
    ensures
        split_on(joined(statements_of(content), ";"@), ';') == statements_of(content),
{
    let parts = split_on(content, ';').map_values(|part: Seq<char>| trimmed(part));
    let statements = statements_of(content);
    assert forall|k: int| 0 <= k < statements.len() implies !(#[trigger] statements[k]).contains(
        ';',
    ) by {
        assert(statements.contains(statements[k]));
        parts.lemma_filter_contains_rev(|part: Seq<char>| part.len() > 0, statements[k]);
        assert(parts.contains(statements[k]));
        let j = choose|j: int| 0 <= j < parts.len() && parts[j] == statements[k];
        let part = split_on(content, ';')[j];
        parts_hold_no_separator(content, ';', j);
        trimming_exists(part);
        let (from, to): (int, int) = choose|from: int, to: int|
            0 <= from <= to <= part.len() && trimmed(part) == #[trigger] part.subrange(from, to);
        if statements[k].contains(';') {
            let i = choose|i: int| 0 <= i < statements[k].len() && statements[k][i] == ';';
            assert(part[from + i] == ';');
        }
    }
    splitting_undoes_joining(statements, ';');
    reveal_strlit(";");
    assert(";"@ =~= seq![';']);
}

/// Each part of a query file gives one statement, without the white space around it, unless nothing
/// is left, and the statements stand in the order of the parts.
pub proof fn statements_come_part_by_part(content: Seq<char>, part: Seq<char>)
    requires
        !part.contains(';'),
    ensures
        statements_of(part) == if trimmed(part).len() > 0 {
            seq![trimmed(part)]
        } else {
            Seq::empty()
        },
        statements_of(content + seq![';'] + part) == statements_of(content) + statements_of(part),
{
    let trims = |p: Seq<char>| trimmed(p);
    let full = |p: Seq<char>| p.len() > 0;
    crate::text::lemma_split_one(part, ';');
    crate::text::lemma_split_more(content, ';', part);
    let parts = split_on(content, ';');
    let all = parts.map_values(trims);
    let last = trimmed(part);
    reveal(Seq::filter);
    assert(seq![part].map_values(trims) =~= seq![last]);
    assert(seq![last].drop_last() =~= Seq::<Seq<char>>::empty());
    assert(Seq::<Seq<char>>::empty().filter(full) =~= Seq::empty());
    assert(seq![last].filter(full) =~= if last.len() > 0 {
        seq![last]
    } else {
        Seq::empty()
    });
    assert(parts.push(part).map_values(trims) =~= all.push(last));
    assert(all.push(last).drop_last() =~= all);
    assert(all.push(last).filter(full) =~= all.filter(full) + seq![last].filter(full));
}

/// No statement is empty, and each is a part of the file without the white space around it.
pub proof fn statements_are_not_empty(content: Seq<char>, i: int)
    requires
        0 <= i < statements_of(content).len(),
    ensures
        statements_of(content)[i].len() > 0,
        exists|k: int|
            0 <= k < split_on(content, ';').len() && statements_of(content)[i] == trimmed(
                #[trigger] split_on(content, ';')[k],
            ),
{
    let parts = split_on(content, ';');
    let all = parts.map_values(|part: Seq<char>| trimmed(part));
    let full = |part: Seq<char>| part.len() > 0;
    all.lemma_filter_contains_rev(full, statements_of(content)[i]);
    assert(all.contains(statements_of(content)[i]));
    let k = choose|k: int| 0 <= k < all.len() && all[k] == statements_of(content)[i];
    assert(parts[k] == split_on(content, ';')[k]);
}

/// Only the query with the number 15 is cut into statements, and its second one counts; every other
/// query is run as it is.
pub proof fn only_one_query_is_cut(query: Query)
    ensures
        query.id == 15 ==> TpchBenchmark::statements(query).0 == split_on(query.sql@, ';')
            && TpchBenchmark::statements(query).1 == 1,
        query.id != 15 ==> TpchBenchmark::statements(query).0 == seq![query.sql@]
            && TpchBenchmark::statements(query).1 == 0,
{
}

/// Each mode but that of the file server asks for a cache of its own sort.
pub proof fn benchmark_modes_ask_for_caches()
    ensures
        BenchmarkMode::ParquetFileserver.spec_cache_mode() is None,
        BenchmarkMode::ParquetPushdown.spec_cache_mode() == Some(CacheMode::Parquet),
        BenchmarkMode::ArrowPushdown.spec_cache_mode() == Some(CacheMode::Arrow),
        BenchmarkMode::LiquidCache.spec_cache_mode() == Some(CacheMode::Liquid),
        BenchmarkMode::LiquidEagerTranscode.spec_cache_mode() == Some(
            CacheMode::LiquidEagerTranscode,
        ),
        forall|a: BenchmarkMode, b: BenchmarkMode|
            #[trigger] a.spec_cache_mode() == #[trigger] b.spec_cache_mode() ==> a == b,
{
}

/// A table lies in the file of its name in the directory of the tables, below the present one.
pub proof fn table_address_ends_with_its_file(
    benchmark: TpchBenchmark,
    current_dir: Seq<char>,
    table: Seq<char>,
)
    ensures
        benchmark.table_address(current_dir, table) == "file://"@ + current_dir + "/"@
            + benchmark.data_dir@ + "/"@ + table + ".parquet"@,
        crate::text::has_suffix(
            benchmark.table_address(current_dir, table),
            table + ".parquet"@,
        ),
{
    let all = benchmark.table_address(current_dir, table);
    let front = "file://"@ + current_dir + "/"@ + benchmark.data_dir@ + "/"@;
    let file = table + ".parquet"@;
    assert(all =~= front + file);
    assert(all.skip(all.len() - file.len()) =~= file);
}

} // verus!
