//! Opening a Parquet file for a scan: which row groups and pages are looked at, and in what order
//! they are ruled out.

use crate::cache::LiquidCache;
use crate::cache::LiquidCachedRowGroup;
use crate::schema::out_of_bounds;
use crate::schema::project;
use crate::schema::reader_type;
use crate::schema::DataType;
use crate::schema::ParquetReaderSchema;
use crate::schema::Schema;
use crate::schema::SchemaRef;
use crate::selection::RowSelector;
use crate::text::append_decimal;
use crate::text::decimal;
use datafusion::datasource::physical_plan::parquet::ParquetAccessPlan;
use vstd::prelude::*;

verus! {

/// What is read of a row group.
pub enum RowGroupAccess {
    /// Nothing.
    Skip,
    /// All rows.
    Scan,
    /// The selected rows.
    Selection(Seq<RowSelector>),
}

/// The access plan of the crate `datafusion`.
#[verifier::external_type_specification]
#[verifier::external_body]
pub struct ExParquetAccessPlan(ParquetAccessPlan);

/// What an access plan says of each row group.
pub uninterp spec fn plan_accesses(plan: ParquetAccessPlan) -> Seq<RowGroupAccess>;

/// `ParquetAccessPlan::len` is the number of row groups.
pub assume_specification[ ParquetAccessPlan::len ](plan: &ParquetAccessPlan) -> (n: usize)
    ensures
        n == plan_accesses(*plan).len(),
;

/// `ParquetAccessPlan::new_all` scans all row groups.
pub assume_specification[ ParquetAccessPlan::new_all ](row_group_count: usize) -> (plan:
    ParquetAccessPlan)
    ensures
        plan_accesses(plan) == Seq::new(row_group_count as nat, |i: int| RowGroupAccess::Scan),
;

/// The derived `clone` of `ParquetAccessPlan` says the same.
pub assume_specification[ <ParquetAccessPlan as Clone>::clone ](plan: &ParquetAccessPlan) -> (copy:
    ParquetAccessPlan)
    ensures
        plan_accesses(copy) == plan_accesses(*plan),
;

/// The message for a plan that is for another number of row groups.
pub open spec fn plan_mismatch(file_name: Seq<char>, plan_len: nat, row_group_count: nat) -> Seq<
    char,
> {
    "Invalid ParquetAccessPlan for "@ + file_name + ". Specified "@ + decimal(plan_len)
        + " row groups, but file has "@ + decimal(row_group_count)
}

/// Where the row groups to be read start out: with the plan that came with the file, if one did, and
/// else with all row groups. A plan for another number of row groups is refused.
pub fn create_initial_plan(
    file_name: &str,
    access_plan: Option<&ParquetAccessPlan>,
    row_group_count: usize,
) -> (plan: Result<ParquetAccessPlan, String>)
    ensures
        plan is Err <==> access_plan is Some && plan_accesses(*access_plan->0).len()
            != row_group_count,
        plan is Err ==> plan->Err_0@ == plan_mismatch(
            file_name@,
            plan_accesses(*access_plan->0).len(),
            row_group_count as nat,
        ),
        plan is Ok ==> plan_accesses(plan->Ok_0) == match access_plan {
            Some(given) => plan_accesses(*given),
            None => Seq::new(row_group_count as nat, |i: int| RowGroupAccess::Scan),
        },
{
    if let Some(access_plan) = access_plan {
        let plan_len: usize = access_plan.len();
        if plan_len != row_group_count {
            let mut message = String::new();
            message.append("Invalid ParquetAccessPlan for ");
            message.append(file_name);
            message.append(". Specified ");
            append_decimal(&mut message, plan_len as u64);
            message.append(" row groups, but file has ");
            append_decimal(&mut message, row_group_count as u64);
            assert(message@ =~= plan_mismatch(file_name@, plan_len as nat, row_group_count as nat));
            return Err(message);
        }
        return Ok(access_plan.clone());
    }
    Ok(ParquetAccessPlan::new_all(row_group_count))
}

/// Whether the page index is of use: there is a filter for pages, of at least one predicate.
pub fn should_enable_page_index(page_filters: Option<usize>) -> (enable: bool)
    ensures
        enable == (page_filters is Some && page_filters->0 > 0),
{
    match page_filters {
        Some(n) => n > 0,
        None => false,
    }
}

/// A step in ruling out row groups and pages of a file, in the order in which they come.
#[derive(Clone, Copy, Debug, PartialEq, Eq, Structural)]
pub enum OpenStep {
    /// The metadata has been read, and nothing is ruled out yet.
    Start,
    /// Row groups outside of the part of the file that is to be read.
    PruneByRange,
    /// Row groups whose statistics rule out the predicate.
    PruneByStatistics,
    /// Row groups whose bloom filters rule out the predicate.
    PruneByBloomFilters,
    /// Pages whose index rules out the predicate.
    PruneByPageIndex,
    /// What is left is read.
    Read,
}

impl OpenStep {
    /// The place of a step in the order.
    pub open spec fn order(self) -> int {
        match self {
            OpenStep::Start => 0,
            OpenStep::PruneByRange => 1,
            OpenStep::PruneByStatistics => 2,
            OpenStep::PruneByBloomFilters => 3,
            OpenStep::PruneByPageIndex => 4,
            OpenStep::Read => 5,
        }
    }
}

/// How a file is to be opened.
pub struct LiquidParquetOpener {
    partition_index: usize,
    projection: Vec<usize>,
    batch_size: usize,
    limit: Option<usize>,
    has_pruning_predicate: bool,
    page_filters: Option<usize>,
    downstream_full_schema: SchemaRef,
    reorder_filters: bool,
}

impl LiquidParquetOpener {
    /// The partition that the file belongs to.
    pub closed spec fn partition(&self) -> usize {
        self.partition_index
    }

    /// The columns that are asked for.
    pub closed spec fn projected(&self) -> Seq<usize> {
        self.projection@
    }

    /// The number of rows in a batch.
    pub closed spec fn rows_per_batch(&self) -> usize {
        self.batch_size
    }

    /// The number of rows after which to stop, where there is one.
    pub closed spec fn row_limit(&self) -> Option<usize> {
        self.limit
    }

    /// Whether there is a predicate that can be held against the metadata.
    pub closed spec fn prunes(&self) -> bool {
        self.has_pruning_predicate
    }

    /// The number of predicates in the filter for pages, where there is one.
    pub closed spec fn page_predicates(&self) -> Option<usize> {
        self.page_filters
    }

    /// The columns of the table.
    pub closed spec fn table(&self) -> Schema {
        *self.downstream_full_schema
    }

    /// Whether predicates may be put in another order.
    pub closed spec fn reorders(&self) -> bool {
        self.reorder_filters
    }

    /// Whether the page index is of use.
    pub open spec fn uses_page_index(&self) -> bool {
        self.page_predicates() is Some && self.page_predicates()->0 > 0
    }

    /// An opener.
    pub fn new(
        partition_index: usize,
        projection: Vec<usize>,
        batch_size: usize,
        limit: Option<usize>,
        has_pruning_predicate: bool,
        page_filters: Option<usize>,
        downstream_full_schema: SchemaRef,
        reorder_filters: bool,
    ) -> (opener: Self)
        ensures
            opener.partition() == partition_index,
            opener.projected() == projection@,
            opener.rows_per_batch() == batch_size,
            opener.row_limit() == limit,
            opener.prunes() == has_pruning_predicate,
            opener.page_predicates() == page_filters,
            opener.table() == *downstream_full_schema,
            opener.reorders() == reorder_filters,
    {
        LiquidParquetOpener {
            partition_index,
            projection,
            batch_size,
            limit,
            has_pruning_predicate,
            page_filters,
            downstream_full_schema,
            reorder_filters,
        }
    }

    /// The partition that the file belongs to.
    pub fn partition_index(&self) -> (n: usize)
        ensures
            n == self.partition(),
    {
        self.partition_index
    }

    /// The number of rows in a batch.
    pub fn batch_size(&self) -> (n: usize)
        ensures
            n == self.rows_per_batch(),
    {
        self.batch_size
    }

    /// The number of rows after which to stop, where there is one.
    pub fn limit(&self) -> (n: Option<usize>)
        ensures
            n == self.row_limit(),
    {
        self.limit
    }

    /// The columns that are asked for; an error where one of them does not exist.
    pub fn projected_schema(&self) -> (schema: Result<Schema, String>)
        ensures
            schema is Ok <==> forall|i: int|
                0 <= i < self.projected().len() ==> (#[trigger] self.projected()[i])
                    < self.table().fields@.len(),
            schema is Ok ==> schema->Ok_0.fields@ == self.projected().map_values(
                |i: usize| self.table().fields@[i as int],
            ) && schema->Ok_0.metadata == self.table().metadata,
            schema is Err ==> exists|k: int|
                0 <= k < self.projected().len() && (#[trigger] self.projected()[k])
                    >= self.table().fields@.len() && (forall|i: int|
                    0 <= i < k ==> (#[trigger] self.projected()[i]) < self.table().fields@.len())
                    && schema->Err_0@ == out_of_bounds(
                    self.projected()[k] as nat,
                    self.table().fields@.len(),
                ),
    {
        let indices: &[usize] = self.projection.as_slice();
        assert(indices@ == self.projected());
        let schema = project(&self.downstream_full_schema, indices);
        assert(schema is Ok ==> forall|i: int|
            0 <= i < indices@.len() ==> (#[trigger] indices@[i]) < self.table().fields@.len());
        schema
    }

    /// Starts to open the file at a location: registers it in the cache, under the next number where
    /// it is new, and then picks the columns that are asked for. The file is registered even where
    /// one of the columns does not exist.
    pub fn begin_open(&self, cache: &mut LiquidCache, location: String) -> (schema: Result<
        Schema,
        String,
    >)
        requires
            old(cache).wf(),
        ensures
            final(cache).wf(),
            final(cache)@.contains_key(location@),
            old(cache)@.contains_key(location@) ==> final(cache)@ == old(cache)@
                && final(cache).next_file_id() == old(cache).next_file_id(),
            !old(cache)@.contains_key(location@) ==> {
                &&& final(cache)@ == old(cache)@.insert(location@, final(cache)@[location@])
                &&& final(cache)@[location@].id() == old(cache).next_file_id()
                &&& final(cache)@[location@]@ == Map::<u64, LiquidCachedRowGroup>::empty()
                &&& final(cache).next_file_id() == old(cache).next_file_id() + 1
            },
            final(cache).spec_config() == old(cache).spec_config(),
            final(cache).is_traced() == old(cache).is_traced(),
            final(cache).trace() == old(cache).trace(),
            schema is Err <==> exists|i: int|
                0 <= i < self.projected().len() && (#[trigger] self.projected()[i])
                    >= self.table().fields@.len(),
            schema is Ok ==> schema->Ok_0.fields@ == self.projected().map_values(
                |i: usize| self.table().fields@[i as int],
            ) && schema->Ok_0.metadata == self.table().metadata,
            schema is Err ==> exists|k: int|
                0 <= k < self.projected().len() && (#[trigger] self.projected()[k])
                    >= self.table().fields@.len() && (forall|i: int|
                    0 <= i < k ==> (#[trigger] self.projected()[i]) < self.table().fields@.len())
                    && schema->Err_0@ == out_of_bounds(
                    self.projected()[k] as nat,
                    self.table().fields@.len(),
                ),
    {
        let ghost path = location@;
        let ghost before = cache@;
        cache.register_or_get_file(location);
        assert(before.contains_key(path) ==> cache@ =~= before);
        self.projected_schema()
    }

    /// Whether the page index is loaded together with the metadata.
    pub fn enable_page_index(&self) -> (enable: bool)
        ensures
            enable == self.uses_page_index(),
            enable <==> self.page_predicates() is Some && self.page_predicates()->0 > 0,
    {
        should_enable_page_index(self.page_filters)
    }

    /// The columns of the file as they are read: text and bytes as views.
    pub fn physical_file_schema(&self, file_schema: &Schema) -> (schema: SchemaRef)
        ensures
            schema.fields@ == file_schema.retyped(|t: DataType| reader_type(t)),
            schema.metadata == file_schema.metadata,
    {
        ParquetReaderSchema::from(file_schema)
    }

    /// Whether a step other than the first and the last is taken. `has_range` says whether only part
    /// of the file is to be read, `is_empty` whether there are no row groups.
    pub open spec fn takes(&self, step: OpenStep, has_range: bool, is_empty: bool) -> bool {
        match step {
            OpenStep::Start => false,
            OpenStep::PruneByRange => has_range,
            OpenStep::PruneByStatistics => self.prunes(),
            OpenStep::PruneByBloomFilters => self.prunes() && !is_empty,
            OpenStep::PruneByPageIndex => self.uses_page_index() && !is_empty,
            OpenStep::Read => true,
        }
    }

    /// The step that comes after another: the first in the order that is taken.
    pub fn next_step(&self, step: OpenStep, has_range: bool, is_empty: bool) -> (next: OpenStep)
        requires
            step != OpenStep::Read,
        ensures
            step.order() < next.order(),
            self.takes(next, has_range, is_empty),
            forall|s: OpenStep|
                step.order() < s.order() < next.order() ==> !#[trigger] self.takes(
                    s,
                    has_range,
                    is_empty,
                ),
            // The range comes right after the start, where there is one and only there.
            next == OpenStep::PruneByRange <==> step == OpenStep::Start && has_range,
            // The statistics come right after that, where there is a predicate and only there.
            next == OpenStep::PruneByStatistics <==> self.prunes() && (step == OpenStep::PruneByRange
                || step == OpenStep::Start && !has_range),
            // The bloom filters come right after the statistics, while there is something to read.
            next == OpenStep::PruneByBloomFilters <==> self.prunes() && !is_empty && step
                == OpenStep::PruneByStatistics,
            // The page index is the last that is looked at, while there is something to read.
            next == OpenStep::PruneByPageIndex ==> !is_empty && self.page_predicates() is Some
                && self.page_predicates()->0 > 0,
            next == OpenStep::Read ==> step == OpenStep::PruneByPageIndex || is_empty
                || self.page_predicates() is None || self.page_predicates()->0 == 0,
    {
        let page_step: OpenStep = if self.enable_page_index() && !is_empty {
            OpenStep::PruneByPageIndex
        } else {
            OpenStep::Read
        };
        let next: OpenStep = match step {
            OpenStep::Start => if has_range {
                OpenStep::PruneByRange
            } else if self.has_pruning_predicate {
                OpenStep::PruneByStatistics
            } else {
                page_step
            },
            OpenStep::PruneByRange => if self.has_pruning_predicate {
                OpenStep::PruneByStatistics
            } else {
                page_step
            },
            OpenStep::PruneByStatistics => if self.has_pruning_predicate && !is_empty {
                OpenStep::PruneByBloomFilters
            } else {
                page_step
            },
            OpenStep::PruneByBloomFilters => page_step,
            _ => OpenStep::Read,
        };
        next
    }
}

/// A node of a physical plan, as far as the cache is concerned.
#[derive(Clone, Copy, Debug, PartialEq, Eq, Structural)]
pub enum PlanNode {
    /// A scan of Parquet files.
    ParquetScan,
    /// A scan of anything else.
    OtherScan,
    /// Not a scan.
    Operator,
}

impl PlanNode {
    /// Whether the node is replaced by one that reads through the cache.
    pub fn is_rewritten(&self) -> (rewritten: bool)
        ensures
            rewritten == (*self == PlanNode::ParquetScan),
    {
        match self {
            PlanNode::ParquetScan => true,
            _ => false,
        }
    }
}

/// Nothing but the range and the statistics is held against a file without row groups.
pub proof fn empty_plan_ends_pruning(opener: &LiquidParquetOpener, has_range: bool)
    ensures
        !opener.takes(OpenStep::PruneByBloomFilters, has_range, true),
        !opener.takes(OpenStep::PruneByPageIndex, has_range, true),
{
}

/// Whether `next` is the step after `step`: it comes later, it is taken, and none between the two is.
pub open spec fn follows(
    opener: &LiquidParquetOpener,
    step: OpenStep,
    next: OpenStep,
    has_range: bool,
    is_empty: bool,
) -> bool {
    &&& step.order() < next.order()
    &&& opener.takes(next, has_range, is_empty)
    &&& forall|s: OpenStep|
        step.order() < s.order() < next.order() ==> !#[trigger] opener.takes(s, has_range, is_empty)
}

/// Where only part of the file is to be read, row groups outside of it are ruled out first, whatever
/// predicates there are; where all of it is to be read, none are.
pub proof fn range_comes_first(
    opener: &LiquidParquetOpener,
    next: OpenStep,
    has_range: bool,
    is_empty: bool,
)
    requires
        follows(opener, OpenStep::Start, next, has_range, is_empty),
    ensures
        has_range <==> next == OpenStep::PruneByRange,
{
    assert(opener.takes(OpenStep::PruneByRange, has_range, is_empty) == has_range);
    assert(OpenStep::PruneByRange.order() == 1);
}

/// Whether there is a range makes no difference to any step but the first.
pub proof fn range_touches_no_later_step(
    opener: &LiquidParquetOpener,
    step: OpenStep,
    a: OpenStep,
    b: OpenStep,
    is_empty: bool,
)
    requires
        step != OpenStep::Start,
        follows(opener, step, a, true, is_empty),
        follows(opener, step, b, false, is_empty),
    ensures
        a == b,
{
    assert(opener.takes(a, true, is_empty) == opener.takes(a, false, is_empty));
    assert(opener.takes(b, true, is_empty) == opener.takes(b, false, is_empty));
    assert(a.order() == b.order());
}

/// From the start to reading, each way of ruling out is tried at most once, in one order: the range
/// exactly if there is one, the statistics exactly if there is a predicate, the bloom filters
/// exactly if besides something is left to read, the page index exactly if it is of use and
/// something is left to read. Reading comes last in every case.
pub proof fn each_way_of_pruning_is_tried_exactly_where_it_applies(
    opener: &LiquidParquetOpener,
    steps: Seq<OpenStep>,
    has_range: bool,
    is_empty: bool,
)
    requires
        steps.len() > 1,
        steps[0] == OpenStep::Start,
        steps.last() == OpenStep::Read,
        forall|t: int|
            #![trigger steps[t]]
            0 <= t < steps.len() - 1 ==> follows(
                opener,
                steps[t],
                steps[t + 1],
                has_range,
                is_empty,
            ),
    ensures
        steps.contains(OpenStep::PruneByRange) <==> has_range,
        steps.contains(OpenStep::PruneByStatistics) <==> opener.prunes(),
        steps.contains(OpenStep::PruneByBloomFilters) <==> opener.prunes() && !is_empty,
        steps.contains(OpenStep::PruneByPageIndex) <==> !is_empty && opener.page_predicates() is Some
            && opener.page_predicates()->0 > 0,
        forall|i: int, j: int|
            0 <= i < j < steps.len() ==> (#[trigger] steps[i]).order() < (
            #[trigger] steps[j]).order(),
{
    let n = steps.len() - 1;
    lemma_steps_rise(opener, steps, has_range, is_empty, n);
    lemma_step_is_taken(opener, steps, has_range, is_empty, n, OpenStep::PruneByRange);
    lemma_step_is_taken(opener, steps, has_range, is_empty, n, OpenStep::PruneByStatistics);
    lemma_step_is_taken(opener, steps, has_range, is_empty, n, OpenStep::PruneByBloomFilters);
    lemma_step_is_taken(opener, steps, has_range, is_empty, n, OpenStep::PruneByPageIndex);
    assert(steps.take(n + 1) =~= steps);
}

proof fn lemma_steps_rise(
    opener: &LiquidParquetOpener,
    steps: Seq<OpenStep>,
    has_range: bool,
    is_empty: bool,
    n: int,
)
    requires
        0 <= n < steps.len(),
        forall|t: int|
            #![trigger steps[t]]
            0 <= t < steps.len() - 1 ==> follows(
                opener,
                steps[t],
                steps[t + 1],
                has_range,
                is_empty,
            ),
    ensures
        forall|i: int, j: int|
            0 <= i < j <= n ==> (#[trigger] steps[i]).order() < (#[trigger] steps[j]).order(),
    decreases n,
{
    if n > 0 {
        lemma_steps_rise(opener, steps, has_range, is_empty, n - 1);
        let last = steps[n - 1];
        assert(follows(opener, last, steps[n], has_range, is_empty));
    }
}

proof fn lemma_step_is_taken(
    opener: &LiquidParquetOpener,
    steps: Seq<OpenStep>,
    has_range: bool,
    is_empty: bool,
    n: int,
    step: OpenStep,
)
    requires
        0 <= n < steps.len(),
        steps[0] == OpenStep::Start,
        step.order() > 0,
        forall|t: int|
            #![trigger steps[t]]
            0 <= t < steps.len() - 1 ==> follows(
                opener,
                steps[t],
                steps[t + 1],
                has_range,
                is_empty,
            ),
    ensures
        steps.take(n + 1).contains(step) <==> step.order() <= steps[n].order() && opener.takes(
            step,
            has_range,
            is_empty,
        ),
    decreases n,
{
    let now = steps.take(n + 1);
    if n == 0 {
        assert(now =~= seq![OpenStep::Start]);
    } else {
        let before = steps.take(n);
        lemma_step_is_taken(opener, steps, has_range, is_empty, n - 1, step);
        let last = steps[n - 1];
        assert(follows(opener, last, steps[n], has_range, is_empty));
        assert(now =~= before.push(steps[n]));
        assert(now.contains(step) <==> before.contains(step) || steps[n] == step) by {
            if before.contains(step) {
                let i = choose|i: int| 0 <= i < before.len() && before[i] == step;
                assert(now[i] == step);
            }
            if steps[n] == step {
                assert(now[n] == step);
            }
            if now.contains(step) && steps[n] != step {
                let i = choose|i: int| 0 <= i < now.len() && now[i] == step;
                assert(before[i] == step);
            }
        }
        if steps[n].order() == step.order() {
            assert(steps[n] == step);
        }
    }
}

/// The message names the file, the row groups that the plan is for and those of the file.
pub proof fn mismatch_names_file_and_row_groups(file_name: Seq<char>, plan_len: nat, count: nat)
    ensures
        plan_mismatch(file_name, plan_len, count) == "Invalid ParquetAccessPlan for "@ + file_name
            + ". Specified "@ + decimal(plan_len) + " row groups, but file has "@ + decimal(count),
{
}

} // verus!
