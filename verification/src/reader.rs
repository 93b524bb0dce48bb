//! Reading a row group batch by batch: which rows the predicates keep, and what is read of them.

use crate::arrays::selected;
use crate::bits::and_then_bits;
use crate::bits::array_bits;
use crate::bits::array_validity;
use crate::bits::array_values;
use crate::bits::boolean_buffer_and_then;
use crate::bits::buffer_bits;
use crate::bits::count_true;
use crate::bits::lemma_positions;
use crate::bits::lemma_rank_bounds;
use crate::bits::lemma_rank_full;
use crate::bits::lemma_rank_in_range;
use crate::bits::lemma_rank_of_ones;
use crate::bits::null_count;
use crate::bits::prep_null_mask_filter;
use crate::bits::rank;
use crate::bits::rank_counts_true_values;
use crate::ids::BatchID;
use crate::schema::DataType;
use crate::schema::Field;
use crate::schema::Schema;
use crate::schema::SchemaRef;
use crate::selection::are_cut;
use crate::selection::canonical_selectors;
use crate::selection::is_canonical;
use crate::selection::no_run_is_empty;
use crate::selection::row_selector_to_boolean_buffer;
use crate::selection::rows;
use crate::selection::selectors_of_buffer;
use crate::selection::selects_any;
use crate::selection::take_next_batch;
use crate::selection::RowSelector;
use arrow::array::BooleanArray;
use arrow::buffer::BooleanBuffer;
use std::collections::VecDeque;
use std::sync::Arc;
use vstd::prelude::*;

verus! {

/// How much of the reader's cleverness is in use, the least first.
#[derive(Clone, Copy, Debug, PartialEq, Eq, Structural)]
pub enum AblationStudyMode {
    /// Arrays are decoded whole, then filtered.
    FullDecoding,
    /// Only selected rows are decoded.
    SelectiveDecoding,
    /// Besides, each predicate sees only the rows that the ones before it kept.
    SelectiveWithLateMaterialization,
    /// Besides, predicates are evaluated on encoded data where that can be done.
    EvaluateOnEncodedData,
    /// Besides, predicates are evaluated on partly encoded data where that can be done.
    EvaluateOnPartialEncodedData,
}

impl AblationStudyMode {
    /// Whether each predicate sees only the rows that the ones before it kept.
    pub open spec fn is_late(self) -> bool {
        self != AblationStudyMode::FullDecoding && self != AblationStudyMode::SelectiveDecoding
    }

    /// Whether each predicate sees only the rows that the ones before it kept.
    pub fn late_materialization(&self) -> (late: bool)
        ensures
            late == self.is_late(),
    {
        match self {
            AblationStudyMode::FullDecoding | AblationStudyMode::SelectiveDecoding => false,
            _ => true,
        }
    }
}

/// The values of an array of booleans with `false` in place of nulls.
pub open spec fn nulls_as_false(array: BooleanArray) -> Seq<bool> {
    match array_validity(array) {
        None => array_bits(array),
        Some(valid) => Seq::new(
            array_bits(array).len(),
            |i: int| array_bits(array)[i] && valid[i],
        ),
    }
}

/// Whether an array that keeps a record of nulls has a null.
pub open spec fn has_null_if_recorded(array: BooleanArray) -> bool {
    match array_validity(array) {
        None => true,
        Some(valid) => count_true(valid) < valid.len(),
    }
}

/// The rows for which a predicate is true; where it is null, it is not.
pub fn rows_where_true(mask: BooleanArray) -> (buffer: BooleanBuffer)
    ensures
        buffer_bits(buffer) == nulls_as_false(mask),
        buffer_bits(buffer).len() == array_bits(mask).len(),
        forall|i: int|
            0 <= i < array_bits(mask).len() ==> (#[trigger] buffer_bits(buffer)[i]
                <==> array_bits(mask)[i] && (array_validity(mask) is None || array_validity(
                mask,
            )->0[i])),
{
    if null_count(&mask) == 0 {
        proof {
            if let Some(valid) = array_validity(mask) {
                assert forall|i: int| 0 <= i < valid.len() implies #[trigger] valid[i] by {
                    lemma_rank_full(valid, i);
                }
            }
            assert(nulls_as_false(mask) =~= array_bits(mask));
        }
        array_values(mask)
    } else {
        array_values(prep_null_mask_filter(&mask))
    }
}

/// What is to be done next for the predicates of a batch.
#[derive(Clone, Copy, Debug, PartialEq, Eq, Structural)]
pub enum FilterAction {
    /// No row is left: let the reader of the predicate skip this number of rows.
    SkipReader {
        /// The predicate.
        predicate: usize,
        /// The number of rows.
        rows: usize,
    },
    /// Ask the cache for the value of the predicate on the selected rows.
    AskCache {
        /// The predicate.
        predicate: usize,
    },
    /// All predicates are done.
    Done,
}

/// The predicates of one batch on their way through the batch, one after the other.
pub struct PredicateFilter {
    selection_size: usize,
    input_selection: BooleanBuffer,
    final_selection: BooleanBuffer,
    next: usize,
    predicates: usize,
    late: bool,
}

impl PredicateFilter {
    /// The number of rows of the batch.
    pub closed spec fn size(&self) -> usize {
        self.selection_size
    }

    /// The rows that the next predicate sees.
    pub closed spec fn input(&self) -> Seq<bool> {
        buffer_bits(self.input_selection)
    }

    /// The rows that the predicates so far keep.
    pub closed spec fn kept(&self) -> Seq<bool> {
        if self.late {
            buffer_bits(self.input_selection)
        } else {
            buffer_bits(self.final_selection)
        }
    }

    /// The number of predicates that are done.
    pub closed spec fn done(&self) -> usize {
        self.next
    }

    /// The number of predicates.
    pub closed spec fn total(&self) -> usize {
        self.predicates
    }

    /// Whether each predicate sees only the rows that the ones before it kept.
    pub closed spec fn is_late(&self) -> bool {
        self.late
    }

    /// Whether the records agree with each other.
    pub closed spec fn wf(&self) -> bool {
        &&& buffer_bits(self.input_selection).len() == self.selection_size
        &&& buffer_bits(self.final_selection).len() == self.selection_size
        &&& self.next <= self.predicates
    }

    /// What holds of every batch: all selections have the batch's size, and where predicates see
    /// what is kept, the two are the same.
    pub proof fn lemma_wf(&self)
        requires
            self.wf(),
        ensures
            self.input().len() == self.size(),
            self.kept().len() == self.size(),
            self.done() <= self.total(),
            self.is_late() ==> self.input() == self.kept(),
    {
    }

    /// The predicates before the first of them has been looked at.
    pub fn new(selection: &[RowSelector], predicates: usize, mode: AblationStudyMode) -> (filter:
        Self)
        requires
            rows(selection@).len() <= usize::MAX,
        ensures
            filter.wf(),
            filter.size() == rows(selection@).len(),
            filter.input() == rows(selection@),
            filter.kept() == rows(selection@),
            filter.done() == 0,
            filter.total() == predicates,
            filter.is_late() == mode.is_late(),
    {
        let input_selection = row_selector_to_boolean_buffer(selection);
        let final_selection = input_selection.clone();
        let selection_size: usize = input_selection.len();
        PredicateFilter {
            selection_size,
            input_selection,
            final_selection,
            next: 0,
            predicates,
            late: mode.late_materialization(),
        }
    }

    /// What is to be done next.
    pub fn next_action(&self) -> (action: FilterAction)
        requires
            self.wf(),
        ensures
            action == if self.done() == self.total() {
                FilterAction::Done
            } else if count_true(self.input()) == 0 {
                FilterAction::SkipReader { predicate: self.done(), rows: self.size() }
            } else {
                FilterAction::AskCache { predicate: self.done() }
            },
    {
        if self.next == self.predicates {
            FilterAction::Done
        } else if self.input_selection.count_set_bits() == 0 {
            FilterAction::SkipReader { predicate: self.next, rows: self.selection_size }
        } else {
            FilterAction::AskCache { predicate: self.next }
        }
    }

    /// The rows that the next predicate sees.
    pub fn input_selection(&self) -> (selection: &BooleanBuffer)
        ensures
            buffer_bits(*selection) == self.input(),
    {
        &self.input_selection
    }

    /// The reader of a predicate that sees no row has skipped the batch.
    pub fn skipped(&mut self)
        requires
            old(self).wf(),
            old(self).done() < old(self).total(),
            count_true(old(self).input()) == 0,
        ensures
            final(self).wf(),
            final(self).size() == old(self).size(),
            final(self).input() == old(self).input(),
            final(self).kept() == old(self).kept(),
            final(self).done() == old(self).done() + 1,
            final(self).total() == old(self).total(),
            final(self).is_late() == old(self).is_late(),
    {
        self.next += 1;
    }

    /// Narrows the rows by the value of the next predicate on them.
    fn narrow(&mut self, mask: &BooleanBuffer)
        requires
            old(self).wf(),
            old(self).done() < old(self).total(),
            count_true(old(self).kept()) == buffer_bits(*mask).len(),
        ensures
            final(self).wf(),
            final(self).size() == old(self).size(),
            final(self).kept() == and_then_bits(old(self).kept(), buffer_bits(*mask)),
            final(self).input() == if old(self).is_late() {
                final(self).kept()
            } else {
                old(self).input()
            },
            final(self).done() == old(self).done() + 1,
            final(self).total() == old(self).total(),
            final(self).is_late() == old(self).is_late(),
    {
        if self.late {
            self.input_selection = boolean_buffer_and_then(&self.input_selection, mask);
        } else {
            self.final_selection = boolean_buffer_and_then(&self.final_selection, mask);
        }
        self.next += 1;
    }

    /// The cache knew the value of the next predicate on the rows it sees. The result is the number
    /// of rows that the predicate's reader has to skip.
    pub fn cache_answered(&mut self, mask: &BooleanBuffer) -> (rows: usize)
        requires
            old(self).wf(),
            old(self).done() < old(self).total(),
            count_true(old(self).kept()) == buffer_bits(*mask).len(),
        ensures
            final(self).wf(),
            rows == old(self).size(),
            final(self).size() == old(self).size(),
            final(self).kept() == and_then_bits(old(self).kept(), buffer_bits(*mask)),
            final(self).input() == if old(self).is_late() {
                final(self).kept()
            } else {
                old(self).input()
            },
            final(self).done() == old(self).done() + 1,
            final(self).total() == old(self).total(),
            final(self).is_late() == old(self).is_late(),
    {
        self.narrow(mask);
        self.selection_size
    }

    /// The rows to be read from the file for a predicate whose value the cache does not know.
    pub fn rows_to_read(&self) -> (selection: Vec<RowSelector>)
        ensures
            rows(selection@) == self.input(),
            is_canonical(selection@),
    {
        selectors_of_buffer(&self.input_selection)
    }

    /// The next predicate was evaluated on the rows read from the file.
    pub fn predicate_evaluated(&mut self, mask: BooleanArray)
        requires
            old(self).wf(),
            old(self).done() < old(self).total(),
            has_null_if_recorded(mask),
            count_true(old(self).kept()) == nulls_as_false(mask).len(),
        ensures
            final(self).wf(),
            final(self).size() == old(self).size(),
            final(self).kept() == and_then_bits(old(self).kept(), nulls_as_false(mask)),
            final(self).input() == if old(self).is_late() {
                final(self).kept()
            } else {
                old(self).input()
            },
            final(self).done() == old(self).done() + 1,
            final(self).total() == old(self).total(),
            final(self).is_late() == old(self).is_late(),
    {
        let buffer = rows_where_true(mask);
        self.narrow(&buffer);
    }

    /// The rows that all predicates keep.
    pub fn finish(self) -> (selection: Vec<RowSelector>)
        requires
            self.wf(),
            self.done() == self.total(),
        ensures
            rows(selection@) == self.kept(),
            is_canonical(selection@),
    {
        if self.late {
            selectors_of_buffer(&self.input_selection)
        } else {
            selectors_of_buffer(&self.final_selection)
        }
    }
}

/// What is to be read of a batch after filtering.
#[derive(Clone, Copy, Debug, PartialEq, Eq, Structural)]
pub enum ReadAction {
    /// No row is left: let the reader skip this number of rows.
    Skip(usize),
    /// Let the reader skip and read the selected runs one after the other, and hand out what it
    /// read.
    Read,
}

/// How the rows of a batch are filtered.
pub enum BatchFilter {
    /// There are no predicates: these rows are read.
    Unfiltered(Vec<RowSelector>),
    /// The predicates decide.
    Predicates(PredicateFilter),
}

/// Reads the selected rows of a row group batch by batch.
pub struct LiquidBatchReader {
    current_batch_id: BatchID,
    selection: VecDeque<RowSelector>,
    schema: SchemaRef,
    batch_size: usize,
    row_filter: Option<usize>,
    mode: AblationStudyMode,
}

impl LiquidBatchReader {
    /// The number of the batch that is read next.
    pub closed spec fn batch(&self) -> BatchID {
        self.current_batch_id
    }

    /// The rows that are left.
    pub closed spec fn left(&self) -> Seq<RowSelector> {
        self.selection@
    }

    /// The columns that are handed out.
    pub closed spec fn spec_schema(&self) -> Schema {
        *self.schema
    }

    /// The number of rows in a batch.
    pub closed spec fn rows_per_batch(&self) -> usize {
        self.batch_size
    }

    /// The number of predicates, where there is a filter.
    pub closed spec fn filter(&self) -> Option<usize> {
        self.row_filter
    }

    /// How much of the reader's cleverness is in use.
    pub closed spec fn ablation(&self) -> AblationStudyMode {
        self.mode
    }

    /// A reader at the first batch of a row group. `data_type` is the type of the rows as the
    /// array reader hands them out, `row_filter` the number of predicates, where there is a filter.
    pub fn new(
        batch_size: usize,
        data_type: &DataType,
        selection: VecDeque<RowSelector>,
        row_filter: Option<usize>,
        mode: AblationStudyMode,
    ) -> (reader: Self)
        requires
            data_type is Struct,
        ensures
            reader.batch() == (BatchID { v: 0 }),
            reader.left() == selection@,
            reader.spec_schema().fields@ == data_type->Struct_0@,
            reader.spec_schema().metadata@.len() == 0,
            reader.rows_per_batch() == batch_size,
            reader.filter() == row_filter,
            reader.ablation() == mode,
    {
        let mut fields: Vec<Arc<Field>> = Vec::new();
        if let DataType::Struct(children) = data_type {
            let n: usize = children.len();
            let mut i: usize = 0;
            while i < n
                invariant
                    i <= n,
                    n == children@.len(),
                    fields@ == children@.take(i as int),
                decreases n - i,
            {
                fields.push(children[i].clone());
                i += 1;
                assert(fields@ =~= children@.take(i as int));
            }
            assert(fields@ =~= children@);
        }
        let schema = Schema { fields, metadata: Arc::new(Vec::new()) };
        LiquidBatchReader {
            current_batch_id: BatchID::from_raw(0),
            selection,
            schema: Arc::new(schema),
            batch_size,
            row_filter,
            mode,
        }
    }

    /// Hands out the filter, which is then no longer applied.
    pub fn take_filter(&mut self) -> (filter: Option<usize>)
        ensures
            filter == old(self).filter(),
            final(self).filter() is None,
            final(self).batch() == old(self).batch(),
            final(self).left() == old(self).left(),
            final(self).spec_schema() == old(self).spec_schema(),
            final(self).rows_per_batch() == old(self).rows_per_batch(),
            final(self).ablation() == old(self).ablation(),
    {
        let filter: Option<usize> = self.row_filter;
        self.row_filter = None;
        filter
    }

    /// The columns that are handed out.
    pub fn schema(&self) -> (schema: SchemaRef)
        ensures
            *schema == self.spec_schema(),
    {
        self.schema.clone()
    }

    /// The number of the batch that is read next.
    pub fn current_batch_id(&self) -> (id: BatchID)
        ensures
            id == self.batch(),
    {
        self.current_batch_id
    }

    /// Takes the next batch; nothing where all rows have been taken.
    pub fn next_batch(&mut self) -> (selection: Option<Vec<RowSelector>>)
        requires
            old(self).rows_per_batch() > 0,
        ensures
            final(self).batch() == old(self).batch(),
            final(self).spec_schema() == old(self).spec_schema(),
            final(self).rows_per_batch() == old(self).rows_per_batch(),
            final(self).filter() == old(self).filter(),
            final(self).ablation() == old(self).ablation(),
            selection is None <==> old(self).left().len() == 0,
            selection is None ==> final(self).left() == old(self).left(),
            selection is Some ==> {
                let all = rows(old(self).left());
                let n = if all.len() < old(self).rows_per_batch() {
                    all.len() as int
                } else {
                    old(self).rows_per_batch() as int
                };
                &&& rows(selection->0@) == all.take(n)
                &&& rows(final(self).left()) == all.skip(n)
                &&& no_run_is_empty(old(self).left()) ==> no_run_is_empty(selection->0@)
                    && no_run_is_empty(final(self).left())
                &&& are_cut(old(self).left(), selection->0@, final(self).left())
                &&& is_canonical(old(self).left()) ==> is_canonical(selection->0@) && is_canonical(
                    final(self).left(),
                )
            },
    {
        take_next_batch(&mut self.selection, self.batch_size)
    }

    /// Starts filtering a batch.
    pub fn build_predicate_filter(&self, selection: &Vec<RowSelector>) -> (filter: BatchFilter)
        requires
            rows(selection@).len() <= usize::MAX,
        ensures
            self.filter() is None <==> filter is Unfiltered,
            filter is Unfiltered ==> rows(filter->Unfiltered_0@) == rows(selection@)
                && is_canonical(filter->Unfiltered_0@),
            filter is Predicates ==> {
                let f = filter->Predicates_0;
                &&& f.wf()
                &&& f.size() == rows(selection@).len()
                &&& f.input() == rows(selection@)
                &&& f.kept() == rows(selection@)
                &&& f.done() == 0
                &&& f.total() == self.filter()->0
                &&& f.is_late() == self.ablation().is_late()
            },
    {
        match self.row_filter {
            None => BatchFilter::Unfiltered(canonical_selectors(selection)),
            Some(predicates) => BatchFilter::Predicates(
                PredicateFilter::new(selection.as_slice(), predicates, self.mode),
            ),
        }
    }

    /// Moves on to the next batch, and says what is to be read of the present one.
    pub fn read_selection(&mut self, selection: &Vec<RowSelector>) -> (action: ReadAction)
        requires
            old(self).batch().v < u16::MAX,
        ensures
            final(self).batch().v == old(self).batch().v + 1,
            final(self).left() == old(self).left(),
            final(self).spec_schema() == old(self).spec_schema(),
            final(self).rows_per_batch() == old(self).rows_per_batch(),
            final(self).filter() == old(self).filter(),
            final(self).ablation() == old(self).ablation(),
            action == if exists|i: int|
                0 <= i < selection@.len() && !(#[trigger] selection@[i]).skip {
                ReadAction::Read
            } else {
                ReadAction::Skip(old(self).rows_per_batch())
            },
    {
        self.current_batch_id.inc();
        if selects_any(selection.as_slice()) {
            ReadAction::Read
        } else {
            ReadAction::Skip(self.batch_size)
        }
    }
}

/// The rows that predicates keep one after the other, where each is given by its value on all rows
/// and evaluated on the rows that the ones before it kept.
pub open spec fn filtered(selection: Seq<bool>, predicates: Seq<Seq<bool>>) -> Seq<bool>
    decreases predicates.len(),
{
    if predicates.len() == 0 {
        selection
    } else {
        let kept = filtered(selection, predicates.drop_last());
        and_then_bits(kept, selected(predicates.last(), kept))
    }
}

/// Narrowing by the value of a predicate on the selected rows keeps the rows for which it holds.
pub proof fn narrowing_by_predicate(selection: Seq<bool>, predicate: Seq<bool>, i: int)
    requires
        predicate.len() == selection.len(),
        0 <= i < selection.len(),
    ensures
        count_true(selection) == selected(predicate, selection).len(),
        and_then_bits(selection, selected(predicate, selection))[i] == (selection[i]
            && predicate[i]),
{
    lemma_positions(selection, selection.len() as int);
    if selection[i] {
        lemma_rank_in_range(selection, i);
    }
}

/// Predicates evaluated one after the other, each on the rows that are left, keep the selected rows
/// for which all of them hold.
pub proof fn filtering_is_conjunction(selection: Seq<bool>, predicates: Seq<Seq<bool>>, i: int)
    requires
        forall|k: int|
            0 <= k < predicates.len() ==> (#[trigger] predicates[k]).len() == selection.len(),
        0 <= i < selection.len(),
    ensures
        filtered(selection, predicates).len() == selection.len(),
        filtered(selection, predicates)[i] <==> selection[i] && forall|k: int|
            0 <= k < predicates.len() ==> (#[trigger] predicates[k])[i],
    decreases predicates.len(),
{
    if predicates.len() > 0 {
        let init = predicates.drop_last();
        assert forall|k: int| 0 <= k < init.len() implies (#[trigger] init[k]).len()
            == selection.len() by {
            assert(init[k] == predicates[k]);
        }
        filtering_is_conjunction(selection, init, i);
        let kept = filtered(selection, init);
        assert(predicates[predicates.len() - 1].len() == selection.len());
        narrowing_by_predicate(kept, predicates.last(), i);
        assert((forall|k: int| 0 <= k < predicates.len() ==> (#[trigger] predicates[k])[i]) <==> (
        forall|k: int| 0 <= k < init.len() ==> (#[trigger] init[k])[i]) && predicates.last()[i]) by {
            assert forall|k: int| 0 <= k < init.len() implies init[k] == #[trigger] predicates[k] by {}
            if forall|k: int| 0 <= k < predicates.len() ==> (#[trigger] predicates[k])[i] {
                assert(predicates[predicates.len() - 1][i]);
                assert forall|k: int| 0 <= k < init.len() implies (#[trigger] init[k])[i] by {
                    assert(predicates[k][i]);
                }
            }
            if (forall|k: int| 0 <= k < init.len() ==> (#[trigger] init[k])[i])
                && predicates.last()[i] {
                assert forall|k: int| 0 <= k < predicates.len() implies (
                #[trigger] predicates[k])[i] by {
                    if k < init.len() {
                        assert(init[k][i]);
                    }
                }
            }
        }
    }
}

/// A predicate that sees no row keeps none, so that it need not be evaluated.
pub proof fn nothing_is_kept_of_nothing(selection: Seq<bool>, predicate: Seq<bool>)
    requires
        predicate.len() == selection.len(),
        count_true(selection) == 0,
    ensures
        and_then_bits(selection, selected(predicate, selection)) == selection,
{
    assert forall|i: int| 0 <= i < selection.len() implies !#[trigger] selection[i] by {
        if selection[i] {
            lemma_rank_in_range(selection, i);
        }
    }
    assert(and_then_bits(selection, selected(predicate, selection)) =~= selection);
}

/// Whether filters are the states of one batch between its predicates, where each predicate is given
/// by its value on all rows: it was evaluated on the rows kept so far, or, where none was kept,
/// skipped.
pub open spec fn is_run(states: Seq<PredicateFilter>, predicates: Seq<Seq<bool>>) -> bool {
    &&& states.len() == predicates.len() + 1
    &&& forall|k: int|
        #![trigger predicates[k]]
        0 <= k < predicates.len() ==> {
            let before = states[k].kept();
            let after = states[k + 1].kept();
            ||| after == and_then_bits(before, selected(predicates[k], before))
            ||| count_true(before) == 0 && after == before
        }
}

proof fn lemma_run_is_filtering(states: Seq<PredicateFilter>, predicates: Seq<Seq<bool>>, k: int)
    requires
        is_run(states, predicates),
        forall|j: int|
            0 <= j < predicates.len() ==> (#[trigger] predicates[j]).len() == states[0].kept().len(),
        0 <= k <= predicates.len(),
    ensures
        states[k].kept() == filtered(states[0].kept(), predicates.take(k)),
        states[k].kept().len() == states[0].kept().len(),
    decreases k,
{
    if k > 0 {
        lemma_run_is_filtering(states, predicates, k - 1);
        assert(predicates.take(k).drop_last() =~= predicates.take(k - 1));
        assert(predicates.take(k).last() == predicates[k - 1]);
        let before = states[k - 1].kept();
        if count_true(before) == 0 {
            nothing_is_kept_of_nothing(before, predicates[k - 1]);
        }
    }
}

/// After all predicates exactly those rows of the batch are kept for which all of them hold.
pub proof fn run_keeps_conjunction(
    states: Seq<PredicateFilter>,
    predicates: Seq<Seq<bool>>,
    i: int,
)
    requires
        is_run(states, predicates),
        forall|j: int|
            0 <= j < predicates.len() ==> (#[trigger] predicates[j]).len() == states[0].kept().len(),
        0 <= i < states[0].kept().len(),
    ensures
        states.last().kept().len() == states[0].kept().len(),
        states.last().kept()[i] <==> states[0].kept()[i] && forall|k: int|
            0 <= k < predicates.len() ==> (#[trigger] predicates[k])[i],
{
    let n = predicates.len() as int;
    lemma_run_is_filtering(states, predicates, n);
    assert(predicates.take(n) =~= predicates);
    filtering_is_conjunction(states[0].kept(), predicates, i);
}

/// Row by row, whatever the other rows: a predicate selects a row exactly if its value there is true
/// and not null.
pub proof fn predicate_selects_where_true_and_not_null(mask: BooleanArray, i: int)
    requires
        0 <= i < array_bits(mask).len(),
    ensures
        nulls_as_false(mask).len() == array_bits(mask).len(),
        array_validity(mask) is None ==> nulls_as_false(mask)[i] == array_bits(mask)[i],
        array_validity(mask) is Some && !array_validity(mask)->0[i] ==> !nulls_as_false(mask)[i],
        array_validity(mask) is Some && array_validity(mask)->0[i] ==> nulls_as_false(mask)[i]
            == array_bits(mask)[i],
{
}

/// What becomes of a row depends on the value of the predicate on that row alone.
pub proof fn rows_are_selected_independently(a: BooleanArray, b: BooleanArray, i: int)
    requires
        0 <= i < array_bits(a).len(),
        0 <= i < array_bits(b).len(),
        array_bits(a)[i] == array_bits(b)[i],
        (array_validity(a) is None || array_validity(a)->0[i]) == (array_validity(b) is None
            || array_validity(b)->0[i]),
    ensures
        nulls_as_false(a)[i] == nulls_as_false(b)[i],
{
}

/// A row stays after a predicate exactly if it was there before and the value of the predicate on
/// it, which stands at the place of the row among those that were there, is true and not null.
pub proof fn evaluated_predicate_keeps_its_rows(kept: Seq<bool>, mask: BooleanArray, i: int)
    requires
        count_true(kept) == array_bits(mask).len(),
        0 <= i < kept.len(),
    ensures
        and_then_bits(kept, nulls_as_false(mask)).len() == kept.len(),
        and_then_bits(kept, nulls_as_false(mask))[i] <==> kept[i] && {
            let place = kept.take(i).filter(|b: bool| b).len() as int;
            array_bits(mask)[place] && (array_validity(mask) is None || array_validity(
                mask,
            )->0[place])
        },
{
    rank_counts_true_values(kept, i);
    if kept[i] {
        lemma_rank_in_range(kept, i);
        predicate_selects_where_true_and_not_null(mask, rank(kept, i) as int);
    }
}

/// An array that keeps a record of nulls has one exactly if some value is not valid.
pub proof fn recorded_nulls_are_values_that_are_not_valid(mask: BooleanArray)
    ensures
        has_null_if_recorded(mask) <==> array_validity(mask) is None || exists|i: int|
            0 <= i < array_validity(mask)->0.len() && !#[trigger] array_validity(mask)->0[i],
{
    if let Some(valid) = array_validity(mask) {
        lemma_rank_bounds(valid, valid.len() as int);
        if count_true(valid) == valid.len() {
            assert forall|i: int| 0 <= i < valid.len() implies #[trigger] valid[i] by {
                lemma_rank_full(valid, i);
            }
        } else if forall|i: int| 0 <= i < valid.len() ==> valid[i] {
            lemma_rank_of_ones(valid, valid.len() as int);
        }
    }
}

/// Each predicate sees only what the ones before it kept in all modes but the two least clever ones.
pub proof fn late_modes(mode: AblationStudyMode)
    ensures
        mode == AblationStudyMode::FullDecoding ==> !mode.is_late(),
        mode == AblationStudyMode::SelectiveDecoding ==> !mode.is_late(),
        mode == AblationStudyMode::SelectiveWithLateMaterialization ==> mode.is_late(),
        mode == AblationStudyMode::EvaluateOnEncodedData ==> mode.is_late(),
        mode == AblationStudyMode::EvaluateOnPartialEncodedData ==> mode.is_late(),
{
}

} // verus!
