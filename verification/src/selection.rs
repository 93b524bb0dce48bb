//! Row selections as runs of skipped and selected rows.

use crate::bits::buffer_bits;
use crate::bits::builder_bits;
use crate::bits::count_true;
use crate::bits::rank;
use arrow::array::BooleanBufferBuilder;
use arrow::buffer::BooleanBuffer;
use std::collections::VecDeque;
use vstd::prelude::*;

verus! {

/// A run of rows that are all skipped or all selected.
#[derive(Clone, Copy, Debug, PartialEq, Eq, Structural)]
pub struct RowSelector {
    /// The number of rows.
    pub row_count: usize,
    /// Whether the rows are skipped.
    pub skip: bool,
}

impl RowSelector {
    /// A run of selected rows.
    pub fn select(row_count: usize) -> (selector: Self)
        ensures
            selector == (RowSelector { row_count, skip: false }),
    {
        RowSelector { row_count, skip: false }
    }

    /// A run of skipped rows.
    pub fn skip(row_count: usize) -> (selector: Self)
        ensures
            selector == (RowSelector { row_count, skip: true }),
    {
        RowSelector { row_count, skip: true }
    }

    /// The rows of one run: true where selected.
    pub open spec fn rows(self) -> Seq<bool> {
        Seq::new(self.row_count as nat, |i: int| !self.skip)
    }
}

/// The rows of a list of runs: true where selected.
pub open spec fn rows(selectors: Seq<RowSelector>) -> Seq<bool>
    decreases selectors.len(),
{
    if selectors.len() == 0 {
        Seq::empty()
    } else {
        rows(selectors.drop_last()) + selectors.last().rows()
    }
}

/// Whether no run is empty and no run could be joined with the next.
pub open spec fn is_canonical(selectors: Seq<RowSelector>) -> bool {
    &&& forall|i: int| 0 <= i < selectors.len() ==> (#[trigger] selectors[i]).row_count > 0
    &&& forall|i: int, j: int|
        #![trigger selectors[i], selectors[j]]
        0 <= i && j == i + 1 && j < selectors.len() ==> selectors[i].skip != selectors[j].skip
}

/// `RowSelection::from_filters` on one array without nulls gives the runs of its values: none is
/// empty, and skipped and selected ones take turns.
#[verifier::external_body]
pub(crate) fn selectors_of_buffer(buffer: &BooleanBuffer) -> (selectors: Vec<RowSelector>)
    ensures
        rows(selectors@) == buffer_bits(*buffer),
        is_canonical(selectors@),
{
    let filter = arrow::array::BooleanArray::new(buffer.clone(), None);
    parquet::arrow::arrow_reader::RowSelection::from_filters(&[filter])
        .iter()
        .map(|s| RowSelector { row_count: s.row_count, skip: s.skip })
        .collect()
}

/// `RowSelection::from` a list of runs drops empty runs and joins those that do not take turns; it
/// panics where the number of rows overflows.
#[verifier::external_body]
pub(crate) fn canonical_selectors(selection: &Vec<RowSelector>) -> (selectors: Vec<RowSelector>)
    requires
        rows(selection@).len() <= usize::MAX,
    ensures
        rows(selectors@) == rows(selection@),
        is_canonical(selectors@),
{
    selection
        .iter()
        .map(|s| parquet::arrow::arrow_reader::RowSelector { row_count: s.row_count, skip: s.skip })
        .collect::<parquet::arrow::arrow_reader::RowSelection>()
        .iter()
        .map(|s| RowSelector { row_count: s.row_count, skip: s.skip })
        .collect()
}

proof fn lemma_rows_prefix(selectors: Seq<RowSelector>, n: int)
    requires
        0 <= n <= selectors.len(),
    ensures
        rows(selectors.take(n)).len() <= rows(selectors).len(),
    decreases selectors.len() - n,
{
    if n < selectors.len() {
        lemma_rows_prefix(selectors, n + 1);
        assert(selectors.take(n + 1).drop_last() =~= selectors.take(n));
    } else {
        assert(selectors.take(n) =~= selectors);
    }
}

/// The rows of runs, packed.
pub fn row_selector_to_boolean_buffer(selection: &[RowSelector]) -> (buffer: BooleanBuffer)
    requires
        rows(selection@).len() <= usize::MAX,
    ensures
        buffer_bits(buffer) == rows(selection@),
{
    let mut buffer = BooleanBufferBuilder::new(8192);
    let n: usize = selection.len();
    let mut i: usize = 0;
    while i < n
        invariant
            i <= n,
            n == selection@.len(),
            rows(selection@).len() <= usize::MAX,
            builder_bits(buffer) == rows(selection@.take(i as int)),
        decreases n - i,
    {
        let selector: RowSelector = selection[i];
        proof {
            let s = selection@;
            lemma_rows_prefix(s, i + 1);
            assert(s.take(i + 1).drop_last() =~= s.take(i as int));
            assert(s.take(i + 1).last() == selector);
        }
        if selector.skip {
            buffer.append_n(selector.row_count, false);
        } else {
            buffer.append_n(selector.row_count, true);
        }
        assert(builder_bits(buffer) =~= rows(selection@.take(i + 1)));
        i += 1;
    }
    assert(selection@.take(n as int) =~= selection@);
    buffer.finish()
}

/// Whether any run is one of selected rows.
pub fn selects_any(selection: &[RowSelector]) -> (any: bool)
    ensures
        any == exists|i: int| 0 <= i < selection@.len() && !(#[trigger] selection@[i]).skip,
{
    let n: usize = selection.len();
    let mut i: usize = 0;
    while i < n
        invariant
            i <= n,
            n == selection@.len(),
            forall|j: int| 0 <= j < i ==> (#[trigger] selection@[j]).skip,
        decreases n - i,
    {
        if !selection[i].skip {
            return true;
        }
        i += 1;
    }
    false
}

/// Whether each run has a row.
pub open spec fn no_run_is_empty(selectors: Seq<RowSelector>) -> bool {
    forall|i: int| 0 <= i < selectors.len() ==> (#[trigger] selectors[i]).row_count > 0
}

/// Whether runs are cut in two parts between two of them, or within one of them, which then is the
/// last of the first part and the first of the second, with rows in both.
pub open spec fn are_cut(
    runs: Seq<RowSelector>,
    first: Seq<RowSelector>,
    second: Seq<RowSelector>,
) -> bool {
    ||| first + second == runs
    ||| {
        &&& first.len() > 0
        &&& second.len() > 0
        &&& first.len() + second.len() == runs.len() + 1
        &&& first.drop_last() + second.skip(1) == runs.remove(first.len() - 1)
        &&& first.last().skip == runs[first.len() - 1].skip
        &&& second[0].skip == runs[first.len() - 1].skip
        &&& first.last().row_count > 0
        &&& second[0].row_count > 0
        &&& first.last().row_count + second[0].row_count == runs[first.len() - 1].row_count
    }
}

/// Takes the runs of the next `batch_size` rows, or of all rows that are left. A run that reaches
/// past the end of the batch is cut in two; none that is empty comes about. Nothing comes where no
/// run is left.
pub fn take_next_batch(selection: &mut VecDeque<RowSelector>, batch_size: usize) -> (batch: Option<
    Vec<RowSelector>,
>)
    requires
        batch_size > 0,
    ensures
        batch is None <==> old(selection)@.len() == 0,
        batch is None ==> final(selection)@ == old(selection)@,
        batch is Some ==> {
            let all = rows(old(selection)@);
            let n = if all.len() < batch_size {
                all.len() as int
            } else {
                batch_size as int
            };
            &&& rows(batch->0@) == all.take(n)
            &&& rows(final(selection)@) == all.skip(n)
            &&& rows(batch->0@) + rows(final(selection)@) == all
            &&& no_run_is_empty(old(selection)@) ==> no_run_is_empty(batch->0@)
                && no_run_is_empty(final(selection)@)
            &&& are_cut(old(selection)@, batch->0@, final(selection)@)
            &&& is_canonical(old(selection)@) ==> is_canonical(batch->0@) && is_canonical(
                final(selection)@,
            )
        },
{
    let ghost all = rows(selection@);
    let ghost runs = selection@;
    if selection.len() == 0 {
        return None;
    }
    let mut batch: Vec<RowSelector> = Vec::new();
    let mut taken: usize = 0;
    assert(rows(batch@) + rows(selection@) =~= all);
    assert(batch@ + selection@ =~= runs);
    while taken < batch_size && selection.len() > 0
        invariant
            batch_size > 0,
            taken <= batch_size,
            rows(batch@).len() == taken,
            rows(batch@) + rows(selection@) == all,
            no_run_is_empty(runs) ==> no_run_is_empty(batch@) && no_run_is_empty(selection@),
            taken < batch_size ==> batch@ + selection@ == runs,
            are_cut(runs, batch@, selection@),
        decreases selection@.len(), batch_size - taken,
    {
        let ghost before = selection@;
        let ghost done = batch@;
        if let Some(front) = selection.pop_front() {
            proof {
                assert(front == before[0]);
                lemma_rows_first(before);
                assert(before.subrange(1, before.len() as int) =~= before.skip(1));
            }
            let room: usize = batch_size - taken;
            if front.row_count <= room {
                batch.push(front);
                taken += front.row_count;
                assert(batch@.drop_last() =~= done);
                assert(rows(batch@) + rows(selection@) =~= all);
                assert(batch@ + selection@ =~= runs);
            } else {
                let head = RowSelector { row_count: room, skip: front.skip };
                let rest = RowSelector { row_count: front.row_count - room, skip: front.skip };
                batch.push(head);
                selection.push_front(rest);
                taken = batch_size;
                proof {
                    assert forall|i: int| 0 < i < selection@.len() implies #[trigger] selection@[i]
                        == before[i] by {}
                    assert(batch@.drop_last() =~= done);
                    lemma_rows_first(selection@);
                    assert(selection@.skip(1) =~= before.skip(1));
                    assert(front.rows() =~= head.rows() + rest.rows());
                    assert(runs[done.len() as int] == front);
                    assert(batch@.drop_last() + selection@.skip(1) =~= runs.remove(
                        done.len() as int,
                    ));
                    assert(rows(batch@) + rows(selection@) =~= all);
                }
            }
        }
    }
    proof {
        if selection@.len() == 0 {
            assert(rows(batch@) =~= all);
        }
        assert(rows(batch@) =~= all.take(taken as int));
        assert(rows(selection@) =~= all.skip(taken as int));
        assert(rows(batch@) + rows(selection@) =~= all);
        lemma_cut_runs_take_turns(runs, batch@, selection@);
    }
    Some(batch)
}

proof fn lemma_rows_first(selectors: Seq<RowSelector>)
    requires
        selectors.len() > 0,
    ensures
        rows(selectors) == selectors[0].rows() + rows(selectors.skip(1)),
    decreases selectors.len(),
{
    if selectors.len() == 1 {
        assert(selectors.drop_last() =~= Seq::empty());
        assert(selectors.skip(1) =~= Seq::empty());
        assert(rows(selectors) =~= selectors[0].rows() + rows(selectors.skip(1)));
    } else {
        lemma_rows_first(selectors.drop_last());
        assert(selectors.drop_last().skip(1) =~= selectors.skip(1).drop_last());
        assert(rows(selectors) =~= selectors[0].rows() + rows(selectors.skip(1)));
    }
}

/// Runs that no longer can be joined are determined by their rows.
pub proof fn canonical_selectors_are_unique(a: Seq<RowSelector>, b: Seq<RowSelector>)
    requires
        is_canonical(a),
        is_canonical(b),
        rows(a) == rows(b),
    ensures
        a == b,
    decreases a.len(),
{
    if a.len() == 0 || b.len() == 0 {
        if a.len() > 0 {
            assert(a[a.len() - 1].row_count > 0);
        }
        if b.len() > 0 {
            assert(b[b.len() - 1].row_count > 0);
        }
        assert(a =~= b);
    } else {
        let r = rows(a);
        let n = r.len() as int;
        let x = a.last();
        let y = b.last();
        assert(a[a.len() - 1].row_count > 0 && b[b.len() - 1].row_count > 0);
        assert(r[n - 1] == !x.skip);
        assert(rows(b)[n - 1] == !y.skip);
        if x.row_count < y.row_count {
            lemma_last_run(a);
            assert(rows(a)[n - x.row_count - 1] == x.skip);
            assert(rows(b)[n - x.row_count - 1] == !y.skip);
        }
        if y.row_count < x.row_count {
            lemma_last_run(b);
            assert(rows(b)[n - y.row_count - 1] == y.skip);
            assert(rows(a)[n - y.row_count - 1] == !x.skip);
        }
        assert(rows(a.drop_last()) =~= r.take(n - x.row_count));
        assert(rows(b.drop_last()) =~= r.take(n - x.row_count));
        canonical_selectors_are_unique(a.drop_last(), b.drop_last());
        assert(a =~= a.drop_last().push(x));
        assert(b =~= b.drop_last().push(y));
    }
}

/// The row before the last run is of the other sort.
proof fn lemma_last_run(a: Seq<RowSelector>)
    requires
        is_canonical(a),
        a.len() > 0,
        rows(a).len() > a.last().row_count,
    ensures
        rows(a)[rows(a).len() - a.last().row_count - 1] == a.last().skip,
{
    let p = a.drop_last();
    assert(p.len() > 0) by {
        if p.len() == 0 {
            assert(rows(p).len() == 0);
        }
    }
    let i = a.len() - 2;
    assert(a[i].skip != a[i + 1].skip);
    assert(p.last() == a[i]);
    assert(rows(p)[rows(p).len() - 1] == !p.last().skip) by {
        assert(a[i].row_count > 0);
    }
}

/// Among runs none of which is empty, one of selected rows exists exactly if some row is selected.
pub proof fn selecting_run_iff_selected_row(selectors: Seq<RowSelector>)
    requires
        no_run_is_empty(selectors),
    ensures
        (exists|i: int| 0 <= i < selectors.len() && !(#[trigger] selectors[i]).skip) <==> count_true(
            rows(selectors),
        ) > 0,
    decreases selectors.len(),
{
    if selectors.len() > 0 {
        let init = selectors.drop_last();
        let r = rows(selectors);
        let m = rows(init).len() as int;
        selecting_run_iff_selected_row(init);
        crate::bits::lemma_rank_local(rows(init), r, m);
        assert(selectors[selectors.len() - 1].row_count > 0);
        if selectors.last().skip {
            lemma_rank_constant(r, m, r.len() as int);
            assert((exists|i: int| 0 <= i < selectors.len() && !(#[trigger] selectors[i]).skip)
                <==> (exists|i: int| 0 <= i < init.len() && !(#[trigger] init[i]).skip)) by {
                assert forall|i: int|
                    0 <= i < selectors.len() && !(#[trigger] selectors[i]).skip implies 0 <= i
                    < init.len() && !init[i].skip by {}
                assert forall|i: int| 0 <= i < init.len() && !(#[trigger] init[i]).skip implies !(
                selectors[i]).skip by {}
            }
        } else {
            assert(r[r.len() - 1]);
            assert(!selectors[selectors.len() - 1].skip);
        }
    }
}

proof fn lemma_rank_constant(bits: Seq<bool>, m: int, n: int)
    requires
        0 <= m <= n <= bits.len(),
        forall|i: int| m <= i < n ==> !bits[i],
    ensures
        rank(bits, m) == rank(bits, n),
    decreases n - m,
{
    if m < n {
        lemma_rank_constant(bits, m, n - 1);
    }
}

/// One run is so many rows of its sort.
pub proof fn run_is_rows_of_one_sort(run: RowSelector, i: int)
    requires
        0 <= i < run.row_count,
    ensures
        rows(seq![run]).len() == run.row_count,
        rows(seq![run])[i] <==> !run.skip,
{
    assert(seq![run].drop_last() =~= Seq::<RowSelector>::empty());
    assert(rows(Seq::<RowSelector>::empty()) =~= Seq::<bool>::empty());
    assert(rows(seq![run]) =~= run.rows());
}

/// The rows of runs one after the other are the rows of the first ones and then those of the others.
pub proof fn rows_of_runs_follow_each_other(a: Seq<RowSelector>, b: Seq<RowSelector>)
    ensures
        rows(a + b) == rows(a) + rows(b),
        rows(Seq::<RowSelector>::empty()).len() == 0,
    decreases b.len(),
{
    if b.len() == 0 {
        assert(a + b =~= a);
        assert(rows(a) + rows(b) =~= rows(a));
    } else {
        rows_of_runs_follow_each_other(a, b.drop_last());
        assert((a + b).drop_last() =~= a + b.drop_last());
        assert(rows(a + b) =~= rows(a) + rows(b));
    }
}

/// Whether a batch of a size, or all that is left, is taken of the rows.
pub open spec fn is_taken(left: Seq<bool>, size: nat, batch: Seq<bool>, after: Seq<bool>) -> bool {
    &&& batch + after == left
    &&& batch.len() == if left.len() < size {
        left.len()
    } else {
        size
    }
}

/// Batches taken one after the other hold all rows, in order, each of them once.
pub proof fn batches_hold_all_rows(batches: Seq<Seq<bool>>, left: Seq<Seq<bool>>, size: nat)
    requires
        left.len() == batches.len() + 1,
        forall|t: int|
            #![trigger batches[t]]
            0 <= t < batches.len() ==> is_taken(left[t], size, batches[t], left[t + 1]),
    ensures
        batches.flatten() + left.last() == left[0],
    decreases batches.len(),
{
    if batches.len() == 0 {
        assert(batches.flatten() =~= Seq::<bool>::empty());
        assert(batches.flatten() + left.last() =~= left[0]);
    } else {
        let rest = batches.drop_first();
        let later = left.drop_first();
        assert forall|t: int| #![trigger rest[t]] 0 <= t < rest.len() implies is_taken(
            later[t],
            size,
            rest[t],
            later[t + 1],
        ) by {
            assert(rest[t] == batches[t + 1]);
            assert(later[t] == left[t + 1]);
            assert(later[t + 1] == left[t + 2]);
        }
        batches_hold_all_rows(rest, later, size);
        assert(later.last() == left.last());
        assert(later[0] == left[1]);
        assert(is_taken(left[0], size, batches[0], left[1]));
        assert(batches.flatten() == batches[0] + rest.flatten());
        assert(batches.flatten() + left.last() =~= batches[0] + (rest.flatten() + left.last()));
    }
}

/// No run is empty exactly if the rows of each are at least one.
pub proof fn runs_that_are_not_empty_have_rows(selectors: Seq<RowSelector>)
    ensures
        no_run_is_empty(selectors) <==> forall|i: int|
            0 <= i < selectors.len() ==> (#[trigger] selectors[i]).rows().len() >= 1,
{
    if forall|i: int| 0 <= i < selectors.len() ==> (#[trigger] selectors[i]).rows().len() >= 1 {
        assert forall|i: int| 0 <= i < selectors.len() implies (
        #[trigger] selectors[i]).row_count > 0 by {
            assert(selectors[i].rows().len() >= 1);
        }
    }
}

/// Runs that are not empty and take turns do so on both sides of where they are cut.
proof fn lemma_cut_runs_take_turns(
    runs: Seq<RowSelector>,
    first: Seq<RowSelector>,
    second: Seq<RowSelector>,
)
    requires
        are_cut(runs, first, second),
    ensures
        is_canonical(runs) ==> is_canonical(first) && is_canonical(second),
{
    if is_canonical(runs) {
        let m = first.len() as int;
        if first + second == runs {
            assert forall|i: int| 0 <= i < first.len() implies #[trigger] first[i] == runs[i] by {}
            assert forall|i: int| 0 <= i < second.len() implies #[trigger] second[i] == runs[m + i] by {
                assert((first + second)[m + i] == second[i]);
            }
        } else {
            let rest = runs.remove(m - 1);
            let joined = first.drop_last() + second.skip(1);
            assert forall|i: int| 0 <= i < m - 1 implies #[trigger] first[i] == runs[i] by {
                assert(joined[i] == first[i]);
                assert(rest[i] == runs[i]);
            }
            assert forall|i: int| 0 < i < second.len() implies #[trigger] second[i] == runs[m - 1
                + i] by {
                assert(joined[m - 1 + i - 1] == second[i]);
                assert(rest[m - 1 + i - 1] == runs[m - 1 + i]);
            }
        }
    }
}

} // verus!
