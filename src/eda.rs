use vstd::prelude::*;
use crate::number::{bits_are_nan, is_nan};
use crate::summary::{order_stats, order_stats_of, OrderStats};

verus! {

/// The present values of a column, in row order: each cell that holds a
/// number, NaN left out.
pub open spec fn present_values_of(cells: Seq<Option<u64>>) -> Seq<u64>
    decreases cells.len(),
{
    if cells.len() == 0 {
        Seq::empty()
    } else {
        let rest = present_values_of(cells.drop_last());
        match cells.last() {
            Some(b) => if is_nan(b) {
                rest
            } else {
                rest.push(b)
            },
            None => rest,
        }
    }
}

/// A column gets a record when it holds at least one present value.
pub open spec fn has_present(cells: Seq<Option<u64>>) -> bool {
    present_values_of(cells).len() > 0
}

/// The indices `0..n`, ascending.
pub open spec fn indices(n: nat) -> Seq<int> {
    Seq::new(n, |k: int| k)
}

/// Whether column `i` gets a record.
pub open spec fn keeps(cols: Seq<Seq<Option<u64>>>) -> spec_fn(int) -> bool {
    |i: int| has_present(cols[i])
}

/// The indices, in order, of the columns that get a record.
pub open spec fn kept_columns(cols: Seq<Seq<Option<u64>>>) -> Seq<int> {
    indices(cols.len()).filter(keeps(cols))
}

pub open spec fn cells_view(cols: Seq<Vec<Option<u64>>>) -> Seq<Seq<Option<u64>>> {
    cols.map_values(|c: Vec<Option<u64>>| c@)
}

/// The present values of a column of cells.
pub fn present_values(cells: &Vec<Option<u64>>) -> (r: Vec<u64>)
    ensures
        r@ == present_values_of(cells@),
{
    let mut out: Vec<u64> = Vec::new();
    let mut i: usize = 0;
    while i < cells.len()
        invariant
            i <= cells.len(),
            out@ == present_values_of(cells@.subrange(0, i as int)),
        decreases cells.len() - i,
    {
        proof {
            assert(cells@.subrange(0, i + 1).drop_last() =~= cells@.subrange(0, i as int));
        }
        match cells[i] {
            Some(b) => {
                if !bits_are_nan(b) {
                    out.push(b);
                }
            },
            None => {},
        }
        i += 1;
    }
    proof {
        assert(cells@.subrange(0, cells.len() as int) =~= cells@);
    }
    out
}

/// What the library computes for one column: its name, its index, its present
/// values in row order, and their order statistics.
pub struct ColumnSummary {
    pub name: String,
    pub index: usize,
    pub values: Vec<u64>,
    pub order: OrderStats,
}

/// The summary of one column from its non-empty present values.
pub fn calculate_vector_stats(name: &String, index: usize, values: Vec<u64>) -> (r: ColumnSummary)
    requires
        values.len() >= 1,
    ensures
        r.name@ == name@,
        r.index == index,
        r.values@ == values@,
        r.order == order_stats_of(values@),
{
    let order = order_stats(&values);
    ColumnSummary { name: name.clone(), index, values, order }
}

/// One summary for each column that holds a present value, in column order;
/// columns without one are skipped.
pub fn summarize_columns(names: &Vec<String>, columns: &Vec<Vec<Option<u64>>>) -> (r: Vec<
    ColumnSummary,
>)
    requires
        names.len() == columns.len(),
    ensures
        r@.len() == kept_columns(cells_view(columns@)).len(),
        forall|j: int|
            0 <= j < r@.len() ==> {
                let i = kept_columns(cells_view(columns@))[j];
                &&& #[trigger] r@[j].index == i
                &&& r@[j].name@ == names@[i]@
                &&& r@[j].values@ == present_values_of(columns@[i]@)
                &&& r@[j].order == order_stats_of(r@[j].values@)
            },
{
    let ghost cols = cells_view(columns@);
    let ghost pred = keeps(cols);
    let mut out: Vec<ColumnSummary> = Vec::new();
    let mut i: usize = 0;
    while i < columns.len()
        invariant
            i <= columns.len(),
            names.len() == columns.len(),
            cols == cells_view(columns@),
            pred == keeps(cols),
            out@.len() == indices(i as nat).filter(pred).len(),
            forall|j: int|
                0 <= j < out@.len() ==> {
                    let k = indices(i as nat).filter(pred)[j];
                    &&& #[trigger] out@[j].index == k
                    &&& out@[j].name@ == names@[k]@
                    &&& out@[j].values@ == present_values_of(columns@[k]@)
                    &&& out@[j].order == order_stats_of(out@[j].values@)
                },
        decreases columns.len() - i,
    {
        let ghost before = out@;
        let ghost prefix = indices(i as nat);
        let ghost next = indices((i + 1) as nat);
        proof {
            reveal(Seq::filter);
            assert(next.drop_last() =~= prefix);
            assert(next.last() == i as int);
        }
        let values = present_values(&columns[i]);
        assert(cols[i as int] == columns@[i as int]@);
        if values.len() > 0 {
            let summary = calculate_vector_stats(&names[i], i, values);
            out.push(summary);
            assert(next.filter(pred) == prefix.filter(pred).push(i as int));
            assert forall|j: int| 0 <= j < out@.len() implies #[trigger] out@[j].index
                == next.filter(pred)[j] by {
                if j < before.len() {
                    assert(out@[j] == before[j]);
                }
            }
        } else {
            assert(next.filter(pred) == prefix.filter(pred));
        }
        i += 1;
    }
    assert(cols.len() == columns@.len());
    assert(indices(columns.len() as nat).filter(pred) == kept_columns(cols));
    out
}

/// Each column gets at most one summary: there are no more summaries than
/// columns, exactly the columns with a present value get one, and they come
/// in column order.
pub proof fn lemma_one_summary_per_numeric_column(cols: Seq<Seq<Option<u64>>>)
    ensures
        kept_columns(cols).len() <= cols.len(),
        forall|i: int| 0 <= i < cols.len() ==> (has_present(cols[i]) <==> kept_columns(
            cols,
        ).contains(i)),
        forall|a: int, b: int|
            0 <= a < b < kept_columns(cols).len() ==> kept_columns(cols)[a] < kept_columns(
                cols,
            )[b],
{
    let pred = keeps(cols);
    lemma_filter_of_indices(cols.len(), pred);
    assert forall|i: int| 0 <= i < cols.len() implies (has_present(cols[i]) <==> kept_columns(
        cols,
    ).contains(i)) by {
        let all = indices(cols.len());
        if has_present(cols[i]) {
            all.lemma_filter_contains(pred, i);
            assert(all[i] == i);
        }
        if kept_columns(cols).contains(i) {
            let j = choose|j: int| 0 <= j < kept_columns(cols).len() && kept_columns(cols)[j] == i;
            all.lemma_filter_pred(pred, j);
        }
    }
}

/// Filtering the indices `0..n` keeps them within bounds and ascending.
proof fn lemma_filter_of_indices(n: nat, pred: spec_fn(int) -> bool)
    ensures
        indices(n).filter(pred).len() <= n,
        forall|j: int|
            0 <= j < indices(n).filter(pred).len() ==> 0 <= #[trigger] indices(n).filter(pred)[j] < n,
        forall|a: int, b: int|
            0 <= a < b < indices(n).filter(pred).len() ==> indices(n).filter(pred)[a] < indices(n).filter(pred)[b],
    decreases n,
{
    reveal(Seq::filter);
    let all = indices(n);
    all.lemma_filter_len(pred);
    if n > 0 {
        let prev = indices((n - 1) as nat);
        assert(all.drop_last() =~= prev);
        assert(all.last() == n - 1);
        lemma_filter_of_indices((n - 1) as nat, pred);
    }
}

} // verus!
