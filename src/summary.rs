use vstd::prelude::*;
use crate::number::order_key;
use crate::order::{key_sorted, lemma_sorted_of, lemma_sorted_of_unique, sort_values, sorted_of};

verus! {

/// A quantile of a sorted column, located among its order statistics.
/// `Between` stands for `lower + (quarters / 4) * (upper - lower)`, where
/// `lower` and `upper` are neighbours in the sorted column.
#[derive(PartialEq, Eq, Structural, Clone, Copy, Debug)]
pub enum Quantile {
    At(u64),
    Between { lower: u64, upper: u64, quarters: u64 },
}

impl Quantile {
    /// The order statistic at or below the quantile.
    pub open spec fn lower(self) -> u64 {
        match self {
            Quantile::At(v) => v,
            Quantile::Between { lower, .. } => lower,
        }
    }

    /// The order statistic at or above the quantile.
    pub open spec fn upper(self) -> u64 {
        match self {
            Quantile::At(v) => v,
            Quantile::Between { upper, .. } => upper,
        }
    }

    /// How far, in quarters, the quantile lies from `lower` towards `upper`.
    pub open spec fn fraction(self) -> u64 {
        match self {
            Quantile::At(_) => 0,
            Quantile::Between { quarters, .. } => quarters,
        }
    }
}

/// The rank, in quarters of a rank, of the quantile `quarters / 4` among
/// `len` sorted values.
pub open spec fn rank_position(len: nat, quarters: int) -> int {
    quarters * (len - 1)
}

/// The quantile `quarters / 4` of a sorted sequence, by linear interpolation
/// between the two closest ranks.
pub open spec fn quantile_of(sorted: Seq<u64>, quarters: int) -> Quantile {
    let pos = rank_position(sorted.len(), quarters);
    let base = pos / 4;
    if base + 1 < sorted.len() {
        Quantile::Between {
            lower: sorted[base],
            upper: sorted[base + 1],
            quarters: (pos % 4) as u64,
        }
    } else {
        Quantile::At(sorted[base])
    }
}

/// The statistics of a column that depend on the order of its values alone.
#[derive(PartialEq, Eq, Structural, Clone, Copy, Debug)]
pub struct OrderStats {
    pub count: usize,
    pub min: u64,
    pub max: u64,
    pub median: Quantile,
    pub q1: Quantile,
    pub q3: Quantile,
    /// Whether the sample variance (denominator `count - 1`) is defined.
    pub std_defined: bool,
}

pub open spec fn order_stats_of(values: Seq<u64>) -> OrderStats {
    let s = sorted_of(values);
    OrderStats {
        count: values.len() as usize,
        min: s[0],
        max: s[s.len() - 1],
        median: quantile_of(s, 2),
        q1: quantile_of(s, 1),
        q3: quantile_of(s, 3),
        std_defined: values.len() > 1,
    }
}

proof fn lemma_rank_split(m: int, quarters: int, whole: int, part: int)
    requires
        0 <= m,
        0 <= quarters <= 4,
        whole == m / 4,
        part == (m % 4) * quarters,
    ensures
        quarters * m == 4 * (whole * quarters) + part,
        0 <= part <= 12,
        0 <= whole * quarters <= m,
{
    assert(m == 4 * whole + m % 4);
    assert(quarters * m == 4 * (whole * quarters) + (m % 4) * quarters) by (nonlinear_arith)
        requires
            m == 4 * whole + m % 4,
    ;
    assert(0 <= (m % 4) * quarters <= 12) by (nonlinear_arith)
        requires
            0 <= m % 4 < 4,
            0 <= quarters <= 4,
    ;
    assert(0 <= whole * quarters <= 4 * whole) by (nonlinear_arith)
        requires
            0 <= whole,
            0 <= quarters <= 4,
    ;
}

/// The quantile `quarters / 4` of a sorted, non-empty column.
pub fn get_quantile(sorted: &Vec<u64>, quarters: usize) -> (r: Quantile)
    requires
        sorted.len() >= 1,
        quarters <= 4,
    ensures
        r == quantile_of(sorted@, quarters as int),
{
    let m: usize = sorted.len() - 1;
    let whole: usize = m / 4;
    proof {
        lemma_rank_split(m as int, quarters as int, whole as int, (m % 4) as int * quarters);
        assert(quarters * m <= 4 * m) by (nonlinear_arith)
            requires
                quarters <= 4,
        ;
    }
    let part: usize = (m % 4) * quarters;
    let base: usize = whole * quarters + part / 4;
    let rest: usize = part % 4;
    assert(base as int == rank_position(sorted.len() as nat, quarters as int) / 4);
    assert(rest as int == rank_position(sorted.len() as nat, quarters as int) % 4);
    if base + 1 < sorted.len() {
        Quantile::Between { lower: sorted[base], upper: sorted[base + 1], quarters: rest as u64 }
    } else {
        Quantile::At(sorted[base])
    }
}

/// The order statistics of a non-empty column of present values.
pub fn order_stats(values: &Vec<u64>) -> (r: OrderStats)
    requires
        values.len() >= 1,
    ensures
        r == order_stats_of(values@),
{
    let sorted = sort_values(values);
    proof {
        lemma_sorted_of(values@);
    }
    let count = values.len();
    let min = sorted[0];
    let max = sorted[sorted.len() - 1];
    let median = get_quantile(&sorted, 2);
    let q1 = get_quantile(&sorted, 1);
    let q3 = get_quantile(&sorted, 3);
    OrderStats { count, min, max, median, q1, q3, std_defined: count > 1 }
}

/// `a` lies at or below `b` whatever the interpolation gives: either `a`'s
/// interval ends where `b`'s begins or before, or both share one interval and
/// `a` is no further along it.
pub open spec fn quantile_before(a: Quantile, b: Quantile) -> bool {
    ||| order_key(a.upper()) <= order_key(b.lower())
    ||| (a.lower() == b.lower() && a.upper() == b.upper() && a.fraction() <= b.fraction())
}

/// A quantile's interval runs upwards and its fraction is under one.
pub open spec fn quantile_well_placed(q: Quantile) -> bool {
    order_key(q.lower()) <= order_key(q.upper()) && q.fraction() < 4
}

proof fn lemma_quantile_anchors(s: Seq<u64>, k: int)
    requires
        s.len() >= 1,
        0 <= k <= 4,
    ensures
        0 <= rank_position(s.len(), k) / 4 < s.len(),
        quantile_of(s, k).lower() == s[rank_position(s.len(), k) / 4],
        rank_position(s.len(), k) / 4 + 1 < s.len() ==> quantile_of(s, k).upper() == s[
            rank_position(s.len(), k) / 4 + 1],
        rank_position(s.len(), k) / 4 + 1 < s.len() ==> quantile_of(s, k).fraction() as int
            == rank_position(s.len(), k) % 4,
        rank_position(s.len(), k) / 4 + 1 >= s.len() ==> quantile_of(s, k) == Quantile::At(
            s[rank_position(s.len(), k) / 4],
        ),
{
    let m = s.len() - 1;
    assert(0 <= k * m <= 4 * m) by (nonlinear_arith)
        requires
            0 <= k <= 4,
            0 <= m,
    ;
}

proof fn lemma_rank_monotone(len: nat, j: int, k: int)
    requires
        len >= 1,
        0 <= j <= k <= 4,
    ensures
        rank_position(len, j) <= rank_position(len, k),
        rank_position(len, j) / 4 <= rank_position(len, k) / 4,
{
    let m = len - 1;
    assert(j * m <= k * m) by (nonlinear_arith)
        requires
            j <= k,
            0 <= m,
    ;
    vstd::arithmetic::div_mod::lemma_div_is_ordered(j * m, k * m, 4);
}

proof fn lemma_quantiles_before(s: Seq<u64>, j: int, k: int)
    requires
        s.len() >= 1,
        key_sorted(s),
        0 <= j <= k <= 4,
    ensures
        quantile_before(quantile_of(s, j), quantile_of(s, k)),
        quantile_well_placed(quantile_of(s, j)),
{
    lemma_quantile_anchors(s, j);
    lemma_quantile_anchors(s, k);
    lemma_rank_monotone(s.len(), j, k);
    let bj = rank_position(s.len(), j) / 4;
    let bk = rank_position(s.len(), k) / 4;
    if bj < bk {
        assert(order_key(s[bj + 1]) <= order_key(s[bk])) by {
            if bj + 1 < bk {
            }
        }
    } else {
        assert(rank_position(s.len(), j) % 4 <= rank_position(s.len(), k) % 4);
    }
    if bj + 1 < s.len() {
        assert(order_key(s[bj]) <= order_key(s[bj + 1]));
    }
}

/// The quartiles lie in order between the smallest and the largest value:
/// `min <= q1 <= median <= q3 <= max`, each quartile interpolated inside an
/// upward interval of neighbouring order statistics.
pub proof fn lemma_quartiles_ordered(values: Seq<u64>)
    requires
        values.len() >= 1,
    ensures
        ({
            let st = order_stats_of(values);
            &&& order_key(st.min) <= order_key(st.q1.lower())
            &&& quantile_well_placed(st.q1)
            &&& quantile_well_placed(st.median)
            &&& quantile_well_placed(st.q3)
            &&& quantile_before(st.q1, st.median)
            &&& quantile_before(st.median, st.q3)
            &&& order_key(st.q3.upper()) <= order_key(st.max)
        }),
{
    let s = sorted_of(values);
    lemma_sorted_of(values);
    lemma_quantiles_before(s, 1, 2);
    lemma_quantiles_before(s, 2, 3);
    lemma_quantiles_before(s, 3, 4);
    lemma_quantile_anchors(s, 1);
    lemma_quantile_anchors(s, 3);
    let b1 = rank_position(s.len(), 1) / 4;
    if b1 > 0 {
        assert(order_key(s[0]) <= order_key(s[b1]));
    }
    let b3 = rank_position(s.len(), 3) / 4;
    if b3 + 1 < s.len() - 1 {
        assert(order_key(s[b3 + 1]) <= order_key(s[s.len() - 1]));
    }
    if b3 < s.len() - 1 {
        assert(order_key(s[b3]) <= order_key(s[s.len() - 1]));
    }
}

/// A column of one value `v` has count 1, every order statistic equal to
/// `v`, and no sample variance.
pub proof fn lemma_single_value(v: u64)
    ensures
        order_stats_of(seq![v]) == (OrderStats {
            count: 1,
            min: v,
            max: v,
            median: Quantile::At(v),
            q1: Quantile::At(v),
            q3: Quantile::At(v),
            std_defined: false,
        }),
{
    lemma_sorted_of_unique(seq![v], seq![v]);
}

/// A column of `k > 1` copies of `v` has every order statistic equal to `v`
/// (each quartile interpolates between `v` and `v`) and a defined sample
/// variance.
pub proof fn lemma_constant_column(values: Seq<u64>, v: u64)
    requires
        values.len() > 1,
        forall|i: int| 0 <= i < values.len() ==> values[i] == v,
    ensures
        ({
            let st = order_stats_of(values);
            &&& st.min == v
            &&& st.max == v
            &&& st.q1.lower() == v && st.q1.upper() == v
            &&& st.median.lower() == v && st.median.upper() == v
            &&& st.q3.lower() == v && st.q3.upper() == v
            &&& st.std_defined
        }),
{
    let s = sorted_of(values);
    lemma_sorted_of(values);
    assert forall|i: int| 0 <= i < s.len() implies s[i] == v by {
        values.to_multiset_ensures();
        s.to_multiset_ensures();
        assert(s.contains(s[i]));
        assert(s.to_multiset().count(s[i]) > 0);
        assert(values.to_multiset().count(s[i]) > 0);
        assert(values.contains(s[i]));
        let j = choose|j: int| 0 <= j < values.len() && values[j] == s[i];
    }
    lemma_quantile_anchors(s, 1);
    lemma_quantile_anchors(s, 2);
    lemma_quantile_anchors(s, 3);
}

/// The order statistics depend on the multiset of values alone: computing
/// them again, on the same values in any order, gives the same result.
pub proof fn lemma_order_stats_deterministic(a: Seq<u64>, b: Seq<u64>)
    requires
        a.to_multiset() == b.to_multiset(),
    ensures
        order_stats_of(a) == order_stats_of(b),
{
    lemma_sorted_of(a);
    lemma_sorted_of(b);
    lemma_sorted_of_unique(sorted_of(a), b);
}

} // verus!
