use vstd::prelude::*;
use vstd::relations::sorted_by;
use vstd::seq_lib::lemma_sorted_unique;
use crate::number::{key_of, lemma_precedes_total, order_key, precedes_fn};

verus! {

/// Keys never decrease along the sequence.
pub open spec fn key_sorted(s: Seq<u64>) -> bool {
    forall|i: int, j: int| 0 <= i < j < s.len() ==> order_key(s[i]) <= order_key(s[j])
}

/// The bit patterns of `values` in ascending numeric order.
pub open spec fn sorted_of(values: Seq<u64>) -> Seq<u64> {
    values.sort_by(precedes_fn())
}

pub proof fn lemma_key_sorted_is_sorted_by(s: Seq<u64>)
    ensures
        key_sorted(s) <==> sorted_by(s, precedes_fn()),
{
    if key_sorted(s) {
        assert forall|i: int, j: int| 0 <= i < j < s.len() implies #[trigger] precedes_fn()(
            s[i],
            s[j],
        ) by {}
    }
    if sorted_by(s, precedes_fn()) {
        assert forall|i: int, j: int| 0 <= i < j < s.len() implies order_key(s[i]) <= order_key(
            s[j],
        ) by {
            assert(precedes_fn()(s[i], s[j]));
        }
    }
}

/// The ascending sequence is a rearrangement of the values, in key order.
pub proof fn lemma_sorted_of(values: Seq<u64>)
    ensures
        key_sorted(sorted_of(values)),
        sorted_of(values).to_multiset() == values.to_multiset(),
        sorted_of(values).len() == values.len(),
{
    lemma_precedes_total();
    values.lemma_sort_by_ensures(precedes_fn());
    lemma_key_sorted_is_sorted_by(sorted_of(values));
    values.to_multiset_ensures();
    sorted_of(values).to_multiset_ensures();
}

/// A key-sorted rearrangement of the values is their ascending sequence.
pub proof fn lemma_sorted_of_unique(s: Seq<u64>, values: Seq<u64>)
    requires
        key_sorted(s),
        s.to_multiset() == values.to_multiset(),
    ensures
        s == sorted_of(values),
{
    lemma_sorted_of(values);
    lemma_precedes_total();
    lemma_key_sorted_is_sorted_by(s);
    lemma_key_sorted_is_sorted_by(sorted_of(values));
    lemma_sorted_unique(s, sorted_of(values), precedes_fn());
}

proof fn lemma_insert_multiset(s: Seq<u64>, j: int, x: u64)
    requires
        0 <= j <= s.len(),
    ensures
        s.insert(j, x).to_multiset() == s.to_multiset().insert(x),
{
    broadcast use vstd::multiset::group_multiset_axioms;

    let t = s.insert(j, x);
    assert(t.remove(j) =~= s);
    t.to_multiset_ensures();
    assert(t.contains(x)) by {
        assert(t[j] == x);
    }
    assert(s.to_multiset() == t.to_multiset().remove(x));
    assert(t.to_multiset() =~= s.to_multiset().insert(x));
}

/// Sorts bit patterns into ascending numeric order (insertion sort).
pub fn sort_values(values: &Vec<u64>) -> (r: Vec<u64>)
    ensures
        r@ == sorted_of(values@),
{
    let mut out: Vec<u64> = Vec::new();
    let mut i: usize = 0;
    assert(values@.subrange(0, 0) =~= Seq::<u64>::empty());
    assert(out@ =~= Seq::<u64>::empty());
    while i < values.len()
        invariant
            i <= values.len(),
            key_sorted(out@),
            out@.to_multiset() == values@.subrange(0, i as int).to_multiset(),
        decreases values.len() - i,
    {
        let x = values[i];
        let kx = key_of(x);
        let mut j: usize = 0;
        while j < out.len() && key_of(out[j]) <= kx
            invariant
                j <= out.len(),
                kx == order_key(x),
                key_sorted(out@),
                forall|t: int| 0 <= t < j ==> order_key(#[trigger] out@[t]) <= order_key(x),
            decreases out.len() - j,
        {
            assert(order_key(out@[j as int]) <= order_key(x));
            j += 1;
        }
        let ghost before = out@;
        proof {
            lemma_insert_multiset(before, j as int, x);
            before.insert_ensures(j as int, x);
            assert(values@.subrange(0, i + 1) =~= values@.subrange(0, i as int).push(x));
            values@.subrange(0, i as int).to_multiset_ensures();
        }
        out.insert(j, x);
        assert forall|a: int, b: int| 0 <= a < b < out@.len() implies order_key(out@[a])
            <= order_key(out@[b]) by {
            if b < j {
            } else if b == j {
            } else if a < j {
                assert(out@[b] == before[b - 1]);
            } else if a == j {
                assert(out@[b] == before[b - 1]);
                assert(order_key(before[j as int]) > order_key(x));
            } else {
                assert(out@[b] == before[b - 1]);
                assert(out@[a] == before[a - 1]);
            }
        }
        i += 1;
    }
    proof {
        assert(values@.subrange(0, values.len() as int) =~= values@);
        lemma_sorted_of_unique(out@, values@);
    }
    out
}

} // verus!
