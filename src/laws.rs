//! Properties that hold of every evaluation.
use crate::engine::{
    apply_modifier, apply_modifiers, count_below, fits_i64, evaluate, first_explode, is_kept, kept_sum, outcomes, pool_fits,
    precedes, rank, rank_upto,
};
use crate::{ExprView, RollItem, RollModifier, RollRetention};
use vstd::prelude::*;
use vstd::relations::injective_on;
use vstd::set_lib::{lemma_int_range, lemma_len_subset, lemma_map_size, lemma_subset_equality, set_int_range};

verus! {

/// How many outcomes are retained.
pub open spec fn retained_count(items: Seq<RollItem>) -> nat
    decreases items.len(),
{
    if items.len() == 0 {
        0
    } else {
        retained_count(items.drop_last()) + if items.last().retained {
            1nat
        } else {
            0nat
        }
    }
}

proof fn lemma_rank_upto_bound(pool: Seq<usize>, i: int, k: int, highest: bool)
    requires
        0 <= i < pool.len(),
        0 <= k <= pool.len(),
    ensures
        rank_upto(pool, i, k, highest) <= k,
        i < k ==> rank_upto(pool, i, k, highest) < k,
    decreases k,
{
    if k > 0 {
        lemma_rank_upto_bound(pool, i, k - 1, highest);
    }
}

proof fn lemma_rank_upto_order(pool: Seq<usize>, j: int, i: int, k: int, highest: bool)
    requires
        0 <= i < pool.len(),
        0 <= j < pool.len(),
        precedes(pool, j, i, highest),
        0 <= k <= pool.len(),
    ensures
        rank_upto(pool, j, k, highest) + (if j < k {
            1nat
        } else {
            0nat
        }) <= rank_upto(pool, i, k, highest),
    decreases k,
{
    if k > 0 {
        lemma_rank_upto_order(pool, j, i, k - 1, highest);
    }
}

/// The ranks of the dice of a pool are `0..len` in some order.
proof fn lemma_ranks_fill(pool: Seq<usize>, highest: bool)
    ensures
        set_int_range(0, pool.len() as int).map(|i: int| rank(pool, i, highest) as int)
            == set_int_range(0, pool.len() as int),
        injective_on(|i: int| rank(pool, i, highest) as int, set_int_range(0, pool.len() as int)),
{
    let len = pool.len() as int;
    let dom = set_int_range(0, len);
    let f = |i: int| rank(pool, i, highest) as int;
    assert forall|a: int, b: int| dom.contains(a) && dom.contains(b) && #[trigger] f(a) == #[trigger] f(b)
        implies a == b by {
        if a != b {
            if precedes(pool, a, b, highest) {
                lemma_rank_upto_order(pool, a, b, len, highest);
            } else {
                lemma_rank_upto_order(pool, b, a, len, highest);
            }
        }
    }
    assert(injective_on(f, dom));
    lemma_int_range(0, len);
    lemma_map_size(dom, dom.map(f), f);
    assert forall|v: int| dom.map(f).contains(v) implies dom.contains(v) by {
        let i = choose|i: int| dom.contains(i) && f(i) == v;
        lemma_rank_upto_bound(pool, i, len, highest);
    }
    lemma_subset_equality(dom.map(f), dom);
}

/// The retained count of the first `k` outcomes is the number of retained
/// positions below `k`.
proof fn lemma_retained_count_set(items: Seq<RollItem>, k: int)
    requires
        0 <= k <= items.len(),
    ensures
        Set::new(|i: int| 0 <= i < k && items[i].retained).finite(),
        retained_count(items.subrange(0, k)) == Set::new(|i: int| 0 <= i < k && items[i].retained).len(),
    decreases k,
{
    let s = Set::new(|i: int| 0 <= i < k && items[i].retained);
    if k == 0 {
        assert(s =~= Set::empty());
    } else {
        lemma_retained_count_set(items, k - 1);
        let t = Set::new(|i: int| 0 <= i < k - 1 && items[i].retained);
        assert(items.subrange(0, k).drop_last() =~= items.subrange(0, k - 1));
        if items[k - 1].retained {
            assert(s =~= t.insert(k - 1));
        } else {
            assert(s =~= t);
        }
    }
}

/// Keeping the `n` highest, or the `n` lowest, of a pool of at least `n` dice
/// leaves exactly `n` of them retained.
pub proof fn lemma_keep_exactly(pool: Seq<usize>, faces: usize, r: RollRetention, n: usize)
    requires
        r == RollRetention::Highest(n) || r == RollRetention::Lowest(n),
        n <= pool.len(),
    ensures
        retained_count(outcomes(pool, faces, r)) == n,
{
    let len = pool.len() as int;
    let highest = r == RollRetention::Highest(n);
    let items = outcomes(pool, faces, r);
    let dom = set_int_range(0, len);
    let f = |i: int| rank(pool, i, highest) as int;
    lemma_ranks_fill(pool, highest);
    lemma_int_range(0, len);
    let kept = Set::new(|i: int| 0 <= i < len && items[i].retained);
    assert forall|i: int| 0 <= i < len implies items[i].retained == (f(i) + n >= len) by {
        assert(items[i].retained == is_kept(pool, r, i));
    }
    let top = set_int_range(len - n, len);
    assert forall|v: int| top.contains(v) implies kept.map(f).contains(v) by {
        assert(dom.map(f).contains(v));
        let i = choose|i: int| dom.contains(i) && f(i) == v;
        assert(kept.contains(i));
    }
    assert forall|v: int| kept.map(f).contains(v) implies top.contains(v) by {
        let i = choose|i: int| kept.contains(i) && f(i) == v;
        assert(dom.map(f).contains(f(i)));
    }
    assert(kept.map(f) =~= top);
    assert(kept.subset_of(dom));
    lemma_len_subset(kept, dom);
    lemma_map_size(kept, top, f);
    lemma_int_range(len - n, len);
    lemma_retained_count_set(items, len);
    assert(items.subrange(0, len) =~= items);
}

/// Evaluating an expression that keeps its `n` highest or lowest dice, `n`
/// at most the dice count, with no explosion, retains exactly `n` outcomes.
pub proof fn lemma_retention_without_explosion(e: ExprView, pool: Seq<usize>, n: usize)
    requires
        e.retention == RollRetention::Highest(n) || e.retention == RollRetention::Lowest(n),
        n <= e.count,
        first_explode(e.modifiers) is None,
        pool_fits(e, pool),
        evaluate(e, pool) is Ok,
    ensures
        retained_count(evaluate(e, pool).unwrap().rolls) == n,
{
    lemma_keep_exactly(pool, e.faces, e.retention, n);
}

/// In a pool drawn with explosion threshold `t`, no chain ends on a value of
/// at least `t`: such a value is always followed by another die, and exactly
/// `count` values, one per chain, lie below `t`.
pub proof fn lemma_chains_end_below(e: ExprView, pool: Seq<usize>, t: usize)
    requires
        pool_fits(e, pool),
        first_explode(e.modifiers) == Some(t),
    ensures
        forall|i: int| 0 <= i < pool.len() && pool[i] >= t ==> i + 1 < pool.len(),
        count_below(pool, t) == e.count,
{
}

/// The sum of all die values.
pub open spec fn pool_sum(pool: Seq<usize>) -> int
    decreases pool.len(),
{
    if pool.len() == 0 {
        0
    } else {
        pool_sum(pool.drop_last()) + pool.last()
    }
}

proof fn lemma_all_kept_sum(pool: Seq<usize>, faces: usize)
    ensures
        kept_sum(outcomes(pool, faces, RollRetention::All)) == pool_sum(pool),
    decreases pool.len(),
{
    if pool.len() > 0 {
        lemma_all_kept_sum(pool.drop_last(), faces);
        assert(outcomes(pool, faces, RollRetention::All).drop_last() =~= outcomes(
            pool.drop_last(),
            faces,
            RollRetention::All,
        ));
    }
}

proof fn lemma_modifiers_fit(t: int, ms: Seq<RollModifier>)
    requires
        fits_i64(t),
        apply_modifiers(t, ms) is Some,
    ensures
        fits_i64(apply_modifiers(t, ms).unwrap()),
    decreases ms.len(),
{
    if ms.len() > 0 {
        lemma_modifiers_fit(apply_modifier(t, ms[0]).unwrap(), ms.drop_first());
    }
}

/// Keeping every die, the total is the sum of all die values with the
/// modifiers applied in order.
pub proof fn lemma_all_total(e: ExprView, pool: Seq<usize>)
    requires
        e.retention == RollRetention::All,
        evaluate(e, pool) is Ok,
    ensures
        apply_modifiers(pool_sum(pool), e.modifiers) == Some(evaluate(e, pool).unwrap().total as int),
{
    lemma_all_kept_sum(pool, e.faces);
    lemma_modifiers_fit(kept_sum(outcomes(pool, e.faces, e.retention)), e.modifiers);
}

} // verus!
