//! The sorting network that the sort program runs on the GPU, here on the CPU:
//! what one stage does to the keys and the values, and the run of a whole plan.

use vstd::prelude::*;
use vstd::arithmetic::div_mod::{
    lemma_div_pos_is_pos,
    lemma_fundamental_div_mod,
    lemma_fundamental_div_mod_converse,
    lemma_mod_bound,
};
use crate::sort_proof::{ascending, is_power_of_two, lemma_network_sorts};
use crate::sort_plan::{
    is_plan_stage,
    lemma_stage_shape,
    sort_plan,
    sort_stage_parameters,
    SortUniforms,
};

verus! {

/// The key that no depth encodes: it primes every slot, and sorts to the far
/// end.
pub const SENTINEL_KEY: u32 = 0xFFFF_FFFF;

/// The lower index of the pair that invocation `k` compares at distance `d`.
pub open spec fn pair_low(k: int, d: int) -> int {
    (k / d) * (2 * d) + k % d
}

/// The invocation that compares position `p` at distance `d`.
pub open spec fn pair_index(p: int, d: int) -> int {
    (p / (2 * d)) * d + p % d
}

/// Position `p` is the lower one of its pair at distance `d`.
pub open spec fn is_low(p: int, d: int) -> bool {
    p % (2 * d) < d
}

/// The lower position of the pair that `p` belongs to at distance `d`.
pub open spec fn low_of(p: int, d: int) -> int {
    if is_low(p, d) {
        p
    } else {
        p - d
    }
}

/// Whether the pair whose lower index is `i` is put in ascending order: it is
/// where the block of `i` has an even number.
pub open spec fn ascending_at(i: int, block_size: int) -> bool {
    (i / block_size) % 2 == 0
}

/// The keys at `lo` and `hi` stand against the wanted order.
pub open spec fn out_of_order(keys: Seq<u32>, lo: int, hi: int, ascending: bool) -> bool {
    if ascending {
        keys[lo] > keys[hi]
    } else {
        keys[lo] < keys[hi]
    }
}

/// Where the entry comes from that stands at `p` after a stage: from the other
/// position of its pair where the pair lies within the keys and stands against
/// the wanted order, else from `p` itself.
pub open spec fn stage_source(keys: Seq<u32>, block_size: int, d: int, p: int) -> int {
    let lo = low_of(p, d);
    let hi = lo + d;
    if hi < keys.len() && out_of_order(keys, lo, hi, ascending_at(lo, block_size)) {
        if p == lo {
            hi
        } else {
            lo
        }
    } else {
        p
    }
}

/// `items` after one stage that compares `keys`.
pub open spec fn stage_apply<T>(keys: Seq<u32>, items: Seq<T>, block_size: int, d: int) -> Seq<T> {
    Seq::new(items.len(), |p: int| items[stage_source(keys, block_size, d, p)])
}

/// `items` after the stages of `plan`, run in order on `keys`.
pub open spec fn run_plan<T>(keys: Seq<u32>, items: Seq<T>, plan: Seq<(nat, nat)>) -> Seq<T>
    decreases plan.len(),
{
    if plan.len() == 0 {
        items
    } else {
        stage_apply(
            run_plan(keys, keys, plan.drop_last()),
            run_plan(keys, items, plan.drop_last()),
            plan.last().0 as int,
            plan.last().1 as int,
        )
    }
}

/// The pair of invocation `k`: its lower index is a lower position, both its
/// positions belong to invocation `k`, and the lower one is `2 * k - k % d`.
pub proof fn lemma_pair_low(k: int, d: int)
    requires
        0 <= k,
        1 <= d,
    ensures
        pair_low(k, d) == 2 * k - k % d,
        0 <= k % d < d,
        is_low(pair_low(k, d), d),
        !is_low(pair_low(k, d) + d, d),
        pair_index(pair_low(k, d), d) == k,
        pair_index(pair_low(k, d) + d, d) == k,
{
    let q = k / d;
    let r = k % d;
    let lo = pair_low(k, d);
    lemma_fundamental_div_mod(k, d);
    lemma_mod_bound(k, d);
    lemma_div_pos_is_pos(k, d);
    assert(q * (2 * d) == 2 * (d * q) && (2 * q) * d == 2 * (d * q) && (2 * q + 1) * d == 2 * (d
        * q) + d && q * d == d * q) by (nonlinear_arith);
    lemma_fundamental_div_mod_converse(lo, 2 * d, q, r);
    lemma_fundamental_div_mod_converse(lo, d, 2 * q, r);
    lemma_fundamental_div_mod_converse(lo + d, 2 * d, q, r + d);
    lemma_fundamental_div_mod_converse(lo + d, d, 2 * q + 1, r);
}

/// Every position belongs to the pair of exactly one invocation: the one its
/// pair index names.
pub proof fn lemma_pair_of_position(p: int, d: int)
    requires
        0 <= p,
        1 <= d,
    ensures
        0 <= pair_index(p, d),
        low_of(p, d) == pair_low(pair_index(p, d), d),
        p == low_of(p, d) || p == low_of(p, d) + d,
        0 <= low_of(p, d),
        2 * pair_index(p, d) < low_of(p, d) + d,
{
    let q = p / (2 * d);
    let r = p % (2 * d);
    lemma_fundamental_div_mod(p, 2 * d);
    lemma_mod_bound(p, 2 * d);
    lemma_div_pos_is_pos(p, 2 * d);
    assert((2 * d) * q == 2 * (d * q) && (2 * q) * d == 2 * (d * q) && (2 * q + 1) * d == 2 * (d
        * q) + d && q * d == d * q && q * (2 * d) == 2 * (d * q) && 0 <= d * q) by (nonlinear_arith)
        requires
            0 <= q,
            1 <= d,
    ;
    if r < d {
        lemma_fundamental_div_mod_converse(p, d, 2 * q, r);
        let k = q * d + r;
        assert(pair_index(p, d) == k);
        lemma_fundamental_div_mod_converse(k, d, q, r);
    } else {
        lemma_fundamental_div_mod_converse(p, d, 2 * q + 1, r - d);
        let k = q * d + (r - d);
        assert(pair_index(p, d) == k);
        lemma_fundamental_div_mod_converse(k, d, q, r - d);
    }
}

/// The sort keys and values before any splat is counted: every key the
/// sentinel, every value its own index.
pub fn clear_sort(padded_count: u32) -> (cleared: (Vec<u32>, Vec<u32>))
    ensures
        cleared.0@.len() == padded_count,
        cleared.1@.len() == padded_count,
        forall|i: int| 0 <= i < padded_count ==> #[trigger] cleared.0@[i] == SENTINEL_KEY,
        forall|i: int| 0 <= i < padded_count ==> #[trigger] cleared.1@[i] == i,
{
    let mut keys: Vec<u32> = Vec::new();
    let mut values: Vec<u32> = Vec::new();
    let mut i: u32 = 0;
    while i < padded_count
        invariant
            i <= padded_count,
            keys@.len() == i,
            values@.len() == i,
            forall|j: int| 0 <= j < i ==> #[trigger] keys@[j] == SENTINEL_KEY,
            forall|j: int| 0 <= j < i ==> #[trigger] values@[j] == j,
        decreases padded_count - i,
    {
        keys.push(SENTINEL_KEY);
        values.push(i);
        i = i + 1;
    }
    (keys, values)
}

/// Where the entry at `p` comes from once the invocations below `k` have run.
pub open spec fn partial_source(keys: Seq<u32>, block_size: int, d: int, k: int, p: int) -> int {
    if pair_index(p, d) < k {
        stage_source(keys, block_size, d, p)
    } else {
        p
    }
}

/// Runs one stage: every invocation compares the keys of its pair and, where
/// they stand against the order wanted for the pair's block, exchanges the
/// two keys and the two values. A pair that reaches beyond the elements is left
/// alone.
pub fn sort_stage(keys: &mut Vec<u32>, values: &mut Vec<u32>, params: &SortUniforms)
    requires
        old(keys)@.len() == params.element_count,
        old(values)@.len() == params.element_count,
        params.block_size >= 1,
        params.comparison_distance >= 1,
    ensures
        final(keys)@ == stage_apply(
            old(keys)@,
            old(keys)@,
            params.block_size as int,
            params.comparison_distance as int,
        ),
        final(values)@ == stage_apply(
            old(keys)@,
            old(values)@,
            params.block_size as int,
            params.comparison_distance as int,
        ),
{
    let n: u64 = params.element_count as u64;
    let d: u64 = params.comparison_distance as u64;
    let block_size: u64 = params.block_size as u64;
    let ghost keys0 = keys@;
    let ghost values0 = values@;
    let pairs: u64 = n / 2;
    let mut k: u64 = 0;
    while k < pairs
        invariant
            k <= pairs,
            pairs == n / 2,
            n == params.element_count,
            d == params.comparison_distance,
            block_size == params.block_size,
            d >= 1,
            block_size >= 1,
            keys0.len() == n,
            values0.len() == n,
            keys@.len() == n,
            values@.len() == n,
            forall|p: int|
                0 <= p < n ==> keys@[p] == keys0[#[trigger] partial_source(
                    keys0,
                    block_size as int,
                    d as int,
                    k as int,
                    p,
                )],
            forall|p: int|
                0 <= p < n ==> values@[p] == values0[#[trigger] partial_source(
                    keys0,
                    block_size as int,
                    d as int,
                    k as int,
                    p,
                )],
        decreases pairs - k,
    {
        proof {
            lemma_pair_low(k as int, d as int);
        }
        let i: u64 = (k / d) * (2 * d) + k % d;
        let j: u64 = i + d;
        let ghost keys1 = keys@;
        let ghost values1 = values@;
        if j < n {
            let ascending: bool = (i / block_size) % 2 == 0;
            let key_i: u32 = keys[i as usize];
            let key_j: u32 = keys[j as usize];
            proof {
                assert(key_i == keys0[partial_source(
                    keys0,
                    block_size as int,
                    d as int,
                    k as int,
                    i as int,
                )]);
                assert(key_j == keys0[partial_source(
                    keys0,
                    block_size as int,
                    d as int,
                    k as int,
                    j as int,
                )]);
            }
            if (ascending && key_i > key_j) || (!ascending && key_i < key_j) {
                let value_i: u32 = values[i as usize];
                let value_j: u32 = values[j as usize];
                proof {
                    assert(value_i == values0[partial_source(
                        keys0,
                        block_size as int,
                        d as int,
                        k as int,
                        i as int,
                    )]);
                    assert(value_j == values0[partial_source(
                        keys0,
                        block_size as int,
                        d as int,
                        k as int,
                        j as int,
                    )]);
                }
                keys[i as usize] = key_j;
                keys[j as usize] = key_i;
                values[i as usize] = value_j;
                values[j as usize] = value_i;
            }
        }
        proof {
            let b = block_size as int;
            let dd = d as int;
            assert forall|p: int| 0 <= p < n implies keys@[p] == keys0[#[trigger] partial_source(
                keys0,
                b,
                dd,
                k + 1,
                p,
            )] && values@[p] == values0[partial_source(keys0, b, dd, k + 1, p)] by {
                lemma_pair_of_position(p, dd);
                assert(keys1[p] == keys0[partial_source(keys0, b, dd, k as int, p)]);
                assert(values1[p] == values0[partial_source(keys0, b, dd, k as int, p)]);
            }
        }
        k = k + 1;
    }
    proof {
        let b = block_size as int;
        let dd = d as int;
        assert forall|p: int| 0 <= p < n implies keys@[p] == keys0[stage_source(keys0, b, dd, p)]
            && values@[p] == values0[stage_source(keys0, b, dd, p)] by {
            lemma_pair_of_position(p, dd);
            assert(keys@[p] == keys0[partial_source(keys0, b, dd, k as int, p)]);
            assert(values@[p] == values0[partial_source(keys0, b, dd, k as int, p)]);
        }
        assert(keys@ =~= stage_apply(keys0, keys0, b, dd));
        assert(values@ =~= stage_apply(keys0, values0, b, dd));
    }
}

/// Runs the whole plan for as many elements as there are keys, stage after
/// stage.
pub fn sort_network(keys: &mut Vec<u32>, values: &mut Vec<u32>)
    requires
        old(keys)@.len() == old(values)@.len(),
        old(keys)@.len() <= u32::MAX,
    ensures
        final(keys)@ == run_plan(old(keys)@, old(keys)@, sort_plan(old(keys)@.len())),
        final(values)@ == run_plan(old(keys)@, old(values)@, sort_plan(old(keys)@.len())),
        is_power_of_two(old(keys)@.len()) ==> ascending(final(keys)@),
{
    proof {
        if is_power_of_two(keys@.len()) {
            lemma_network_sorts(keys@);
        }
    }
    let n: u32 = keys.len() as u32;
    let plan: Vec<SortUniforms> = sort_stage_parameters(n);
    let ghost keys0 = keys@;
    let ghost values0 = values@;
    let ghost stages = sort_plan(n as nat);
    let mut i: usize = 0;
    assert(stages.take(0) =~= Seq::<(nat, nat)>::empty());
    while i < plan.len()
        invariant
            i <= plan@.len(),
            plan@.len() == stages.len(),
            stages == sort_plan(n as nat),
            forall|j: int| 0 <= j < plan@.len() ==> is_plan_stage(#[trigger] plan@[j], n as nat, j),
            keys@.len() == n,
            values@.len() == n,
            keys0.len() == n,
            keys@ == run_plan(keys0, keys0, stages.take(i as int)),
            values@ == run_plan(keys0, values0, stages.take(i as int)),
        decreases plan@.len() - i,
    {
        proof {
            lemma_stage_shape(n as nat, i as int);
            assert(is_plan_stage(plan@[i as int], n as nat, i as int));
            assert(stages.take(i + 1).drop_last() =~= stages.take(i as int));
            assert(stages.take(i + 1).last() == stages[i as int]);
        }
        sort_stage(keys, values, &plan[i]);
        i = i + 1;
    }
    assert(stages.take(i as int) =~= stages);
}

} // verus!
