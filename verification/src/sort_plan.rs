//! The bitonic sort plan: which stages run, in what order, with what
//! parameters, and where each stage's parameter block lies in the uniform table.

use vstd::prelude::*;
use vstd::arithmetic::power2::{
    pow2,
    lemma2_to64,
    lemma_pow2_pos,
    lemma_pow2_strictly_increases,
    lemma_pow2_unfold,
};

verus! {

/// Invocations per compute workgroup.
pub const WORKGROUP_SIZE: u32 = 256;

/// Distance in bytes between two stages' parameter blocks in the uniform
/// table: the alignment of a dynamic uniform offset that every device accepts.
pub const SORT_UNIFORM_ALIGNMENT: u32 = 256;

/// Bytes of one stage's parameter block.
pub const SORT_UNIFORM_SIZE: u32 = 16;

/// One stage of the plan as the frame schedule sees it: the offset at which
/// the stage's parameter block is bound.
#[derive(Clone, Copy, Debug, PartialEq, Eq, Structural)]
pub struct SortStage {
    pub dynamic_offset: u32,
}

/// The parameters of one stage.
#[derive(Clone, Copy, Debug, PartialEq, Eq, Structural)]
pub struct SortUniforms {
    pub element_count: u32,
    pub block_size: u32,
    pub comparison_distance: u32,
}

/// The largest `l` with `2^l <= n`, and 0 for `n == 0`.
pub open spec fn floor_log2(n: nat) -> nat
    decreases n,
{
    if n <= 1 {
        0
    } else {
        1 + floor_log2(n / 2)
    }
}

/// `0 + 1 + ... + k`.
pub open spec fn triangle(k: nat) -> nat
    decreases k,
{
    if k == 0 {
        0
    } else {
        triangle((k - 1) as nat) + k
    }
}

/// Block size and comparison distance of stage `t` within outer step `s`.
pub open spec fn stage_at(s: nat, t: nat) -> (nat, nat) {
    (pow2(s + 1), pow2((s - t) as nat))
}

/// The `s + 1` stages of outer step `s`: one block size, the distance halving
/// from half the block size down to 1.
pub open spec fn step_stages(s: nat) -> Seq<(nat, nat)> {
    Seq::new(s + 1, |t: int| stage_at(s, t as nat))
}

/// The stages of the first `steps` outer steps, in order.
pub open spec fn plan_steps(steps: nat) -> Seq<(nat, nat)>
    decreases steps,
{
    if steps == 0 {
        Seq::empty()
    } else {
        plan_steps((steps - 1) as nat) + step_stages((steps - 1) as nat)
    }
}

/// The whole plan for `n` elements, as pairs of block size and comparison
/// distance.
pub open spec fn sort_plan(n: nat) -> Seq<(nat, nat)> {
    plan_steps(floor_log2(n))
}

/// `params` is stage `i` of the plan for `n` elements.
pub open spec fn is_plan_stage(params: SortUniforms, n: nat, i: int) -> bool {
    &&& params.element_count == n
    &&& params.block_size == sort_plan(n)[i].0
    &&& params.comparison_distance == sort_plan(n)[i].1
}

/// `stages` lists the stages of the plan for `n` elements: stage `i` binds
/// its parameters at byte `256 * i`.
pub open spec fn is_stage_list(stages: Seq<SortStage>, n: nat) -> bool {
    &&& stages.len() == sort_plan(n).len()
    &&& forall|i: int|
        0 <= i < stages.len() ==> (#[trigger] stages[i]).dynamic_offset == i
            * SORT_UNIFORM_ALIGNMENT
}

/// Stage `i` of the plan for `n` elements, as the parameters handed to the
/// sort program.
pub open spec fn stage_params(n: nat, i: int) -> SortUniforms {
    SortUniforms {
        element_count: n as u32,
        block_size: sort_plan(n)[i].0 as u32,
        comparison_distance: sort_plan(n)[i].1 as u32,
    }
}

/// The triangular numbers grow.
pub proof fn lemma_triangle_monotonic(a: nat, b: nat)
    requires
        a <= b,
    ensures
        triangle(a) <= triangle(b),
    decreases b,
{
    if a < b {
        lemma_triangle_monotonic(a, (b - 1) as nat);
    }
}

/// The closed form of the triangular numbers.
pub proof fn lemma_triangle_formula(k: nat)
    ensures
        2 * triangle(k) == k * (k + 1),
        triangle(k) == k * (k + 1) / 2,
    decreases k,
{
    let j: int = k as int;
    if k > 0 {
        let i: int = j - 1;
        lemma_triangle_formula((k - 1) as nat);
        assert(2 * triangle((k - 1) as nat) == i * (i + 1));
        assert(i * (i + 1) + 2 * j == j * (j + 1)) by (nonlinear_arith)
            requires
                i == j - 1,
        ;
    } else {
        assert(j * (j + 1) == 0) by (nonlinear_arith)
            requires
                j == 0,
        ;
    }
    assert(2 * triangle(k) == j * (j + 1));
}

/// The first `steps` outer steps have `triangle(steps)` stages.
pub proof fn lemma_plan_steps_len(steps: nat)
    ensures
        plan_steps(steps).len() == triangle(steps),
    decreases steps,
{
    if steps > 0 {
        lemma_plan_steps_len((steps - 1) as nat);
    }
}

/// Stage `t` of outer step `s` stands at index `triangle(s) + t` of any plan
/// that has more than `s` steps.
pub proof fn lemma_plan_index(steps: nat, s: nat, t: nat)
    requires
        s < steps,
        t <= s,
    ensures
        triangle(s) + t < plan_steps(steps).len(),
        plan_steps(steps)[(triangle(s) + t) as int] == stage_at(s, t),
    decreases steps,
{
    let before = (steps - 1) as nat;
    lemma_plan_steps_len(before);
    lemma_plan_steps_len(steps);
    if s == before {
        assert(step_stages(s)[t as int] == stage_at(s, t));
    } else {
        lemma_plan_index(before, s, t);
    }
}

/// A count lies between the power of two of its binary logarithm and the
/// next one.
pub proof fn lemma_floor_log2_bound(n: nat)
    requires
        n >= 1,
    ensures
        pow2(floor_log2(n)) <= n < pow2(floor_log2(n) + 1),
    decreases n,
{
    lemma2_to64();
    if n > 1 {
        lemma_floor_log2_bound(n / 2);
        lemma_pow2_unfold(floor_log2(n));
        lemma_pow2_unfold(floor_log2(n) + 1);
    }
}

/// A count that fits in 32 bits has a plan of at most 31 steps, which is 496
/// stages.
pub proof fn lemma_plan_bounded(n: nat)
    requires
        n <= u32::MAX,
    ensures
        floor_log2(n) <= 31,
        sort_plan(n).len() <= 496,
{
    lemma2_to64();
    if n >= 1 {
        lemma_floor_log2_bound(n);
        if floor_log2(n) > 32 {
            lemma_pow2_strictly_increases(32, floor_log2(n));
        }
    }
    lemma_plan_steps_len(floor_log2(n));
    lemma_triangle_monotonic(floor_log2(n), 31);
    lemma_triangle_formula(31);
}

/// The floor of the binary logarithm; 0 for 0.
pub fn log2_floor(n: u32) -> (log_n: u32)
    ensures
        log_n == floor_log2(n as nat),
        log_n <= 31,
{
    let mut m: u32 = n;
    let mut log_n: u32 = 0;
    proof {
        lemma2_to64();
    }
    while m > 1
        invariant
            log_n <= 32,
            m < pow2((32 - log_n) as nat),
            m <= 1 ==> log_n <= 31,
            floor_log2(n as nat) == log_n + floor_log2(m as nat),
        decreases m,
    {
        proof {
            lemma2_to64();
            if log_n >= 31 {
                lemma_pow2_strictly_increases((32 - log_n) as nat, 2);
            }
            lemma_pow2_unfold((32 - log_n) as nat);
        }
        m = m / 2;
        log_n = log_n + 1;
    }
    log_n
}

/// The stages of the sort over `padded_count` elements, in the order in which
/// they run, each with the byte offset of its parameter block.
pub fn compute_sort_stages(padded_count: u32) -> (stages: Vec<SortStage>)
    ensures
        is_stage_list(stages@, padded_count as nat),
        stages@.len() == triangle(floor_log2(padded_count as nat)),
{
    let mut stages: Vec<SortStage> = Vec::new();
    if padded_count <= 1 {
        return stages;
    }
    let log_n: u32 = log2_floor(padded_count);
    let mut stage_index: u32 = 0;
    let mut outer_step: u32 = 0;
    proof {
        lemma_plan_steps_len(log_n as nat);
    }
    while outer_step < log_n
        invariant
            log_n <= 31,
            outer_step <= log_n,
            stage_index == triangle(outer_step as nat),
            stages@.len() == stage_index,
            forall|i: int|
                0 <= i < stages@.len() ==> (#[trigger] stages@[i]).dynamic_offset
                    == i * SORT_UNIFORM_ALIGNMENT,
        decreases log_n - outer_step,
    {
        let mut remaining: u32 = outer_step + 1;
        proof {
            lemma_triangle_monotonic((outer_step + 1) as nat, 31);
            assert(triangle(31) == 496) by {
                lemma_triangle_formula(31);
            }
        }
        while remaining >= 1
            invariant
                remaining <= outer_step + 1,
                outer_step < 31,
                stage_index + remaining == triangle((outer_step + 1) as nat),
                triangle((outer_step + 1) as nat) <= 496,
                stages@.len() == stage_index,
                forall|i: int|
                    0 <= i < stages@.len() ==> (#[trigger] stages@[i]).dynamic_offset
                        == i * SORT_UNIFORM_ALIGNMENT,
            decreases remaining,
        {
            stages.push(SortStage { dynamic_offset: stage_index * SORT_UNIFORM_ALIGNMENT });
            stage_index = stage_index + 1;
            remaining = remaining - 1;
        }
        outer_step = outer_step + 1;
    }
    stages
}

/// The parameters of every stage of the sort over `padded_count` elements, in
/// the order in which the stages run.
pub fn sort_stage_parameters(padded_count: u32) -> (plan: Vec<SortUniforms>)
    ensures
        plan@.len() == sort_plan(padded_count as nat).len(),
        forall|i: int|
            0 <= i < plan@.len() ==> is_plan_stage(#[trigger] plan@[i], padded_count as nat, i),
        forall|i: int|
            0 <= i < plan@.len() ==> #[trigger] plan@[i] == stage_params(padded_count as nat, i),
{
    let mut plan: Vec<SortUniforms> = Vec::new();
    let log_n: u32 = log2_floor(padded_count);
    let mut outer_step: u32 = 0;
    let mut half_block: u32 = 1;
    proof {
        lemma2_to64();
        lemma_plan_steps_len(log_n as nat);
    }
    while outer_step < log_n
        invariant
            log_n == floor_log2(padded_count as nat),
            log_n <= 31,
            outer_step <= log_n,
            half_block == pow2(outer_step as nat),
            plan@.len() == triangle(outer_step as nat),
            forall|i: int|
                0 <= i < plan@.len() ==> is_plan_stage(
                    #[trigger] plan@[i],
                    padded_count as nat,
                    i,
                ),
        decreases log_n - outer_step,
    {
        proof {
            lemma2_to64();
            if outer_step < 30 {
                lemma_pow2_strictly_increases(outer_step as nat, 30);
            }
            lemma_pow2_unfold((outer_step + 1) as nat);
        }
        let block_size: u32 = 2 * half_block;
        let mut comparison_distance: u32 = block_size / 2;
        let ghost mut t: nat = 0;
        while comparison_distance >= 1
            invariant
                log_n == floor_log2(padded_count as nat),
                outer_step < log_n,
                block_size == pow2((outer_step + 1) as nat),
                t <= outer_step + 1,
                t <= outer_step ==> comparison_distance == pow2((outer_step - t) as nat),
                t == outer_step + 1 ==> comparison_distance == 0,
                plan@.len() == triangle(outer_step as nat) + t,
                forall|i: int|
                    0 <= i < plan@.len() ==> is_plan_stage(
                        #[trigger] plan@[i],
                        padded_count as nat,
                        i,
                    ),
            decreases comparison_distance,
        {
            proof {
                lemma_plan_index(log_n as nat, outer_step as nat, t);
                lemma2_to64();
                if t < outer_step {
                    lemma_pow2_unfold((outer_step - t) as nat);
                    lemma_pow2_pos((outer_step - t - 1) as nat);
                }
            }
            plan.push(
                SortUniforms { element_count: padded_count, block_size, comparison_distance },
            );
            comparison_distance = comparison_distance / 2;
            proof {
                t = t + 1;
            }
        }
        half_block = block_size;
        outer_step = outer_step + 1;
    }
    plan
}

/// The binary logarithm of a power of two is its exponent.
pub proof fn lemma_floor_log2_of_pow2(e: nat)
    ensures
        floor_log2(pow2(e)) == e,
    decreases e,
{
    lemma2_to64();
    if e > 0 {
        lemma_pow2_unfold(e);
        lemma_pow2_pos((e - 1) as nat);
        lemma_floor_log2_of_pow2((e - 1) as nat);
    }
}

/// The plan for `n` elements has `l * (l + 1) / 2` stages, where `l` is the
/// binary logarithm of `n`, rounded down: none for one element, one for two,
/// six for eight.
pub proof fn lemma_stage_count(n: nat)
    requires
        n >= 1,
    ensures
        sort_plan(n).len() == floor_log2(n) * (floor_log2(n) + 1) / 2,
        sort_plan(1).len() == 0,
        sort_plan(2).len() == 1,
        sort_plan(8).len() == 6,
{
    lemma_plan_steps_len(floor_log2(n));
    lemma_triangle_formula(floor_log2(n));
    lemma_plan_steps_len(0);
    lemma_plan_steps_len(1);
    lemma_plan_steps_len(3);
    assert(floor_log2(2) == 1 && floor_log2(8) == 3) by {
        reveal_with_fuel(floor_log2, 4);
    }
    assert(triangle(1) == 1 && triangle(3) == 6) by {
        reveal_with_fuel(triangle, 4);
    }
}

/// Every index below `triangle(steps)` is stage `t` of exactly one outer step
/// `s`; this finds the two.
pub proof fn lemma_locate_stage(steps: nat, i: nat) -> (at: (nat, nat))
    requires
        i < triangle(steps),
    ensures
        at.0 < steps,
        at.1 <= at.0,
        i == triangle(at.0) + at.1,
    decreases steps,
{
    let before = (steps - 1) as nat;
    if i >= triangle(before) {
        (before, (i - triangle(before)) as nat)
    } else {
        lemma_locate_stage(before, i)
    }
}

/// The shape of the plan. Every block size is a power of two from 2 up to the
/// element count; every comparison distance is a power of two that divides
/// half the block size; where a block size first appears the distance is half
/// of it; and from one stage to the next with the same block size the distance
/// halves.
pub proof fn lemma_stage_shape(n: nat, i: int)
    requires
        0 <= i < sort_plan(n).len(),
    ensures
        ({
            let block_size = sort_plan(n)[i].0;
            let distance = sort_plan(n)[i].1;
            &&& exists|e: nat| 1 <= e <= floor_log2(n) && block_size == #[trigger] pow2(e)
            &&& 2 <= block_size <= n
            &&& exists|f: nat| distance == #[trigger] pow2(f)
            &&& 1 <= distance
            &&& (block_size / 2) % distance == 0
            &&& (i == 0 || sort_plan(n)[i - 1].0 != block_size) ==> distance == block_size / 2
            &&& (i > 0 && sort_plan(n)[i - 1].0 == block_size) ==> sort_plan(n)[i - 1].1 == 2
                * distance
        }),
{
    let steps = floor_log2(n);
    lemma_plan_steps_len(steps);
    let (s, t) = lemma_locate_stage(steps, i as nat);
    lemma_plan_index(steps, s, t);
    let block_size = sort_plan(n)[i].0;
    let distance = sort_plan(n)[i].1;
    assert(block_size == pow2(s + 1) && distance == pow2((s - t) as nat));
    lemma2_to64();
    lemma_pow2_unfold(s + 1);
    lemma_pow2_pos(s);
    lemma_pow2_pos((s - t) as nat);
    // The block size lies between 2 and n.
    assert(n >= 1) by {
        if n == 0 {
            assert(floor_log2(0) == 0);
        }
    }
    lemma_floor_log2_bound(n);
    if s + 1 < steps {
        lemma_pow2_strictly_increases(s + 1, steps);
    }
    // The distance divides half the block size.
    vstd::arithmetic::power2::lemma_pow2_adds(t, (s - t) as nat);
    vstd::arithmetic::div_mod::lemma_mod_multiples_basic(
        pow2(t) as int,
        pow2((s - t) as nat) as int,
    );
    // The stage before this one.
    if t > 0 {
        lemma_plan_index(steps, s, (t - 1) as nat);
        lemma_pow2_unfold((s - t + 1) as nat);
    } else if i > 0 {
        let r = (s - 1) as nat;
        lemma_plan_index(steps, r, r);
        assert(sort_plan(n)[i - 1].0 == pow2(s));
    }
}

} // verus!
