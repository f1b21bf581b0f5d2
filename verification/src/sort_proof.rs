//! Why the plan sorts: the proof that the network, run stage by stage on a
//! power-of-two number of keys, leaves them in ascending order.
//!
//! The argument looks at the keys through one threshold at a time. Against a
//! threshold every key is either above it or not, a comparator moves the "not
//! above" towards the side that is to hold the smaller keys, and a sequence is
//! in order exactly if it is in order against every threshold.

use vstd::prelude::*;
use vstd::arithmetic::div_mod::{
    lemma_div_denominator,
    lemma_div_is_ordered,
    lemma_div_pos_is_pos,
    lemma_fundamental_div_mod,
    lemma_fundamental_div_mod_converse,
    lemma_mod_bound,
    lemma_mod_multiples_basic,
};
use vstd::arithmetic::power2::{
    pow2,
    lemma2_to64,
    lemma_pow2_adds,
    lemma_pow2_pos,
    lemma_pow2_unfold,
};
use crate::sort_network::{
    ascending_at,
    is_low,
    low_of,
    run_plan,
    stage_apply,
    stage_source,
    SENTINEL_KEY,
};
use crate::sort_plan::{lemma_floor_log2_of_pow2, plan_steps, sort_plan, step_stages};

verus! {

/// Position `p`, taken apart by granules of `2 * d`: where its granule starts,
/// in which half of the granule it lies, and where its pair lies.
proof fn lemma_granule_split(p: int, d: int)
    requires
        0 <= p,
        1 <= d,
    ensures
        ({
            let q = p / (2 * d);
            let start = q * (2 * d);
            &&& 0 <= q
            &&& 0 <= start <= p < start + 2 * d
            &&& is_low(p, d) <==> p < start + d
            &&& is_low(p, d) ==> p / d == 2 * q && (p / d) * d == start
            &&& !is_low(p, d) ==> p / d == 2 * q + 1 && (p / d) * d == start + d
            &&& start <= low_of(p, d) < start + d
            &&& is_low(low_of(p, d), d)
            &&& !is_low(low_of(p, d) + d, d)
            &&& low_of(low_of(p, d), d) == low_of(p, d)
            &&& low_of(low_of(p, d) + d, d) == low_of(p, d)
            &&& low_of(p, d) / (2 * d) == q
            &&& (low_of(p, d) + d) / (2 * d) == q
        }),
{
    let q = p / (2 * d);
    let r = p % (2 * d);
    lemma_fundamental_div_mod(p, 2 * d);
    lemma_mod_bound(p, 2 * d);
    lemma_div_pos_is_pos(p, 2 * d);
    assert((2 * d) * q == 2 * (d * q) && (2 * q) * d == 2 * (d * q) && (2 * q + 1) * d == 2 * (d
        * q) + d && q * (2 * d) == 2 * (d * q) && 0 <= d * q) by (nonlinear_arith)
        requires
            0 <= q,
            1 <= d,
    ;
    let lo = low_of(p, d);
    if r < d {
        lemma_fundamental_div_mod_converse(p, d, 2 * q, r);
        lemma_fundamental_div_mod_converse(lo + d, 2 * d, q, r + d);
    } else {
        lemma_fundamental_div_mod_converse(p, d, 2 * q + 1, r - d);
        lemma_fundamental_div_mod_converse(lo, 2 * d, q, r - d);
    }
}

/// A granule lies within one block: positions with the same granule number
/// have the same block number, where a block is `w` granules.
proof fn lemma_granule_in_block(p: int, g: int, w: int)
    requires
        0 <= p,
        1 <= g,
        1 <= w,
    ensures
        p / (g * w) == (p / g) / w,
{
    lemma_div_denominator(p, g, w);
}

/// Where the number of elements is a multiple of the granule size, the
/// granule of every position lies within the elements.
proof fn lemma_granule_within(p: int, g: int, n: int)
    requires
        1 <= g,
        0 <= p < n,
        n % g == 0,
    ensures
        0 <= (p / g) * g <= p < (p / g) * g + g <= n,
{
    let q = p / g;
    let m = n / g;
    lemma_fundamental_div_mod(p, g);
    lemma_fundamental_div_mod(n, g);
    lemma_mod_bound(p, g);
    lemma_div_pos_is_pos(p, g);
    lemma_div_is_ordered(p, n, g);
    assert(q * g == g * q) by (nonlinear_arith);
    if q == m {
        assert(g * q == g * m);
    } else {
        assert(g * q + g <= g * m) by (nonlinear_arith)
            requires
                q + 1 <= m,
                1 <= g,
        ;
    }
}

/// Positions in granules with different numbers are ordered as their
/// granules are.
proof fn lemma_granule_order(i: int, j: int, g: int)
    requires
        1 <= g,
        0 <= i,
        0 <= j,
        i / g < j / g,
    ensures
        i < j,
{
    if j <= i {
        lemma_div_is_ordered(j, i, g);
    }
}

/// The key at `p` lies above the threshold `t`.
pub open spec fn above(s: Seq<u32>, t: int, p: int) -> bool {
    s[p] > t
}

/// Two truth values, the first from the lower position, stand in the wanted
/// order: ascending, what is above the threshold comes last; descending, it
/// comes first.
pub open spec fn in_order(ascending: bool, lower: bool, upper: bool) -> bool {
    if ascending {
        lower ==> upper
    } else {
        upper ==> lower
    }
}

/// The truth value at `p` of the pattern that is `c` from `x` up to `y` and
/// the opposite elsewhere.
pub open spec fn in_run(c: bool, x: int, y: int, p: int) -> bool {
    (x <= p < y) == c
}

/// Against the threshold `t`, the keys from `from` up to `to` follow the
/// pattern that is `c` from `x` up to `y` and the opposite elsewhere.
pub open spec fn is_run(s: Seq<u32>, t: int, from: int, to: int, c: bool, x: int, y: int) -> bool {
    &&& from <= x <= y <= to
    &&& forall|p: int| from <= p < to ==> #[trigger] above(s, t, p) == in_run(c, x, y, p)
}

/// Against the threshold `t`, the keys from `from` up to `to` are bitonic:
/// they change sides at most twice.
pub open spec fn bitonic(s: Seq<u32>, t: int, from: int, to: int) -> bool {
    exists|c: bool, x: int, y: int| #[trigger] is_run(s, t, from, to, c, x, y)
}

/// What a comparator at distance `d` makes of the pair at `p` and `p + d`,
/// seen against the threshold `t`: the side that is to hold the smaller key is
/// above the threshold only if both keys were, the other side if either was.
pub open spec fn half_step(
    s: Seq<u32>,
    next: Seq<u32>,
    t: int,
    d: int,
    ascending: bool,
    p: int,
) -> bool {
    let a = above(s, t, p);
    let b = above(s, t, p + d);
    &&& above(next, t, p) == (if ascending {
        a && b
    } else {
        a || b
    })
    &&& above(next, t, p + d) == (if ascending {
        a || b
    } else {
        a && b
    })
}

/// Folding a pattern of length `2 * d` onto itself. Both the conjunction and
/// the disjunction of the two halves are again such patterns, and either the
/// conjunction is false throughout or the disjunction is true throughout.
proof fn lemma_fold_run(c: bool, x: int, y: int, d: int) -> (w: (
    (bool, int, int),
    (bool, int, int),
))
    requires
        1 <= d,
        0 <= x <= y <= 2 * d,
    ensures
        0 <= w.0.1 <= w.0.2 <= d,
        0 <= w.1.1 <= w.1.2 <= d,
        forall|p: int|
            0 <= p < d ==> (in_run(c, x, y, p) && in_run(c, x, y, p + d)) == #[trigger] in_run(
                w.0.0,
                w.0.1,
                w.0.2,
                p,
            ),
        forall|p: int|
            0 <= p < d ==> (in_run(c, x, y, p) || in_run(c, x, y, p + d)) == #[trigger] in_run(
                w.1.0,
                w.1.1,
                w.1.2,
                p,
            ),
        (forall|p: int| 0 <= p < d ==> !#[trigger] in_run(w.0.0, w.0.1, w.0.2, p)) || (forall|
            p: int,
        |
            0 <= p < d ==> #[trigger] in_run(w.1.0, w.1.1, w.1.2, p)),
{
    let nothing = (true, 0int, 0int);
    let everything = (true, 0int, d);
    if c {
        if y - x >= d {
            ((true, x, y - d), everything)
        } else if y <= d {
            (nothing, (true, x, y))
        } else if x >= d {
            (nothing, (true, x - d, y - d))
        } else {
            (nothing, (false, y - d, x))
        }
    } else {
        if y - x >= d {
            (nothing, (false, x, y - d))
        } else if y <= d {
            ((false, x, y), everything)
        } else if x >= d {
            ((false, x - d, y - d), everything)
        } else {
            ((true, y - d, x), everything)
        }
    }
}

/// One comparator step over a bitonic granule of `2 * d` keys leaves two
/// bitonic halves, and every key of the lower half in the wanted order with
/// every key of the upper half.
pub proof fn lemma_half_clean(
    s: Seq<u32>,
    next: Seq<u32>,
    t: int,
    start: int,
    d: int,
    ascending: bool,
)
    requires
        1 <= d,
        bitonic(s, t, start, start + 2 * d),
        forall|p: int| start <= p < start + d ==> #[trigger] half_step(s, next, t, d, ascending, p),
    ensures
        bitonic(next, t, start, start + d),
        bitonic(next, t, start + d, start + 2 * d),
        forall|i: int, j: int|
            start <= i < start + d <= j < start + 2 * d ==> in_order(
                ascending,
                #[trigger] above(next, t, i),
                #[trigger] above(next, t, j),
            ),
{
    let (c, x, y) = choose|c: bool, x: int, y: int|
        #[trigger] is_run(s, t, start, start + 2 * d, c, x, y);
    let w = lemma_fold_run(c, x - start, y - start, d);
    let (and_c, and_x, and_y) = w.0;
    let (or_c, or_x, or_y) = w.1;
    let (low_c, low_x, low_y) = if ascending {
        w.0
    } else {
        w.1
    };
    let (high_c, high_x, high_y) = if ascending {
        w.1
    } else {
        w.0
    };
    assert forall|p: int| start <= p < start + d implies #[trigger] above(next, t, p) == in_run(
        low_c,
        low_x + start,
        low_y + start,
        p,
    ) by {
        assert(half_step(s, next, t, d, ascending, p));
        assert(above(s, t, p) == in_run(c, x - start, y - start, p - start));
        assert(above(s, t, p + d) == in_run(c, x - start, y - start, p - start + d));
        assert(in_run(low_c, low_x, low_y, p - start) == in_run(
            low_c,
            low_x + start,
            low_y + start,
            p,
        ));
    }
    assert(is_run(next, t, start, start + d, low_c, low_x + start, low_y + start));
    assert forall|p: int| start + d <= p < start + 2 * d implies #[trigger] above(next, t, p)
        == in_run(high_c, high_x + start + d, high_y + start + d, p) by {
        assert(half_step(s, next, t, d, ascending, p - d));
        assert(above(s, t, p - d) == in_run(c, x - start, y - start, p - d - start));
        assert(above(s, t, p) == in_run(c, x - start, y - start, p - d - start + d));
        assert(in_run(high_c, high_x, high_y, p - d - start) == in_run(
            high_c,
            high_x + start + d,
            high_y + start + d,
            p,
        ));
    }
    assert(is_run(
        next,
        t,
        start + d,
        start + 2 * d,
        high_c,
        high_x + start + d,
        high_y + start + d,
    ));
    assert forall|i: int, j: int| start <= i < start + d <= j < start + 2 * d implies in_order(
        ascending,
        #[trigger] above(next, t, i),
        #[trigger] above(next, t, j),
    ) by {
        assert(half_step(s, next, t, d, ascending, i));
        assert(half_step(s, next, t, d, ascending, j - d));
        assert(above(s, t, i) == in_run(c, x - start, y - start, i - start));
        assert(above(s, t, i + d) == in_run(c, x - start, y - start, i - start + d));
        assert(above(s, t, j - d) == in_run(c, x - start, y - start, j - d - start));
        assert(above(s, t, j) == in_run(c, x - start, y - start, j - d - start + d));
        let conj_i = in_run(and_c, and_x, and_y, i - start);
        let conj_j = in_run(and_c, and_x, and_y, j - d - start);
        let disj_i = in_run(or_c, or_x, or_y, i - start);
        let disj_j = in_run(or_c, or_x, or_y, j - d - start);
        assert(!conj_i && !conj_j || disj_i && disj_j);
    }
}

/// Against the threshold `t`, the granule of size `g` that holds `p` is
/// bitonic.
pub open spec fn granule_bitonic(s: Seq<u32>, t: int, g: int, p: int) -> bool {
    bitonic(s, t, (p / g) * g, (p / g) * g + g)
}

/// Against the threshold `t`, the keys at `i` and at `j`, `i` before `j`,
/// stand in the order wanted for the block of `i`.
pub open spec fn pair_in_order(s: Seq<u32>, t: int, block_size: int, i: int, j: int) -> bool {
    in_order(ascending_at(i, block_size), above(s, t, i), above(s, t, j))
}

/// How far the merge of every block has come, seen against the threshold `t`:
/// every granule of size `g` is bitonic, and within a block the granules stand
/// in the order wanted for the block. With granules of one key this says that
/// every block is sorted.
pub open spec fn merged(s: Seq<u32>, t: int, block_size: int, g: int) -> bool {
    &&& forall|p: int| 0 <= p < s.len() ==> #[trigger] granule_bitonic(s, t, g, p)
    &&& forall|i: int, j: int|
        0 <= i < j < s.len() && i / block_size == j / block_size && i / g != j / g
            ==> #[trigger] pair_in_order(s, t, block_size, i, j)
}

/// The positions of a granule have its number.
proof fn lemma_granule_member(q: int, d: int, p: int)
    requires
        0 <= q,
        1 <= d,
        q * (2 * d) <= p < q * (2 * d) + 2 * d,
    ensures
        p / (2 * d) == q,
        is_low(p, d) <==> p < q * (2 * d) + d,
{
    lemma_fundamental_div_mod_converse(p, 2 * d, q, p - q * (2 * d));
}

/// What a stage does to the pair at `p` and `p + d`, seen against a
/// threshold.
proof fn lemma_stage_half_step(s: Seq<u32>, t: int, block_size: int, d: int, p: int)
    requires
        1 <= d,
        0 <= p,
        is_low(p, d),
        p + d < s.len(),
    ensures
        half_step(s, stage_apply(s, s, block_size, d), t, d, ascending_at(p, block_size), p),
{
    lemma_granule_split(p, d);
    let next = stage_apply(s, s, block_size, d);
    assert(next[p] == s[stage_source(s, block_size, d, p)]);
    assert(next[p + d] == s[stage_source(s, block_size, d, p + d)]);
}

/// A stage at distance `d` over a granule of `2 * d` keys that was bitonic:
/// both halves are bitonic after it, and every key of the lower half stands
/// in the order wanted for the block with every key of the upper half.
proof fn lemma_granule_cleaned(s: Seq<u32>, t: int, d: int, w: int, p: int)
    requires
        1 <= d,
        1 <= w,
        (s.len() as int) % (2 * d) == 0,
        0 <= p < s.len(),
        granule_bitonic(s, t, 2 * d, p),
    ensures
        ({
            let block_size = 2 * d * w;
            let next = stage_apply(s, s, block_size, d);
            let start = (p / (2 * d)) * (2 * d);
            &&& bitonic(next, t, start, start + d)
            &&& bitonic(next, t, start + d, start + 2 * d)
            &&& forall|i: int, j: int|
                start <= i < start + d <= j < start + 2 * d ==> in_order(
                    ascending_at(p, block_size),
                    #[trigger] above(next, t, i),
                    #[trigger] above(next, t, j),
                )
        }),
{
    let block_size = 2 * d * w;
    let next = stage_apply(s, s, block_size, d);
    let q = p / (2 * d);
    let start = q * (2 * d);
    lemma_granule_split(p, d);
    lemma_granule_within(p, 2 * d, s.len() as int);
    lemma_granule_in_block(p, 2 * d, w);
    assert forall|lo: int| start <= lo < start + d implies #[trigger] half_step(
        s,
        next,
        t,
        d,
        ascending_at(p, block_size),
        lo,
    ) by {
        lemma_granule_member(q, d, lo);
        lemma_granule_in_block(lo, 2 * d, w);
        lemma_stage_half_step(s, t, block_size, d, lo);
    }
    lemma_half_clean(s, next, t, start, d, ascending_at(p, block_size));
}

/// A stage at distance `d` carries the merge from granules of `2 * d` keys to
/// granules of `d` keys, in blocks of `w` granules.
pub proof fn lemma_stage_merges(s: Seq<u32>, t: int, d: int, w: int)
    requires
        1 <= d,
        1 <= w,
        (s.len() as int) % (2 * d) == 0,
        merged(s, t, 2 * d * w, 2 * d),
    ensures
        merged(stage_apply(s, s, 2 * d * w, d), t, 2 * d * w, d),
{
    let block_size = 2 * d * w;
    let n = s.len() as int;
    let next = stage_apply(s, s, block_size, d);
    assert forall|p: int| 0 <= p < next.len() implies #[trigger] granule_bitonic(next, t, d, p) by {
        assert(granule_bitonic(s, t, 2 * d, p));
        lemma_granule_cleaned(s, t, d, w, p);
        lemma_granule_split(p, d);
    }
    assert forall|i: int, j: int|
        0 <= i < j < next.len() && i / block_size == j / block_size && i / d != j
            / d implies #[trigger] pair_in_order(next, t, block_size, i, j) by {
        lemma_granule_split(i, d);
        lemma_granule_split(j, d);
        lemma_div_is_ordered(i, j, d);
        lemma_div_is_ordered(i, j, 2 * d);
        if i / (2 * d) == j / (2 * d) {
            assert(granule_bitonic(s, t, 2 * d, i));
            lemma_granule_cleaned(s, t, d, w, i);
        } else {
            let from_i = stage_source(s, block_size, d, i);
            let from_j = stage_source(s, block_size, d, j);
            lemma_granule_within(i, 2 * d, n);
            lemma_granule_within(j, 2 * d, n);
            lemma_granule_member(i / (2 * d), d, from_i);
            lemma_granule_member(j / (2 * d), d, from_j);
            lemma_granule_order(from_i, from_j, 2 * d);
            lemma_granule_in_block(i, 2 * d, w);
            lemma_granule_in_block(j, 2 * d, w);
            lemma_granule_in_block(from_i, 2 * d, w);
            lemma_granule_in_block(from_j, 2 * d, w);
            assert(pair_in_order(s, t, block_size, from_i, from_j));
            assert(above(next, t, i) == above(s, t, from_i));
            assert(above(next, t, j) == above(s, t, from_j));
        }
    }
}

/// The first position from `from` up to `to` whose key is above the threshold
/// if `wanted`, or is not if not; `to` where there is none.
pub open spec fn first_side(s: Seq<u32>, t: int, wanted: bool, from: int, to: int) -> int
    decreases to - from,
{
    if from >= to {
        to
    } else if above(s, t, from) == wanted {
        from
    } else {
        first_side(s, t, wanted, from + 1, to)
    }
}

/// `first_side` finds what it names: a position within the range, on the
/// wanted side if it is not the range's end, with nothing on that side before
/// it.
proof fn lemma_first_side(s: Seq<u32>, t: int, wanted: bool, from: int, to: int)
    requires
        from <= to,
    ensures
        from <= first_side(s, t, wanted, from, to) <= to,
        first_side(s, t, wanted, from, to) < to ==> above(
            s,
            t,
            first_side(s, t, wanted, from, to),
        ) == wanted,
        forall|p: int|
            from <= p < first_side(s, t, wanted, from, to) ==> #[trigger] above(s, t, p)
                != wanted,
    decreases to - from,
{
    if from < to && above(s, t, from) != wanted {
        lemma_first_side(s, t, wanted, from + 1, to);
    }
}

/// Keys taken one by one are merged, whatever the block size.
proof fn lemma_singles_merged(s: Seq<u32>, t: int)
    ensures
        merged(s, t, 1, 1),
{
    assert forall|p: int| 0 <= p < s.len() implies #[trigger] granule_bitonic(s, t, 1, p) by {
        if above(s, t, p) {
            assert(is_run(s, t, p, p + 1, true, p, p + 1));
        } else {
            assert(is_run(s, t, p, p + 1, true, p, p));
        }
    }
}

/// Sorted blocks of `b` keys, ascending and descending in turn, are bitonic
/// blocks of `2 * b` keys: the merge of the larger blocks can begin.
pub proof fn lemma_sorted_blocks_merge(s: Seq<u32>, t: int, b: int)
    requires
        1 <= b,
        (s.len() as int) % (2 * b) == 0,
        merged(s, t, b, 1),
    ensures
        merged(s, t, 2 * b, 2 * b),
{
    let n = s.len() as int;
    assert forall|p: int| 0 <= p < s.len() implies #[trigger] granule_bitonic(s, t, 2 * b, p) by {
        let q = p / (2 * b);
        let start = q * (2 * b);
        lemma_granule_split(p, b);
        lemma_granule_within(p, 2 * b, n);
        let x = first_side(s, t, true, start, start + b);
        let y = first_side(s, t, false, start + b, start + 2 * b);
        lemma_first_side(s, t, true, start, start + b);
        lemma_first_side(s, t, false, start + b, start + 2 * b);
        assert forall|i: int| start <= i < start + 2 * b implies #[trigger] above(s, t, i)
            == in_run(true, x, y, i) by {
            lemma_granule_member(q, b, i);
            lemma_granule_split(i, b);
            if x <= i < start + b {
                if x < i {
                    lemma_granule_member(q, b, x);
                    lemma_granule_split(x, b);
                    assert(pair_in_order(s, t, b, x, i));
                }
            } else if y < i {
                lemma_granule_member(q, b, y);
                lemma_granule_split(y, b);
                assert(pair_in_order(s, t, b, y, i));
            }
        }
        assert(is_run(s, t, start, start + 2 * b, true, x, y));
    }
}

/// A sequence that is merged against every threshold as one block, key by
/// key, is in ascending order.
pub proof fn lemma_merged_is_sorted(s: Seq<u32>)
    requires
        forall|t: int| #[trigger] merged(s, t, s.len() as int, 1),
    ensures
        ascending(s),
{
    let n = s.len() as int;
    assert forall|i: int, j: int| 0 <= i <= j < s.len() implies s[i] <= s[j] by {
        if i < j && s[i] > s[j] {
            let t = s[j] as int;
            assert(merged(s, t, n, 1));
            lemma_fundamental_div_mod_converse(i, n, 0, i);
            lemma_fundamental_div_mod_converse(j, n, 0, j);
            assert(pair_in_order(s, t, n, i, j));
            assert(above(s, t, i));
            assert(!above(s, t, j));
        }
    }
}

/// The keys stand in ascending order.
pub open spec fn ascending(s: Seq<u32>) -> bool {
    forall|i: int, j: int| 0 <= i <= j < s.len() ==> s[i] <= s[j]
}

/// In ascending order the sentinels come last: after a slot that holds the
/// sentinel key, every slot does.
pub proof fn lemma_sentinels_last(s: Seq<u32>, p: int, q: int)
    requires
        ascending(s),
        0 <= p <= q < s.len(),
        s[p] == SENTINEL_KEY,
    ensures
        s[q] == SENTINEL_KEY,
{
}

/// `n` is a power of two.
pub open spec fn is_power_of_two(n: nat) -> bool {
    exists|e: nat| n == #[trigger] pow2(e)
}

/// A stage moves entries and makes none: the run of a plan keeps the length.
pub proof fn lemma_run_plan_len<T>(keys: Seq<u32>, items: Seq<T>, plan: Seq<(nat, nat)>)
    ensures
        run_plan(keys, items, plan).len() == items.len(),
    decreases plan.len(),
{
    if plan.len() > 0 {
        lemma_run_plan_len(keys, items, plan.drop_last());
    }
}

/// A smaller power of two divides a larger one.
proof fn lemma_pow2_divides(e: nat, l: nat)
    requires
        e <= l,
    ensures
        (pow2(l) as int) % (pow2(e) as int) == 0,
        pow2(e) >= 1,
{
    lemma_pow2_pos(e);
    lemma_pow2_adds((l - e) as nat, e);
    lemma_mod_multiples_basic(pow2((l - e) as nat) as int, pow2(e) as int);
}

/// The plan up to stage `u` of outer step `k`.
pub open spec fn plan_upto(k: nat, u: nat) -> Seq<(nat, nat)> {
    plan_steps(k) + step_stages(k).take(u as int)
}

/// How far the network has come after the first `u` stages of outer step `k`:
/// blocks of `2^(k + 1)` keys are being merged, and granules of
/// `2^(k + 1 - u)` keys are bitonic and in order within their block.
pub proof fn lemma_plan_merges(keys: Seq<u32>, l: nat, k: nat, u: nat, t: int)
    requires
        keys.len() == pow2(l),
        k < l,
        u <= k + 1,
    ensures
        merged(
            run_plan(keys, keys, plan_upto(k, u)),
            t,
            pow2(k + 1) as int,
            pow2((k + 1 - u) as nat) as int,
        ),
    decreases k, u,
{
    lemma2_to64();
    lemma_pow2_unfold(k + 1);
    lemma_pow2_pos(k);
    lemma_pow2_divides(k + 1, l);
    if u == 0 {
        assert(plan_upto(k, 0) =~= plan_steps(k));
        let s = run_plan(keys, keys, plan_steps(k));
        lemma_run_plan_len(keys, keys, plan_steps(k));
        if k == 0 {
            assert(s == keys);
            lemma_singles_merged(s, t);
        } else {
            let before = (k - 1) as nat;
            lemma_plan_merges(keys, l, before, k, t);
            assert(step_stages(before).take(k as int) =~= step_stages(before));
            assert(plan_upto(before, k) =~= plan_steps(k));
        }
        lemma_sorted_blocks_merge(s, t, pow2(k) as int);
    } else {
        let done = (u - 1) as nat;
        let earlier = plan_upto(k, done);
        let s = run_plan(keys, keys, earlier);
        lemma_plan_merges(keys, l, k, done, t);
        lemma_run_plan_len(keys, keys, earlier);
        let d = pow2((k + 1 - u) as nat) as int;
        let w = pow2(done) as int;
        lemma_pow2_pos((k + 1 - u) as nat);
        lemma_pow2_pos(done);
        lemma_pow2_unfold((k + 2 - u) as nat);
        lemma_pow2_adds((k + 2 - u) as nat, done);
        lemma_pow2_divides((k + 2 - u) as nat, l);
        assert(2 * d * w == pow2(k + 1)) by {
            assert(pow2(k + 1) == pow2((k + 2 - u) as nat) * pow2(done));
            assert(pow2((k + 2 - u) as nat) == 2 * d);
        }
        assert(plan_upto(k, u).drop_last() =~= earlier);
        assert(plan_upto(k, u).last() == step_stages(k)[done as int]);
        assert(run_plan(keys, keys, plan_upto(k, u)) == stage_apply(s, s, 2 * d * w, d));
        lemma_stage_merges(s, t, d, w);
    }
}

/// A stage exchanges entries in pairs: where the entry at `p` comes from, the
/// entry from `p` goes to.
pub proof fn lemma_stage_exchanges(s: Seq<u32>, block_size: int, d: int, p: int)
    requires
        1 <= d,
        0 <= p < s.len(),
    ensures
        0 <= stage_source(s, block_size, d, p) < s.len(),
        stage_source(s, block_size, d, stage_source(s, block_size, d, p)) == p,
{
    lemma_granule_split(p, d);
}

/// Where the entry comes from that stands at `p` after the stages of `plan`,
/// run in order on `keys`.
pub open spec fn run_source(keys: Seq<u32>, plan: Seq<(nat, nat)>, p: int) -> int
    decreases plan.len(),
{
    if plan.len() == 0 {
        p
    } else {
        run_source(
            keys,
            plan.drop_last(),
            stage_source(
                run_plan(keys, keys, plan.drop_last()),
                plan.last().0 as int,
                plan.last().1 as int,
                p,
            ),
        )
    }
}

/// The run of a plan rearranges: every entry of the result is the entry of
/// the input that `run_source` names, keys and their companions alike, and no
/// entry of the input is named twice.
pub proof fn lemma_run_rearranges<T>(keys: Seq<u32>, items: Seq<T>, plan: Seq<(nat, nat)>)
    requires
        items.len() == keys.len(),
        forall|i: int| 0 <= i < plan.len() ==> (#[trigger] plan[i]).1 >= 1,
    ensures
        forall|p: int|
            0 <= p < keys.len() ==> 0 <= #[trigger] run_source(keys, plan, p) < keys.len(),
        forall|p: int|
            0 <= p < keys.len() ==> run_plan(keys, items, plan)[p] == items[#[trigger] run_source(
                keys,
                plan,
                p,
            )],
        forall|p: int, q: int|
            0 <= p < q < keys.len() ==> #[trigger] run_source(keys, plan, p)
                != #[trigger] run_source(keys, plan, q),
    decreases plan.len(),
{
    if plan.len() > 0 {
        let earlier = plan.drop_last();
        let b = plan.last().0 as int;
        let d = plan.last().1 as int;
        let s = run_plan(keys, keys, earlier);
        lemma_run_rearranges(keys, items, earlier);
        lemma_run_plan_len(keys, keys, earlier);
        lemma_run_plan_len(keys, items, earlier);
        assert forall|p: int| 0 <= p < keys.len() implies 0 <= #[trigger] run_source(
            keys,
            plan,
            p,
        ) < keys.len() && run_plan(keys, items, plan)[p] == items[run_source(keys, plan, p)] by {
            lemma_stage_exchanges(s, b, d, p);
            let from = stage_source(s, b, d, p);
            assert(0 <= run_source(keys, earlier, from) < keys.len());
        }
        assert forall|p: int, q: int| 0 <= p < q < keys.len() implies #[trigger] run_source(
            keys,
            plan,
            p,
        ) != #[trigger] run_source(keys, plan, q) by {
            lemma_stage_exchanges(s, b, d, p);
            lemma_stage_exchanges(s, b, d, q);
            let from_p = stage_source(s, b, d, p);
            let from_q = stage_source(s, b, d, q);
            if from_p < from_q {
                assert(run_source(keys, earlier, from_p) != run_source(keys, earlier, from_q));
            } else {
                assert(run_source(keys, earlier, from_q) != run_source(keys, earlier, from_p));
            }
        }
    }
}

/// The network sorts: run on a power-of-two number of keys, whatever they
/// are, the plan for that many keys leaves them in ascending order.
pub proof fn lemma_network_sorts(keys: Seq<u32>)
    requires
        is_power_of_two(keys.len()),
    ensures
        ascending(run_plan(keys, keys, sort_plan(keys.len()))),
{
    let l = choose|e: nat| keys.len() == #[trigger] pow2(e);
    let n = keys.len();
    lemma_floor_log2_of_pow2(l);
    let out = run_plan(keys, keys, sort_plan(n));
    lemma_run_plan_len(keys, keys, sort_plan(n));
    lemma2_to64();
    if l == 0 {
        assert(out.len() == 1);
    } else {
        let k = (l - 1) as nat;
        assert forall|t: int| #[trigger] merged(out, t, out.len() as int, 1) by {
            lemma_plan_merges(keys, l, k, l, t);
            assert(step_stages(k).take(l as int) =~= step_stages(k));
            assert(plan_upto(k, l) =~= plan_steps(l));
        }
        lemma_merged_is_sorted(out);
    }
}

} // verus!
