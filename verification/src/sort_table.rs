//! The uniform table of the sort: one parameter block per stage, each at its
//! own aligned offset, so that a stage is selected by a dynamic offset alone.

use vstd::prelude::*;
use crate::bytes::{block_bytes, in_machine_order};
use crate::sort_plan::{
    is_stage_list,
    sort_plan,
    sort_stage_parameters,
    stage_params,
    SortStage,
    SortUniforms,
    SORT_UNIFORM_ALIGNMENT,
    SORT_UNIFORM_SIZE,
};

verus! {

/// The four words of a stage's parameter block: element count, block size,
/// comparison distance, and a zero word that fills the block.
pub open spec fn stage_words(params: SortUniforms) -> Seq<u32> {
    seq![params.element_count, params.block_size, params.comparison_distance, 0u32]
}

/// Length of a table of `count` blocks: nothing for no block, else up to the
/// end of the last block.
pub open spec fn table_len(count: nat) -> nat {
    if count == 0 {
        0
    } else {
        ((count - 1) * SORT_UNIFORM_ALIGNMENT + SORT_UNIFORM_SIZE) as nat
    }
}

/// The bytes of `data` that make up block `i`.
pub open spec fn table_block(data: Seq<u8>, i: int) -> Seq<u8> {
    data.subrange(i * SORT_UNIFORM_ALIGNMENT, i * SORT_UNIFORM_ALIGNMENT + SORT_UNIFORM_SIZE)
}

/// `data` is the table of `blocks`: block `i` stands at byte `256 * i`, and
/// every byte between two blocks is zero.
pub open spec fn is_table_of(data: Seq<u8>, blocks: Seq<Seq<u8>>) -> bool {
    &&& data.len() == table_len(blocks.len())
    &&& forall|i: int| 0 <= i < blocks.len() ==> #[trigger] table_block(data, i) == blocks[i]
    &&& forall|p: int|
        0 <= p < data.len() && p % (SORT_UNIFORM_ALIGNMENT as int) >= SORT_UNIFORM_SIZE
            ==> #[trigger] data[p] == 0
}

/// `data` is the uniform table of the sort over `n` elements: as long as the
/// plan's blocks laid out, block `i` holding the four words of stage `i` in
/// the machine's byte order, and every byte between two blocks zero.
pub open spec fn is_sort_table(data: Seq<u8>, n: nat) -> bool {
    &&& data.len() == table_len(sort_plan(n).len())
    &&& forall|i: int|
        0 <= i < sort_plan(n).len() ==> in_machine_order(
            #[trigger] table_block(data, i),
            stage_words(stage_params(n, i)),
        )
    &&& forall|p: int|
        0 <= p < data.len() && p % (SORT_UNIFORM_ALIGNMENT as int) >= SORT_UNIFORM_SIZE
            ==> #[trigger] data[p] == 0
}

/// A stage finds its own parameters: the sixteen bytes of the table at the
/// offset that stage `i` binds hold the parameters of stage `i` of the plan.
pub proof fn lemma_stage_finds_its_block(stages: Seq<SortStage>, data: Seq<u8>, n: nat, i: int)
    requires
        is_stage_list(stages, n),
        is_sort_table(data, n),
        0 <= i < stages.len(),
    ensures
        stages[i].dynamic_offset + SORT_UNIFORM_SIZE <= data.len(),
        in_machine_order(
            data.subrange(
                stages[i].dynamic_offset as int,
                stages[i].dynamic_offset + SORT_UNIFORM_SIZE,
            ),
            stage_words(stage_params(n, i)),
        ),
{
    assert(in_machine_order(table_block(data, i), stage_words(stage_params(n, i))));
}

/// The views of the byte strings in `blocks`.
pub open spec fn block_views(blocks: Seq<Vec<u8>>) -> Seq<Seq<u8>> {
    blocks.map_values(|b: Vec<u8>| b@)
}

/// Lays encoded parameter blocks out as a table: block `i` at byte `256 * i`,
/// zeros between the blocks, and nothing after the last one.
pub fn lay_out_blocks(blocks: &Vec<Vec<u8>>) -> (data: Vec<u8>)
    requires
        blocks@.len() * SORT_UNIFORM_ALIGNMENT <= usize::MAX,
        forall|i: int| 0 <= i < blocks@.len() ==> (#[trigger] blocks@[i])@.len() == SORT_UNIFORM_SIZE,
    ensures
        is_table_of(data@, block_views(blocks@)),
        data@.len() % 4 == 0,
{
    let mut data: Vec<u8> = Vec::new();
    let mut stage_index: usize = 0;
    while stage_index < blocks.len()
        invariant
            stage_index <= blocks@.len(),
            blocks@.len() * SORT_UNIFORM_ALIGNMENT <= usize::MAX,
            forall|i: int|
                0 <= i < blocks@.len() ==> (#[trigger] blocks@[i])@.len() == SORT_UNIFORM_SIZE,
            data@.len() == table_len(stage_index as nat),
            forall|i: int|
                0 <= i < stage_index ==> #[trigger] table_block(data@, i) == blocks@[i]@,
            forall|p: int|
                0 <= p < data@.len() && p % (SORT_UNIFORM_ALIGNMENT as int) >= SORT_UNIFORM_SIZE
                    ==> #[trigger] data@[p] == 0,
        decreases blocks@.len() - stage_index,
    {
        let offset_in_bytes: usize = stage_index * (SORT_UNIFORM_ALIGNMENT as usize);
        let ghost before = data@;
        while data.len() < offset_in_bytes
            invariant
                stage_index > 0 ==> data@.len() <= offset_in_bytes,
                stage_index > 0 ==> table_len(stage_index as nat) <= data@.len(),
                stage_index == 0 ==> data@.len() == 0,
                offset_in_bytes == stage_index * SORT_UNIFORM_ALIGNMENT,
                before.len() == table_len(stage_index as nat),
                before == data@.subrange(0, before.len() as int),
                forall|p: int| before.len() <= p < data@.len() ==> #[trigger] data@[p] == 0,
            decreases offset_in_bytes - data@.len(),
        {
            data.push(0);
        }
        let block = &blocks[stage_index];
        let ghost padded = data@;
        let mut k: usize = 0;
        while k < block.len()
            invariant
                k <= block@.len(),
                block@.len() == SORT_UNIFORM_SIZE,
                data@.len() == padded.len() + k,
                padded == data@.subrange(0, padded.len() as int),
                forall|j: int| 0 <= j < k ==> #[trigger] data@[padded.len() + j] == block@[j],
            decreases block@.len() - k,
        {
            data.push(block[k]);
            k = k + 1;
        }
        proof {
            let at = stage_index as int;
            assert(padded.len() == at * SORT_UNIFORM_ALIGNMENT);
            assert forall|j: int| 0 <= j < block@.len() implies table_block(data@, at)[j]
                == block@[j] by {
                assert(data@[padded.len() + j] == block@[j]);
            }
            assert(table_block(data@, at) =~= block@);
            assert forall|i: int| 0 <= i < at implies #[trigger] table_block(data@, i)
                == blocks@[i]@ by {
                assert(table_block(before, i) == blocks@[i]@);
                assert(table_block(data@, i) =~= table_block(before, i));
            }
            assert forall|p: int|
                0 <= p < data@.len() && p % (SORT_UNIFORM_ALIGNMENT as int)
                    >= SORT_UNIFORM_SIZE implies #[trigger] data@[p] == 0 by {
                if p < before.len() {
                    assert(data@[p] == before[p]);
                } else if p < padded.len() {
                    assert(data@[p] == padded[p]);
                }
            }
        }
        stage_index = stage_index + 1;
    }
    proof {
        let views = block_views(blocks@);
        assert forall|i: int| 0 <= i < views.len() implies #[trigger] table_block(data@, i)
            == views[i] by {
            assert(table_block(data@, i) == blocks@[i]@);
        }
    }
    data
}

/// The uniform table of the sort over `padded_count` elements, empty when
/// `stages` is: block `i` holds the parameters of stage `i` as four words in
/// the machine's byte order, at byte `256 * i`, with zeros between the blocks.
pub fn build_sort_uniform_data(padded_count: u32, stages: &[SortStage]) -> (data: Vec<u8>)
    ensures
        stages@.len() == 0 ==> data@.len() == 0,
        stages@.len() > 0 ==> is_sort_table(data@, padded_count as nat),
        data@.len() % 4 == 0,
{
    if stages.len() == 0 {
        return Vec::new();
    }
    let plan: Vec<SortUniforms> = sort_stage_parameters(padded_count);
    let mut blocks: Vec<Vec<u8>> = Vec::new();
    let mut stage_index: usize = 0;
    proof {
        crate::sort_plan::lemma_plan_bounded(padded_count as nat);
    }
    while stage_index < plan.len()
        invariant
            stage_index <= plan@.len(),
            blocks@.len() == stage_index,
            forall|i: int|
                0 <= i < blocks@.len() ==> in_machine_order(
                    (#[trigger] blocks@[i])@,
                    stage_words(plan@[i]),
                ),
        decreases plan@.len() - stage_index,
    {
        let params: SortUniforms = plan[stage_index];
        let words: [u32; 4] = [
            params.element_count,
            params.block_size,
            params.comparison_distance,
            0,
        ];
        assert(words@ =~= stage_words(params));
        let block: Vec<u8> = block_bytes(&words);
        blocks.push(block);
        stage_index = stage_index + 1;
    }
    let data: Vec<u8> = lay_out_blocks(&blocks);
    proof {
        assert forall|i: int|
            0 <= i < sort_plan(padded_count as nat).len() implies in_machine_order(
            #[trigger] table_block(data@, i),
            stage_words(stage_params(padded_count as nat, i)),
        ) by {
            assert(table_block(data@, i) == block_views(blocks@)[i]);
            assert(plan@[i] == stage_params(padded_count as nat, i));
        }
    }
    data
}

} // verus!
