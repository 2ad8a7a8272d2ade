//! Tensor geometry of the ConvNeXt layers: how a 1-D convolution changes the
//! length of its input, and what that makes of the stem, the downsampling layers
//! and the blocks.
use vstd::prelude::*;

verus! {

/// Output length of a 1-D convolution over an input of `length` positions padded
/// by `padding` on both sides, with a kernel of `kernel_size` taps moved `stride`
/// positions at a time.
pub open spec fn spec_conv_output_length(length: int, kernel_size: int, stride: int, padding: int) -> int {
    (length + 2 * padding - kernel_size) / stride + 1
}

/// The input, padded on both sides, covers the kernel at least once, and its
/// padded length fits in a `usize`.
pub open spec fn conv_input_fits(length: int, kernel_size: int, stride: int, padding: int) -> bool {
    &&& 0 < stride
    &&& 0 < kernel_size <= length + 2 * padding
    &&& length + 2 * padding <= usize::MAX
}

/// Output length of a 1-D convolution.
pub fn conv1d_output_length(length: usize, kernel_size: usize, stride: usize, padding: usize) -> (r: usize)
    requires
        conv_input_fits(length as int, kernel_size as int, stride as int, padding as int),
    ensures
        r == spec_conv_output_length(length as int, kernel_size as int, stride as int, padding as int),
        r == (length + 2 * padding - kernel_size) / (stride as int) + 1,
        1 <= r,
        (r - 1) * stride + kernel_size <= length + 2 * padding < r * stride + kernel_size,
{
    proof {
        lemma_conv_output_length_is_window_count(length as int, kernel_size as int, stride as int, padding as int);
    }
    let padded = length + 2 * padding;
    let span = padded - kernel_size;
    assert(span / stride <= span) by (nonlinear_arith)
        requires
            0 <= span,
            0 < stride,
    ;
    span / stride + 1
}

/// Shape `[batch, out_channels, length]` of a 1-D convolution's output for an input
/// of shape `[batch, _, length]`.
pub fn conv1d_output_shape(
    input: (usize, usize, usize),
    out_channels: usize,
    kernel_size: usize,
    stride: usize,
    padding: usize,
) -> (r: (usize, usize, usize))
    requires
        conv_input_fits(input.2 as int, kernel_size as int, stride as int, padding as int),
    ensures
        r.0 == input.0,
        r.1 == out_channels,
        r.2 == spec_conv_output_length(input.2 as int, kernel_size as int, stride as int, padding as int),
{
    (input.0, out_channels, conv1d_output_length(input.2, kernel_size, stride, padding))
}

/// The output length is the number of kernel windows, `stride` apart, that fit in
/// the input padded on both sides: the window of the last output position ends
/// inside the padded input, and one more window would not.
pub proof fn lemma_conv_output_length_is_window_count(length: int, kernel_size: int, stride: int, padding: int)
    requires
        conv_input_fits(length, kernel_size, stride, padding),
    ensures
        ({
            let n = spec_conv_output_length(length, kernel_size, stride, padding);
            &&& 1 <= n
            &&& (n - 1) * stride + kernel_size <= length + 2 * padding
            &&& length + 2 * padding < n * stride + kernel_size
        }),
{
    let span = length + 2 * padding - kernel_size;
    let q = span / stride;
    assert(q * stride <= span < q * stride + stride) by (nonlinear_arith)
        requires
            0 <= span,
            0 < stride,
            q == span / stride,
    ;
    assert(0 <= q) by (nonlinear_arith)
        requires
            0 <= span,
            0 < stride,
            q == span / stride,
    ;
    assert((q + 1) * stride == q * stride + stride) by (nonlinear_arith);
}

/// The window count is the only length with that property: any `n >= 1` whose last
/// window ends inside the padded input while one more window would not is the
/// output length.
pub proof fn lemma_conv_output_length_unique(length: int, kernel_size: int, stride: int, padding: int, n: int)
    requires
        conv_input_fits(length, kernel_size, stride, padding),
        1 <= n,
        (n - 1) * stride + kernel_size <= length + 2 * padding,
        length + 2 * padding < n * stride + kernel_size,
    ensures
        n == spec_conv_output_length(length, kernel_size, stride, padding),
{
    lemma_conv_output_length_is_window_count(length, kernel_size, stride, padding);
    let n0 = spec_conv_output_length(length, kernel_size, stride, padding);
    if n < n0 {
        assert(n * stride <= (n0 - 1) * stride) by (nonlinear_arith)
            requires
                n <= n0 - 1,
                0 < stride,
        ;
    } else if n > n0 {
        assert(n0 * stride <= (n - 1) * stride) by (nonlinear_arith)
            requires
                n0 <= n - 1,
                0 < stride,
        ;
    }
}

/// A convolution with an odd kernel `2 * padding + 1` and stride 1 keeps the
/// length of its input; so do the depthwise 7-tap convolution (padding 3) and the
/// pointwise convolutions of a ConvNeXt block, which therefore maps
/// `[batch, channels, length]` to `[batch, channels, length]`.
pub proof fn lemma_same_padding_keeps_length(length: int, padding: int)
    requires
        0 <= padding,
        1 <= length,
    ensures
        spec_conv_output_length(length, 2 * padding + 1, 1, padding) == length,
        spec_conv_output_length(length, 7, 1, 3) == length,
        spec_conv_output_length(length, 1, 1, 0) == length,
{
}

/// The downsampling convolution (kernel 2, stride 2, no padding) halves the
/// length: `[batch, in_channels, length]` becomes `[batch, out_channels, length / 2]`.
pub proof fn lemma_downsample_halves_length(length: int)
    requires
        2 <= length,
    ensures
        spec_conv_output_length(length, 2, 2, 0) == length / 2,
{
}

/// The patchify stem (kernel and stride `patch_size`, no padding) divides the
/// length by the patch size: `[batch, in_channels, length]` becomes
/// `[batch, out_channels, length / patch_size]`.
pub proof fn lemma_stem_divides_length(length: int, patch_size: int)
    requires
        1 <= patch_size <= length,
    ensures
        spec_conv_output_length(length, patch_size, patch_size, 0) == length / patch_size,
{
    assert((length - patch_size) / patch_size + 1 == length / patch_size) by (nonlinear_arith)
        requires
            1 <= patch_size <= length,
    ;
}

/// Every tap the convolution reads lies inside the padded input: output position
/// `out_pos` with tap `tap` reads padded position `out_pos * stride + tap`, which is
/// below the padded length.
pub proof fn lemma_conv_window_in_bounds(length: int, kernel_size: int, stride: int, padding: int, out_pos: int, tap: int)
    requires
        conv_input_fits(length, kernel_size, stride, padding),
        0 <= out_pos < spec_conv_output_length(length, kernel_size, stride, padding),
        0 <= tap < kernel_size,
    ensures
        0 <= out_pos * stride + tap < length + 2 * padding,
{
    let span = length + 2 * padding - kernel_size;
    assert(out_pos * stride <= span) by (nonlinear_arith)
        requires
            0 <= out_pos <= span / stride,
            0 < stride,
            0 <= span,
    ;
    assert(0 <= out_pos * stride) by (nonlinear_arith)
        requires
            0 <= out_pos,
            0 < stride,
    ;
}

/// In a grouped convolution, channel `offset` of group `group` lies inside the
/// channels: `group * (channels / groups) + offset < channels`.
pub proof fn lemma_group_channel_in_bounds(channels: int, groups: int, group: int, offset: int)
    requires
        0 <= channels,
        0 <= group < groups,
        0 <= offset < channels / groups,
    ensures
        0 <= group * (channels / groups) + offset < channels,
{
    let per = channels / groups;
    assert(group * per + offset < channels) by (nonlinear_arith)
        requires
            0 <= group < groups,
            0 <= offset < per,
            per == channels / groups,
            0 <= channels,
    ;
    assert(0 <= group * per) by (nonlinear_arith)
        requires
            0 <= group,
            0 <= per,
    ;
}

/// Sum of the first `k` stage depths.
pub open spec fn depth_sum(depths: Seq<usize>, k: int) -> int
    decreases k,
{
    if k <= 0 {
        0
    } else {
        depth_sum(depths, k - 1) + depths[k - 1]
    }
}

/// Prefix sums of depths grow with the prefix.
pub proof fn lemma_depth_sum_monotone(depths: Seq<usize>, j: int, k: int)
    requires
        0 <= j <= k <= depths.len(),
    ensures
        0 <= depth_sum(depths, j) <= depth_sum(depths, k),
    decreases k - j,
{
    if j < k {
        lemma_depth_sum_monotone(depths, j, k - 1);
    } else {
        lemma_depth_sum_nonnegative(depths, j);
    }
}

proof fn lemma_depth_sum_nonnegative(depths: Seq<usize>, k: int)
    ensures
        0 <= depth_sum(depths, k),
    decreases k,
{
    if k > 0 {
        lemma_depth_sum_nonnegative(depths, k - 1);
    }
}

/// How one stage of the network is built.
#[derive(Clone, Copy, Debug)]
pub struct StagePlan {
    /// Channels of the previous stage, which a downsampling layer maps to `dim`;
    /// `None` for the first stage, which has no downsampling.
    pub downsample_from: Option<usize>,
    /// Channels of the stage's blocks.
    pub dim: usize,
    /// Number of blocks in the stage.
    pub depth: usize,
    /// Index, over the whole network, of the stage's first block (the index of its
    /// drop-path rate).
    pub first_block: usize,
}

/// The stages of a network together with its total number of blocks.
pub struct ModelPlan {
    pub stages: Vec<StagePlan>,
    pub total_depth: usize,
}

/// Total number of blocks: the sum of all stage depths, or `None` when the sum does
/// not fit in a `usize`.
pub fn total_depth(depths: &Vec<usize>) -> (r: Option<usize>)
    ensures
        r is Some <==> depth_sum(depths@, depths.len() as int) <= usize::MAX,
        r matches Some(t) ==> t == depth_sum(depths@, depths.len() as int),
{
    let mut total: usize = 0;
    let mut k: usize = 0;
    while k < depths.len()
        invariant
            k <= depths.len(),
            total == depth_sum(depths@, k as int),
        decreases depths.len() - k,
    {
        match total.checked_add(depths[k]) {
            Some(t) => {
                total = t;
            },
            None => {
                proof {
                    lemma_depth_sum_monotone(depths@, k + 1, depths.len() as int);
                }
                return None;
            },
        }
        k = k + 1;
    }
    Some(total)
}

/// Lays out the stages of a network with channel dimensions `dims` and stage depths
/// `depths`: one stage per dimension, each after the first opening with a
/// downsampling layer from the previous dimension, and the blocks numbered in order
/// across the stages. The total depth counts every entry of `depths`; `None` when
/// it does not fit in a `usize`.
pub fn plan_stages(dims: &Vec<usize>, depths: &Vec<usize>) -> (r: Option<ModelPlan>)
    requires
        dims.len() <= depths.len(),
    ensures
        r is Some <==> depth_sum(depths@, depths.len() as int) <= usize::MAX,
        r matches Some(plan) ==> {
            &&& plan.total_depth == depth_sum(depths@, depths.len() as int)
            &&& plan.stages.len() == dims.len()
            &&& forall|i: int|
                0 <= i < dims.len() ==> {
                    &&& (#[trigger] plan.stages@[i]).dim == dims@[i]
                    &&& plan.stages@[i].depth == depths@[i]
                    &&& plan.stages@[i].first_block == depth_sum(depths@, i)
                    &&& plan.stages@[i].downsample_from == if i == 0 { None } else { Some(dims@[i - 1]) }
                }
        },
{
    let total_depth = match total_depth(depths) {
        Some(t) => t,
        None => return None,
    };
    let ghost total = depth_sum(depths@, depths.len() as int);
    let mut stages: Vec<StagePlan> = Vec::new();
    let mut first_block: usize = 0;
    let mut i: usize = 0;
    while i < dims.len()
        invariant
            i <= dims.len(),
            dims.len() <= depths.len(),
            total == depth_sum(depths@, depths.len() as int),
            total <= usize::MAX,
            first_block == depth_sum(depths@, i as int),
            stages.len() == i,
            forall|j: int|
                0 <= j < i ==> {
                    &&& (#[trigger] stages@[j]).dim == dims@[j]
                    &&& stages@[j].depth == depths@[j]
                    &&& stages@[j].first_block == depth_sum(depths@, j)
                    &&& stages@[j].downsample_from == if j == 0 { None } else { Some(dims@[j - 1]) }
                },
        decreases dims.len() - i,
    {
        proof {
            lemma_depth_sum_monotone(depths@, i + 1, depths.len() as int);
        }
        let downsample_from = if i == 0 { None } else { Some(dims[i - 1]) };
        stages.push(StagePlan { downsample_from, dim: dims[i], depth: depths[i], first_block });
        first_block = first_block + depths[i];
        i = i + 1;
    }
    Some(ModelPlan { stages, total_depth })
}

/// The blocks of every stage have indices below the total depth, and each stage's
/// blocks follow the previous stage's: every block has a drop-path rate, and no two
/// blocks share one.
pub proof fn lemma_stage_blocks_in_range(depths: Seq<usize>, num_stages: int, i: int)
    requires
        0 <= i < num_stages <= depths.len(),
    ensures
        depth_sum(depths, 0) == 0,
        depth_sum(depths, i) + depths[i] == depth_sum(depths, i + 1),
        depth_sum(depths, i + 1) <= depth_sum(depths, depths.len() as int),
{
    lemma_depth_sum_monotone(depths, i + 1, depths.len() as int);
}

} // verus!
