//! Laws of streaming inference.
use crate::streaming::{
    law_blocks_follow_each_other, law_blocks_get_their_context, law_windows_lie_inside_the_input,
    Block, StreamError, StreamGeometry, StreamPlan,
};
use crate::text::{decimal, shape_text};
use vstd::prelude::*;

verus! {

/// A geometry is accepted exactly where blocks emit something and no context is negative, and
/// keeps each of its sizes. The size of blocks is looked at first.
pub proof fn law_sizes_are_kept(
    chunk_frames: i32,
    left_context_frames: i32,
    right_context_frames: i32,
    r: Result<StreamGeometry, StreamError>,
)
    requires
        call_ensures(
            StreamGeometry::new,
            (chunk_frames, left_context_frames, right_context_frames),
            r,
        ),
    ensures
        match r {
            Ok(g) => {
                &&& chunk_frames > 0 && left_context_frames >= 0 && right_context_frames >= 0
                &&& g.chunk_frames == chunk_frames
                &&& g.left_context_frames == left_context_frames
                &&& g.right_context_frames == right_context_frames
            },
            Err(StreamError::ChunkNotPositive) => chunk_frames <= 0,
            Err(StreamError::NegativeContext) => chunk_frames > 0 && (left_context_frames < 0
                || right_context_frames < 0),
            Err(_) => false,
        },
{
}

/// A stream is exact exactly where both contexts hold all the frames that the model looks at.
pub proof fn law_exact_streams_have_both_contexts(g: &StreamGeometry, r: bool)
    requires
        call_ensures(StreamGeometry::is_exact, (g,), r),
    ensures
        r <==> g.left_context_frames >= 129 && g.right_context_frames >= 129,
{
}

/// The latency is that of all frames from the first of a block to the last that it waits for and
/// the one that is being filled: a frame more in a block or after it is a hop more, and the past
/// costs nothing.
pub proof fn law_latency_counts_the_future(
    g: &StreamGeometry,
    other: &StreamGeometry,
    r: i32,
    s: i32,
)
    requires
        call_ensures(StreamGeometry::latency_samples, (g,), r),
        call_ensures(StreamGeometry::latency_samples, (other,), s),
    ensures
        s - r == 2048 * ((other.chunk_frames - g.chunk_frames) + (other.right_context_frames
            - g.right_context_frames)),
        g.chunk_frames == 1 && g.right_context_frames == 0 ==> r == 2 * 2048,
{
}

/// What is tested before a stream is planned, or its latency computed, is that its frames, or
/// samples, can be counted; of a geometry that is accepted nothing else is asked.
pub proof fn law_counts_are_tested(g: &StreamGeometry, total: i32, window: bool, latency: bool)
    requires
        call_ensures(StreamGeometry::window_fits, (g,), window),
        call_ensures(StreamGeometry::latency_fits, (g,), latency),
    ensures
        ({
            let is_valid = g.chunk_frames > 0 && g.left_context_frames >= 0
                && g.right_context_frames >= 0;
            &&& is_valid && window ==> call_requires(StreamGeometry::plan, (g, total))
            &&& is_valid && latency ==> call_requires(StreamGeometry::latency_samples, (g,))
        }),
        window <==> g.left_context_frames + g.chunk_frames + g.right_context_frames <= i32::MAX,
        latency <==> (g.chunk_frames + g.right_context_frames + 1) * 2048 <= i32::MAX,
{
}

/// A geometry fits an input exactly where a block with both of its contexts is no longer than
/// it; else the error holds both lengths.
pub proof fn law_windows_fit_into_the_input(
    g: &StreamGeometry,
    total_frames: i32,
    r: Result<StreamPlan, StreamError>,
)
    requires
        g.left_context_frames + g.chunk_frames + g.right_context_frames <= i32::MAX,
        call_ensures(StreamGeometry::plan, (g, total_frames), r),
    ensures
        ({
            let window = g.left_context_frames + g.chunk_frames + g.right_context_frames;
            match r {
                Ok(plan) => {
                    &&& window <= total_frames
                    &&& plan.geometry == *g
                    &&& plan.window_frames == window
                    &&& plan.total_frames == total_frames
                },
                Err(StreamError::WindowExceedsInput { window_frames, total_frames: total }) => {
                    &&& window > total_frames
                    &&& window_frames == window
                    &&& total == total_frames
                },
                Err(_) => false,
            }
        }),
{
}

/// The plan is one of a geometry that fits its input: blocks emit something, contexts are counts,
/// and a window holds a block and both of its contexts and is no longer than the input.
pub open spec fn is_fitted(plan: &StreamPlan) -> bool {
    let g = plan.geometry;
    &&& g.chunk_frames > 0
    &&& g.left_context_frames >= 0
    &&& g.right_context_frames >= 0
    &&& plan.window_frames == g.left_context_frames + g.chunk_frames + g.right_context_frames
    &&& plan.window_frames <= plan.total_frames
}

/// Every plan that fits can be cut into blocks.
pub proof fn law_fitted_plans_are_cut(plan: &StreamPlan)
    requires
        is_fitted(plan),
    ensures
        call_requires(StreamPlan::blocks, (plan,)),
{
}

/// The blocks of a stream emit the whole input, in order and without gaps: the first starts with
/// its first frame, each goes on where the one before ended and emits as many frames as blocks
/// have, and the last, which may emit fewer, ends with its last frame.
pub proof fn law_blocks_emit_the_input(plan: &StreamPlan, blocks: Vec<Block>, i: int)
    requires
        is_fitted(plan),
        call_ensures(StreamPlan::blocks, (plan,), blocks),
        0 <= i < blocks@.len(),
    ensures
        ({
            let (b, chunk) = (blocks@[i], plan.geometry.chunk_frames);
            let (start, end) = (b.window_start + b.local_start, b.window_start + b.local_end);
            &&& i == 0 ==> start == 0
            &&& i + 1 < blocks@.len() ==> {
                let next = blocks@[i + 1];
                end == next.window_start + next.local_start && end - start == chunk
            }
            &&& i + 1 == blocks@.len() ==> end == plan.total_frames && 0 < end - start <= chunk
        }),
{
    assert(blocks@.len() == plan.block_count());
    assert(blocks@[i] == plan.block(i));
    law_windows_lie_inside_the_input(*plan, i);
    law_blocks_follow_each_other(*plan, i);
    let chunk = plan.geometry.chunk_frames as int;
    assert((i + 1) * chunk == i * chunk + chunk) by (nonlinear_arith);
    if i + 1 < blocks@.len() {
        assert(blocks@[i + 1] == plan.block(i + 1));
        law_windows_lie_inside_the_input(*plan, i + 1);
    }
}

/// A stream of a valid plan has at least one block.
pub proof fn law_streams_are_not_empty(plan: &StreamPlan, blocks: Vec<Block>)
    requires
        is_fitted(plan),
        call_ensures(StreamPlan::blocks, (plan,), blocks),
    ensures
        blocks@.len() > 0,
{
    let (total, chunk) = (plan.total_frames as int, plan.geometry.chunk_frames as int);
    assert((total + chunk - 1) / chunk >= 1) by (nonlinear_arith)
        requires
            total >= 1,
            chunk >= 1,
    ;
}

/// Every block has a window of one length inside the input, emits frames of that window, and
/// has in it all frames of the input that are as near to a frame it emits as its contexts reach.
pub proof fn law_blocks_see_their_contexts(
    plan: &StreamPlan,
    blocks: Vec<Block>,
    i: int,
    t: int,
    u: int,
)
    requires
        is_fitted(plan),
        call_ensures(StreamPlan::blocks, (plan,), blocks),
        0 <= i < blocks@.len(),
        blocks@[i].window_start + blocks@[i].local_start <= t,
        t < blocks@[i].window_start + blocks@[i].local_end,
        0 <= u < plan.total_frames,
        t - plan.geometry.left_context_frames <= u <= t + plan.geometry.right_context_frames,
    ensures
        ({
            let b = blocks@[i];
            &&& 0 <= b.window_start < b.window_end <= plan.total_frames
            &&& b.window_end - b.window_start == plan.geometry.left_context_frames
                + plan.geometry.chunk_frames + plan.geometry.right_context_frames
            &&& 0 <= b.local_start < b.local_end <= b.window_end - b.window_start
            &&& b.window_start <= u < b.window_end
        }),
{
    assert(blocks@.len() == plan.block_count());
    assert(blocks@[i] == plan.block(i));
    law_windows_lie_inside_the_input(*plan, i);
    law_blocks_get_their_context(*plan, i, t);
}

/// A window is accepted exactly where it is one spectrum of as many frames as every window, of
/// all frequencies and both of their parts; else the error holds its shape.
pub proof fn law_windows_have_one_shape(
    plan: &StreamPlan,
    shape: &[i32],
    r: Result<(), StreamError>,
)
    requires
        call_ensures(StreamPlan::check_window, (plan, shape), r),
    ensures
        r is Ok <==> {
            &&& shape@.len() == 4
            &&& shape@[0] == 1
            &&& shape@[1] == plan.window_frames
            &&& shape@[2] == 2049
            &&& shape@[3] == 2
        },
        match r {
            Ok(_) => true,
            Err(StreamError::WindowShape(shown)) => shown@ == shape@,
            Err(_) => false,
        },
{
    if shape@.len() == 4 && shape@[0] == 1 && shape@[1] == plan.window_frames && shape@[2] == 2049
        && shape@[3] == 2 {
        assert(shape@ =~= crate::spectral::spectrum_shape(1, plan.window_frames));
    }
}

/// An output is accepted exactly where it has as many frames as the input; else the error holds
/// both numbers.
pub proof fn law_outputs_are_as_long_as_inputs(
    plan: &StreamPlan,
    produced: i32,
    r: Result<(), StreamError>,
)
    requires
        call_ensures(StreamPlan::check_output, (plan, produced), r),
    ensures
        match r {
            Ok(_) => produced == plan.total_frames,
            Err(StreamError::FrameCount { produced: shown, expected }) => {
                &&& produced != plan.total_frames
                &&& shown == produced
                &&& expected == plan.total_frames
            },
            Err(_) => false,
        },
{
}

/// The text of a stream error names what went wrong and everything that it carries, in the order
/// of its fields.
pub proof fn law_stream_errors_tell_what_they_carry(e: &StreamError, r: String)
    requires
        call_ensures(StreamError::message, (e,), r),
    ensures
        match *e {
            StreamError::ChunkNotPositive => r@ == "--chunk-frames must be positive"@,
            StreamError::NegativeContext => r@ == "context frame counts cannot be negative"@,
            StreamError::WindowExceedsInput { window_frames, total_frames } => r@ == "the fixed "@
                + decimal(window_frames as int) + "-frame window exceeds the "@ + decimal(
                total_frames as int,
            ) + "-frame input; reduce chunk/context sizes"@,
            StreamError::WindowShape(shape) => r@
                == "streaming window shape changed unexpectedly: "@ + shape_text(shape@),
            StreamError::FrameCount { produced, expected } => r@ == "stream produced "@ + decimal(
                produced as int,
            ) + " frames, expected "@ + decimal(expected as int),
        },
{
}

} // verus!
