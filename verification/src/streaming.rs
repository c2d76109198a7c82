//! Geometry of streaming inference: a long spectrum is enhanced in blocks, each from a window
//! of one fixed length that gives it context on both sides.
use crate::spectral::{spectrum_shape, HOP_LENGTH, N_FFT};
use crate::text::{decimal, push_integer, push_shape, shape_text};
use vstd::prelude::*;

verus! {

/// Frames on each side of a frame that the model's answer for it depends on.
pub const TEMPORAL_RECEPTIVE_RADIUS_FRAMES: i32 = 129;

/// The sizes that a stream is cut by.
#[derive(Debug, Clone, Copy)]
pub struct StreamGeometry {
    /// Newly emitted frames per block.
    pub chunk_frames: i32,
    /// Past frames that are wanted before a block.
    pub left_context_frames: i32,
    /// Future frames that are wanted after a block.
    pub right_context_frames: i32,
}

/// A geometry fitted to an input.
#[derive(Debug, Clone, Copy)]
pub struct StreamPlan {
    /// The sizes that the stream is cut by.
    pub geometry: StreamGeometry,
    /// Frames of every window.
    pub window_frames: i32,
    /// Frames of the input.
    pub total_frames: i32,
}

/// One block of a stream.
#[derive(Debug, Clone, Copy)]
pub struct Block {
    /// First frame of the window.
    pub window_start: i32,
    /// Frame after the last one of the window.
    pub window_end: i32,
    /// First frame that the block emits, counted from the start of its window.
    pub local_start: i32,
    /// Frame after the last one that it emits, counted in the same way.
    pub local_end: i32,
}

/// Why a stream cannot be cut or put together.
#[derive(Debug)]
pub enum StreamError {
    /// Blocks would emit nothing.
    ChunkNotPositive,
    /// A context is negative.
    NegativeContext,
    /// The fixed window is longer than the input.
    WindowExceedsInput {
        /// Frames of a window.
        window_frames: i32,
        /// Frames of the input.
        total_frames: i32,
    },
    /// A window of another shape was cut out.
    WindowShape(Vec<i32>),
    /// The blocks did not add up.
    FrameCount {
        /// Frames that came out.
        produced: i32,
        /// Frames of the input.
        expected: i32,
    },
}

/// What a [`StreamError`] says, over mathematical sequences.
pub enum StreamErrorView {
    ChunkNotPositive,
    NegativeContext,
    WindowExceedsInput { window_frames: i32, total_frames: i32 },
    WindowShape(Seq<i32>),
    FrameCount { produced: i32, expected: i32 },
}

impl View for StreamError {
    type V = StreamErrorView;

    open spec fn view(&self) -> StreamErrorView {
        match *self {
            StreamError::ChunkNotPositive => StreamErrorView::ChunkNotPositive,
            StreamError::NegativeContext => StreamErrorView::NegativeContext,
            StreamError::WindowExceedsInput { window_frames, total_frames } =>
                StreamErrorView::WindowExceedsInput { window_frames, total_frames },
            StreamError::WindowShape(shape) => StreamErrorView::WindowShape(shape@),
            StreamError::FrameCount { produced, expected } => StreamErrorView::FrameCount {
                produced,
                expected,
            },
        }
    }
}

/// The text shown to a user for a stream error.
pub open spec fn stream_error_text(error: StreamErrorView) -> Seq<char> {
    match error {
        StreamErrorView::ChunkNotPositive => "--chunk-frames must be positive"@,
        StreamErrorView::NegativeContext => "context frame counts cannot be negative"@,
        StreamErrorView::WindowExceedsInput { window_frames, total_frames } => "the fixed "@
            + decimal(window_frames as int) + "-frame window exceeds the "@ + decimal(
            total_frames as int,
        ) + "-frame input; reduce chunk/context sizes"@,
        StreamErrorView::WindowShape(shape) => "streaming window shape changed unexpectedly: "@
            + shape_text(shape),
        StreamErrorView::FrameCount { produced, expected } => "stream produced "@ + decimal(
            produced as int,
        ) + " frames, expected "@ + decimal(expected as int),
    }
}

impl StreamError {
    /// The text shown to a user for this error.
    pub fn message(&self) -> (r: String)
        ensures
            r@ == stream_error_text(self@),
    {
        let mut out: String = String::new();
        match self {
            StreamError::ChunkNotPositive => out.append("--chunk-frames must be positive"),
            StreamError::NegativeContext => out.append("context frame counts cannot be negative"),
            StreamError::WindowExceedsInput { window_frames, total_frames } => {
                out.append("the fixed ");
                push_integer(&mut out, *window_frames);
                out.append("-frame window exceeds the ");
                push_integer(&mut out, *total_frames);
                out.append("-frame input; reduce chunk/context sizes");
            },
            StreamError::WindowShape(shape) => {
                out.append("streaming window shape changed unexpectedly: ");
                push_shape(&mut out, shape.as_slice());
            },
            StreamError::FrameCount { produced, expected } => {
                out.append("stream produced ");
                push_integer(&mut out, *produced);
                out.append(" frames, expected ");
                push_integer(&mut out, *expected);
            },
        }
        out
    }
}

/// The smaller of two integers.
pub open spec fn lesser(a: int, b: int) -> int {
    if a <= b {
        a
    } else {
        b
    }
}

/// The larger of two integers.
pub open spec fn greater(a: int, b: int) -> int {
    if a <= b {
        b
    } else {
        a
    }
}

impl StreamGeometry {
    /// Blocks emit something, and contexts are counts.
    pub open spec fn valid(&self) -> bool {
        &&& self.chunk_frames > 0
        &&& self.left_context_frames >= 0
        &&& self.right_context_frames >= 0
    }

    /// Frames of a window: a block and its context on both sides.
    pub open spec fn window(&self) -> int {
        self.left_context_frames + self.chunk_frames + self.right_context_frames
    }

    /// Samples of a block, of the frames after it, and of one frame more.
    pub open spec fn latency(&self) -> int {
        (self.chunk_frames + self.right_context_frames + 1) * HOP_LENGTH
    }

    /// Check the sizes that a stream is to be cut by.
    pub fn new(
        chunk_frames: i32,
        left_context_frames: i32,
        right_context_frames: i32,
    ) -> (r: Result<Self, StreamError>)
        ensures
            match r {
                Ok(g) => {
                    &&& g.valid()
                    &&& g == (StreamGeometry {
                        chunk_frames,
                        left_context_frames,
                        right_context_frames,
                    })
                },
                Err(e) => if chunk_frames <= 0 {
                    e@ == StreamErrorView::ChunkNotPositive
                } else {
                    &&& left_context_frames < 0 || right_context_frames < 0
                    &&& e@ == StreamErrorView::NegativeContext
                },
            },
    {
        if chunk_frames <= 0 {
            return Err(StreamError::ChunkNotPositive);
        }
        if left_context_frames < 0 || right_context_frames < 0 {
            return Err(StreamError::NegativeContext);
        }
        Ok(StreamGeometry { chunk_frames, left_context_frames, right_context_frames })
    }

    /// Whether every frame gets all the context that the model looks at.
    pub fn is_exact(&self) -> (r: bool)
        ensures
            r == (self.left_context_frames >= TEMPORAL_RECEPTIVE_RADIUS_FRAMES
                && self.right_context_frames >= TEMPORAL_RECEPTIVE_RADIUS_FRAMES),
    {
        !(self.left_context_frames < TEMPORAL_RECEPTIVE_RADIUS_FRAMES || self.right_context_frames
            < TEMPORAL_RECEPTIVE_RADIUS_FRAMES)
    }

    /// Whether the frames of a window can be counted.
    pub fn window_fits(&self) -> (r: bool)
        ensures
            r == (self.window() <= i32::MAX),
    {
        self.left_context_frames as i64 + self.chunk_frames as i64
            + self.right_context_frames as i64 <= i32::MAX as i64
    }

    /// Whether the samples of the latency can be counted.
    pub fn latency_fits(&self) -> (r: bool)
        ensures
            r == (self.latency() <= i32::MAX),
    {
        self.chunk_frames as i64 + self.right_context_frames as i64 + 1 <= (i32::MAX
            / HOP_LENGTH) as i64
    }

    /// Samples that may pass between a sample and its enhanced counterpart: those of a block, of
    /// the frames after it, and of the frame that is being filled.
    pub fn latency_samples(&self) -> (r: i32)
        requires
            self.valid(),
            self.latency() <= i32::MAX,
        ensures
            r == self.latency(),
    {
        (self.chunk_frames + self.right_context_frames + 1) * HOP_LENGTH
    }

    /// Fit the geometry to an input.
    pub fn plan(&self, total_frames: i32) -> (r: Result<StreamPlan, StreamError>)
        requires
            self.valid(),
            self.window() <= i32::MAX,
        ensures
            match r {
                Ok(plan) => {
                    &&& self.window() <= total_frames
                    &&& plan.valid()
                    &&& plan.geometry == self
                    &&& plan.total_frames == total_frames
                },
                Err(e) => {
                    &&& self.window() > total_frames
                    &&& e@ == (StreamErrorView::WindowExceedsInput {
                        window_frames: self.window() as i32,
                        total_frames,
                    })
                },
            },
    {
        let window_frames: i32 = self.left_context_frames + self.chunk_frames
            + self.right_context_frames;
        if window_frames > total_frames {
            return Err(StreamError::WindowExceedsInput { window_frames, total_frames });
        }
        Ok(StreamPlan { geometry: *self, window_frames, total_frames })
    }
}

impl StreamPlan {
    /// The window is that of the geometry, and fits into the input.
    pub open spec fn valid(&self) -> bool {
        &&& self.geometry.valid()
        &&& self.window_frames == self.geometry.window()
        &&& self.window_frames <= self.total_frames
    }

    /// Number of blocks: as many as it takes to emit every frame.
    pub open spec fn block_count(&self) -> int {
        (self.total_frames + self.geometry.chunk_frames - 1) / (self.geometry.chunk_frames as int)
    }

    /// First frame that block `i` emits.
    pub open spec fn emitted_start(&self, i: int) -> int {
        i * self.geometry.chunk_frames
    }

    /// Frame after the last one that block `i` emits.
    pub open spec fn emitted_end(&self, i: int) -> int {
        lesser(self.emitted_start(i) + self.geometry.chunk_frames, self.total_frames as int)
    }

    /// First frame of the window of block `i`: the left context before the block, moved as far as
    /// it takes for the window to lie inside the input.
    pub open spec fn window_start(&self, i: int) -> int {
        lesser(
            greater(self.emitted_start(i) - self.geometry.left_context_frames, 0),
            self.total_frames - self.window_frames,
        )
    }

    /// Block `i` of the stream.
    pub open spec fn block(&self, i: int) -> Block {
        let start = self.window_start(i);
        Block {
            window_start: start as i32,
            window_end: (start + self.window_frames) as i32,
            local_start: (self.emitted_start(i) - start) as i32,
            local_end: (self.emitted_end(i) - start) as i32,
        }
    }

    /// Cut the stream into blocks.
    pub fn blocks(&self) -> (r: Vec<Block>)
        requires
            self.valid(),
        ensures
            r@ == Seq::new(self.block_count() as nat, |i: int| self.block(i)),
    {
        let chunk: i32 = self.geometry.chunk_frames;
        let total: i32 = self.total_frames;
        let maximum_window_start: i32 = total - self.window_frames;
        let mut blocks: Vec<Block> = Vec::new();
        let mut output_start: i32 = 0;
        let ghost mut n: int = 0;
        proof {
            lemma_block_count(total as int, chunk as int, 0);
        }
        while output_start < total
            invariant
                self.valid(),
                chunk == self.geometry.chunk_frames,
                total == self.total_frames,
                maximum_window_start == total - self.window_frames,
                0 <= n <= self.block_count(),
                0 <= output_start <= total,
                output_start == lesser(self.emitted_start(n), total as int),
                output_start < total <==> n < self.block_count(),
                blocks@ == Seq::new(n as nat, |i: int| self.block(i)),
            decreases total - output_start,
        {
            let output_end: i32 = if chunk < total - output_start {
                output_start + chunk
            } else {
                total
            };
            let preferred_window_start: i32 = if output_start
                > self.geometry.left_context_frames {
                output_start - self.geometry.left_context_frames
            } else {
                0
            };
            let window_start: i32 = if preferred_window_start < maximum_window_start {
                preferred_window_start
            } else {
                maximum_window_start
            };
            let block: Block = Block {
                window_start,
                window_end: window_start + self.window_frames,
                local_start: output_start - window_start,
                local_end: output_end - window_start,
            };
            proof {
                assert((n + 1) * chunk == n * chunk + chunk) by (nonlinear_arith);
                assert(block == self.block(n));
                lemma_block_count(total as int, chunk as int, n + 1);
            }
            blocks.push(block);
            proof {
                n = n + 1;
            }
            output_start = output_end;
        }
        blocks
    }

    /// Check the shape of a window that was cut out of a spectrum.
    pub fn check_window(&self, shape: &[i32]) -> (r: Result<(), StreamError>)
        ensures
            match r {
                Ok(()) => shape@ == spectrum_shape(1, self.window_frames),
                Err(e) => {
                    &&& shape@ != spectrum_shape(1, self.window_frames)
                    &&& e@ == StreamErrorView::WindowShape(shape@)
                },
            },
    {
        if shape.len() == 4 && shape[0] == 1 && shape[1] == self.window_frames && shape[2] == N_FFT
            / 2 + 1 && shape[3] == 2 {
            assert(shape@ =~= spectrum_shape(1, self.window_frames));
            Ok(())
        } else {
            Err(StreamError::WindowShape(vstd::slice::slice_to_vec(shape)))
        }
    }

    /// Check the number of frames that came out of all blocks.
    pub fn check_output(&self, produced: i32) -> (r: Result<(), StreamError>)
        ensures
            match r {
                Ok(()) => produced == self.total_frames,
                Err(e) => {
                    &&& produced != self.total_frames
                    &&& e@ == (StreamErrorView::FrameCount {
                        produced,
                        expected: self.total_frames,
                    })
                },
            },
    {
        if produced != self.total_frames {
            return Err(StreamError::FrameCount { produced, expected: self.total_frames });
        }
        Ok(())
    }
}

/// A block starts inside the input exactly where its number is below the block count.
proof fn lemma_block_count(total: int, chunk: int, n: int)
    requires
        total > 0,
        chunk > 0,
        n >= 0,
    ensures
        n * chunk < total <==> n < (total + chunk - 1) / chunk,
{
    let count = (total + chunk - 1) / chunk;
    let rest = (total + chunk - 1) % chunk;
    vstd::arithmetic::div_mod::lemma_fundamental_div_mod(total + chunk - 1, chunk);
    assert(count * chunk + rest == total + chunk - 1) by (nonlinear_arith)
        requires
            total + chunk - 1 == chunk * count + rest,
    ;
    if n < count {
        assert(n * chunk <= count * chunk - chunk) by (nonlinear_arith)
            requires
                n + 1 <= count,
                chunk > 0,
        ;
    } else {
        assert(n * chunk >= count * chunk) by (nonlinear_arith)
            requires
                n >= count,
                chunk > 0,
        ;
    }
}

/// The windows of all blocks have one length and lie inside the input, and each block emits at
/// least one frame, all from its window.
pub proof fn law_windows_lie_inside_the_input(plan: StreamPlan, i: int)
    requires
        plan.valid(),
        0 <= i < plan.block_count(),
    ensures
        ({
            let b = plan.block(i);
            &&& 0 <= b.window_start
            &&& b.window_end <= plan.total_frames
            &&& b.window_end - b.window_start == plan.window_frames
            &&& 0 <= b.local_start < b.local_end <= plan.window_frames
            &&& b.window_start + b.local_start == plan.emitted_start(i)
            &&& b.window_start + b.local_end == plan.emitted_end(i)
        }),
{
    let chunk = plan.geometry.chunk_frames as int;
    lemma_block_count(plan.total_frames as int, chunk, i);
    assert(0 <= i * chunk) by (nonlinear_arith)
        requires
            0 <= i,
            0 < chunk,
    ;
}

/// The blocks follow each other without a gap: the first starts with the first frame, each
/// ends where the next one starts, and the last ends with the last frame.
pub proof fn law_blocks_follow_each_other(plan: StreamPlan, i: int)
    requires
        plan.valid(),
        0 <= i < plan.block_count(),
    ensures
        plan.emitted_start(0) == 0,
        i + 1 < plan.block_count() ==> plan.emitted_end(i) == plan.emitted_start(i + 1),
        i + 1 == plan.block_count() ==> plan.emitted_end(i) == plan.total_frames,
{
    let chunk = plan.geometry.chunk_frames as int;
    lemma_block_count(plan.total_frames as int, chunk, i);
    lemma_block_count(plan.total_frames as int, chunk, i + 1);
    assert((i + 1) * chunk == i * chunk + chunk) by (nonlinear_arith);
}

/// Every frame of the input is emitted by exactly one block.
pub proof fn law_every_frame_is_emitted_once(plan: StreamPlan, t: int, i: int)
    requires
        plan.valid(),
        0 <= t < plan.total_frames,
        0 <= i < plan.block_count(),
    ensures
        ({
            let home = t / (plan.geometry.chunk_frames as int);
            &&& 0 <= home < plan.block_count()
            &&& plan.emitted_start(i) <= t < plan.emitted_end(i) <==> i == home
        }),
{
    let chunk = plan.geometry.chunk_frames as int;
    let home = t / chunk;
    vstd::arithmetic::div_mod::lemma_fundamental_div_mod(t, chunk);
    assert(0 <= home) by (nonlinear_arith)
        requires
            home == t / chunk,
            0 <= t,
            0 < chunk,
    ;
    assert(home * chunk <= t < home * chunk + chunk) by (nonlinear_arith)
        requires
            t == chunk * home + t % chunk,
            0 <= t % chunk < chunk,
    ;
    lemma_block_count(plan.total_frames as int, chunk, home);
    if i < home {
        assert(i * chunk + chunk <= home * chunk) by (nonlinear_arith)
            requires
                i + 1 <= home,
                0 < chunk,
        ;
    } else if i > home {
        assert(i * chunk >= home * chunk + chunk) by (nonlinear_arith)
            requires
                i >= home + 1,
                0 < chunk,
        ;
    }
}

/// A frame is emitted from a window that holds all the context it was promised, as far as the
/// input reaches.
pub proof fn law_blocks_get_their_context(plan: StreamPlan, i: int, t: int)
    requires
        plan.valid(),
        0 <= i < plan.block_count(),
        plan.emitted_start(i) <= t < plan.emitted_end(i),
    ensures
        plan.block(i).window_start <= greater(0, t - plan.geometry.left_context_frames),
        plan.block(i).window_end >= lesser(
            plan.total_frames as int,
            t + plan.geometry.right_context_frames + 1,
        ),
{
    law_windows_lie_inside_the_input(plan, i);
}

/// With the full receptive radius on both sides, streaming shows the model every frame of the
/// input that its answer depends on.
pub proof fn law_exact_streams_miss_nothing(plan: StreamPlan, i: int, t: int, u: int)
    requires
        plan.valid(),
        plan.geometry.left_context_frames >= TEMPORAL_RECEPTIVE_RADIUS_FRAMES,
        plan.geometry.right_context_frames >= TEMPORAL_RECEPTIVE_RADIUS_FRAMES,
        0 <= i < plan.block_count(),
        plan.emitted_start(i) <= t < plan.emitted_end(i),
        0 <= u < plan.total_frames,
        t - TEMPORAL_RECEPTIVE_RADIUS_FRAMES <= u <= t + TEMPORAL_RECEPTIVE_RADIUS_FRAMES,
    ensures
        plan.block(i).window_start <= u < plan.block(i).window_end,
{
    law_blocks_get_their_context(plan, i, t);
}

} // verus!
