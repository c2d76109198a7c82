//! Geometry of the centred short-time Fourier transform and its inverse.
//!
//! A transform is planned from array shapes alone: which samples pad the waveform, where the
//! frames lie in it, which positions of the inverse they add up to, and which part of the
//! sum is kept. The arrays themselves are moved and multiplied by whoever holds them.
use crate::error::{Error, ErrorView};
use crate::text::{decimal, push_integer, push_shape, shape_text};
use vstd::prelude::*;

verus! {

/// FFT and window length.
pub const N_FFT: i32 = 4096;

/// Distance between the starts of two neighbouring frames.
pub const HOP_LENGTH: i32 = 2048;

/// Periodic Hann-window STFT/iSTFT pair. The window is held by the bit patterns of its values,
/// which are 32-bit IEEE floats.
#[derive(Debug)]
pub struct SpectralTransform {
    window: Vec<u32>,
}

/// How to transform a `[batch, samples]` waveform.
#[derive(Debug)]
pub struct StftPlan {
    /// Number of waveforms.
    pub batch: i32,
    /// Samples per waveform.
    pub samples: i32,
    /// Samples that stand before each waveform, by their index in it.
    pub left_indices: Vec<i32>,
    /// Samples that stand after each waveform, by their index in it.
    pub right_indices: Vec<i32>,
    /// Samples per waveform with the padding on both sides.
    pub padded_samples: i32,
    /// Number of frames.
    pub frames: i32,
    /// Shape of the strided view of all frames.
    pub frame_shape: Vec<i32>,
    /// Strides of that view, in samples.
    pub frame_strides: Vec<i64>,
}

/// How to invert a `[batch, frames, frequency, 2]` spectrum.
#[derive(Debug)]
pub struct IstftPlan {
    /// Number of waveforms.
    pub batch: i32,
    /// Number of frames per waveform.
    pub frame_count: i32,
    /// Length of the sum of all frames.
    pub overlap_length: i32,
    /// Number of samples of all frames of a waveform.
    pub index_count: i32,
    /// Position in that sum of each sample of each frame, frame after frame.
    pub indices: Vec<u32>,
    /// First position of the sum that is kept.
    pub output_start: i32,
    /// Position after the last one that is kept.
    pub output_end: i32,
}

/// Shapes that [`SpectralTransform::stft`] takes: `[batch, samples]` with enough samples to
/// reflect half a window at each end.
pub open spec fn stft_accepts(shape: Seq<i32>) -> bool {
    shape.len() == 2 && shape[1] > N_FFT / 2
}

/// Shapes that [`SpectralTransform::istft`] takes.
pub open spec fn istft_accepts(shape: Seq<i32>) -> bool {
    shape.len() == 4 && shape[2] == N_FFT / 2 + 1 && shape[3] == 2
}

/// The padded length of a waveform that [`SpectralTransform::stft`] takes is a sample count.
pub open spec fn stft_fits(shape: Seq<i32>) -> bool {
    stft_accepts(shape) ==> shape[1] <= i32::MAX - N_FFT
}

/// The frames of a spectrum that [`SpectralTransform::istft`] takes hold a countable number of
/// samples.
pub open spec fn istft_fits(shape: Seq<i32>) -> bool {
    istft_accepts(shape) ==> 0 <= shape[1] <= i32::MAX / N_FFT
}

/// The shape of the spectrum of a waveform: real and imaginary part of each frequency.
pub open spec fn spectrum_shape(batch: i32, frames: i32) -> Seq<i32> {
    seq![batch, frames, (N_FFT / 2 + 1) as i32, 2]
}

/// The answer to a waveform that cannot be transformed.
pub open spec fn stft_refusal(shape: Seq<i32>) -> ErrorView {
    ErrorView::InvalidAudio(
        "STFT expects [batch, samples] with more than "@ + decimal(N_FFT as int / 2)
            + " samples, got "@ + shape_text(shape),
    )
}

/// The answer to a spectrum that cannot be inverted.
pub open spec fn istft_refusal(shape: Seq<i32>) -> ErrorView {
    ErrorView::InvalidAudio(
        "iSTFT expects [batch, frames, "@ + decimal(N_FFT as int / 2 + 1) + ", 2], got "@
            + shape_text(shape),
    )
}

/// Number of frames of a waveform: one is centred on every multiple of the hop length from
/// the first sample on, as far as the waveform reaches.
pub open spec fn frames_of(samples: int) -> int {
    1 + samples / (HOP_LENGTH as int)
}

/// The sample that position `t` of the unbounded waveform stands for, `t` at most one
/// waveform away: outside, the waveform is mirrored at its first and last sample, which are
/// not repeated.
pub open spec fn mirrored(samples: int, t: int) -> int {
    if t < 0 {
        -t
    } else if t < samples {
        t
    } else {
        2 * (samples - 1) - t
    }
}

/// Length of the sum of `frame_count` frames that are one hop apart.
pub open spec fn overlap_length_of(frame_count: int) -> int {
    N_FFT + HOP_LENGTH * (frame_count - 1)
}

impl StftPlan {
    /// This is the plan of `batch` waveforms of `samples` samples each.
    pub open spec fn describes(&self, batch: i32, samples: i32) -> bool {
        &&& self.batch == batch
        &&& self.samples == samples
        &&& self.left_indices@ == Seq::new((N_FFT / 2) as nat, |i: int| (N_FFT / 2 - i) as i32)
        &&& self.right_indices@ == Seq::new(
            (N_FFT / 2) as nat,
            |i: int| (samples - 2 - i) as i32,
        )
        &&& self.padded_samples == samples + N_FFT
        &&& self.frames == frames_of(samples as int)
        &&& self.frame_shape@ == seq![batch, self.frames, N_FFT]
        &&& self.frame_strides@ == seq![self.padded_samples as i64, HOP_LENGTH as i64, 1i64]
    }

    /// The sample at position `p` of a row made of the left padding, the waveform and the
    /// right padding, by its index in the waveform.
    pub open spec fn row_source(&self, p: int) -> int {
        let left = self.left_indices@.len() as int;
        if p < left {
            self.left_indices@[p] as int
        } else if p < left + self.samples {
            p - left
        } else {
            self.right_indices@[p - left - self.samples] as int
        }
    }

    /// Sample `k` of frame `f` of a waveform, as it is cut out of its padded row.
    pub open spec fn frame_sample(&self, waveform: spec_fn(int) -> int, f: int, k: int) -> int {
        waveform(self.row_source(self.frame_offset(0, f, k)))
    }

    /// The position in the buffer of all padded rows of sample `k` of frame `f` of row `b`.
    pub open spec fn frame_offset(&self, b: int, f: int, k: int) -> int {
        b * self.frame_strides@[0] + f * self.frame_strides@[1] + k * self.frame_strides@[2]
    }
}

impl IstftPlan {
    /// This is the plan of `batch` waveforms of `frame_count` frames each.
    pub open spec fn describes(&self, batch: i32, frame_count: i32) -> bool {
        &&& self.batch == batch
        &&& self.frame_count == frame_count
        &&& self.overlap_length == overlap_length_of(frame_count as int)
        &&& self.index_count == frame_count * N_FFT
        &&& self.indices@ == scatter_positions(frame_count as int)
        &&& self.output_start == N_FFT / 2
        &&& self.output_end == self.overlap_length - N_FFT / 2
    }
}

/// Where the samples of all frames go, frame after frame: sample `k` of frame `f` goes to
/// position `f * HOP_LENGTH + k`.
pub open spec fn scatter_positions(frame_count: int) -> Seq<u32> {
    Seq::new(
        (frame_count * N_FFT) as nat,
        |j: int| (j / (N_FFT as int) * HOP_LENGTH + j % (N_FFT as int)) as u32,
    )
}

impl View for SpectralTransform {
    type V = Seq<u32>;

    /// The window.
    closed spec fn view(&self) -> Seq<u32> {
        self.window@
    }
}

impl SpectralTransform {
    /// Construct the fixed transform. `hann` computes the value of the window at an index.
    pub fn new<F: Fn(i32) -> u32>(hann: F) -> (r: Self)
        requires
            forall|i: i32| 0 <= i < N_FFT ==> call_requires(hann, (i,)),
        ensures
            r@.len() == N_FFT,
            forall|i: int|
                0 <= i < N_FFT ==> call_ensures(hann, (i as i32,), #[trigger] r@[i]),
    {
        let mut window: Vec<u32> = Vec::new();
        let mut index: i32 = 0;
        while index < N_FFT
            invariant
                0 <= index <= N_FFT,
                window@.len() == index,
                forall|i: i32| 0 <= i < N_FFT ==> call_requires(hann, (i,)),
                forall|i: int|
                    0 <= i < index ==> call_ensures(hann, (i as i32,), #[trigger] window@[i]),
            decreases N_FFT - index,
        {
            window.push(hann(index));
            index += 1;
        }
        SpectralTransform { window }
    }

    /// The window that frames are multiplied with.
    pub fn window(&self) -> (r: &[u32])
        ensures
            r@ == self@,
    {
        self.window.as_slice()
    }

    /// Whether [`stft`](Self::stft) can be planned, or refused, for an array of this shape.
    pub fn can_plan_stft(shape: &[i32]) -> (r: bool)
        ensures
            r == stft_fits(shape@),
    {
        shape.len() != 2 || shape[1] <= i32::MAX - N_FFT
    }

    /// Whether [`istft`](Self::istft) can be planned, or refused, for an array of this shape.
    pub fn can_plan_istft(shape: &[i32]) -> (r: bool)
        ensures
            r == istft_fits(shape@),
    {
        shape.len() != 4 || shape[2] != N_FFT / 2 + 1 || shape[3] != 2 || 0 <= shape[1] && shape[1]
            <= i32::MAX / N_FFT
    }

    /// Plan the transform of a `[batch, samples]` waveform into `[batch, frames, frequency, 2]`.
    pub fn stft(&self, shape: &[i32]) -> (r: Result<StftPlan, Error>)
        requires
            stft_fits(shape@),
        ensures
            match r {
                Ok(plan) => stft_accepts(shape@) && plan.describes(shape@[0], shape@[1]),
                Err(e) => !stft_accepts(shape@) && e@ == stft_refusal(shape@),
            },
    {
        if shape.len() != 2 || shape[1] <= N_FFT / 2 {
            let mut text: String = String::new();
            text.append("STFT expects [batch, samples] with more than ");
            push_integer(&mut text, N_FFT / 2);
            text.append(" samples, got ");
            push_shape(&mut text, shape);
            return Err(Error::InvalidAudio(text));
        }
        let batch: i32 = shape[0];
        let samples: i32 = shape[1];
        let reflect: i32 = N_FFT / 2;

        let mut left_indices: Vec<i32> = Vec::new();
        let mut right_indices: Vec<i32> = Vec::new();
        let mut i: i32 = 0;
        while i < reflect
            invariant
                0 <= i <= reflect,
                reflect == N_FFT / 2,
                reflect < samples,
                left_indices@ == Seq::new(i as nat, |j: int| (N_FFT / 2 - j) as i32),
                right_indices@ == Seq::new(i as nat, |j: int| (samples - 2 - j) as i32),
            decreases reflect - i,
        {
            left_indices.push(reflect - i);
            right_indices.push(samples - 2 - i);
            i += 1;
        }

        let padded_samples: i32 = samples + N_FFT;
        let frames: i32 = 1 + (padded_samples - N_FFT) / HOP_LENGTH;
        let frame_shape: Vec<i32> = vec![batch, frames, N_FFT];
        let frame_strides: Vec<i64> = vec![padded_samples as i64, HOP_LENGTH as i64, 1];
        Ok(
            StftPlan {
                batch,
                samples,
                left_indices,
                right_indices,
                padded_samples,
                frames,
                frame_shape,
                frame_strides,
            },
        )
    }

    /// Plan the inverse of a `[batch, frames, frequency, 2]` spectrum.
    pub fn istft(&self, shape: &[i32]) -> (r: Result<IstftPlan, Error>)
        requires
            istft_fits(shape@),
        ensures
            match r {
                Ok(plan) => istft_accepts(shape@) && plan.describes(shape@[0], shape@[1]),
                Err(e) => !istft_accepts(shape@) && e@ == istft_refusal(shape@),
            },
    {
        if shape.len() != 4 || shape[2] != N_FFT / 2 + 1 || shape[3] != 2 {
            let mut text: String = String::new();
            text.append("iSTFT expects [batch, frames, ");
            push_integer(&mut text, N_FFT / 2 + 1);
            text.append(", 2], got ");
            push_shape(&mut text, shape);
            return Err(Error::InvalidAudio(text));
        }
        let batch: i32 = shape[0];
        let frame_count: i32 = shape[1];
        let overlap_length: i32 = N_FFT + HOP_LENGTH * (frame_count - 1);

        let mut indices: Vec<u32> = Vec::new();
        let mut frame: i32 = 0;
        while frame < frame_count
            invariant
                0 <= frame <= frame_count <= i32::MAX / N_FFT,
                indices@ == scatter_positions(frame as int),
            decreases frame_count - frame,
        {
            let start: i32 = frame * HOP_LENGTH;
            let mut sample: i32 = 0;
            while sample < N_FFT
                invariant
                    0 <= frame < frame_count <= i32::MAX / N_FFT,
                    0 <= sample <= N_FFT,
                    start == frame * HOP_LENGTH,
                    indices@ == scatter_positions(frame_count as int).take(
                        frame * N_FFT + sample,
                    ),
                decreases N_FFT - sample,
            {
                indices.push((start + sample) as u32);
                sample += 1;
            }
            frame += 1;
        }
        Ok(
            IstftPlan {
                batch,
                frame_count,
                overlap_length,
                index_count: frame_count * N_FFT,
                indices,
                output_start: N_FFT / 2,
                output_end: overlap_length - N_FFT / 2,
            },
        )
    }
}

/// The padded row mirrors the waveform at its ends: position `p` of the row holds the sample
/// half a window before it, reflected into the waveform where that lies outside.
pub proof fn law_padding_mirrors_the_waveform(plan: StftPlan, batch: i32, samples: i32, p: int)
    requires
        samples > N_FFT / 2,
        plan.describes(batch, samples),
        0 <= p < plan.padded_samples,
    ensures
        plan.row_source(p) == mirrored(samples as int, p - N_FFT / 2),
        0 <= plan.row_source(p) < samples,
{
}

/// The strides of a plan, multiplied out.
proof fn lemma_frame_offset(plan: StftPlan, batch: i32, samples: i32, b: int, f: int, k: int)
    requires
        plan.describes(batch, samples),
    ensures
        plan.frame_offset(b, f, k) == b * plan.padded_samples + f * HOP_LENGTH + k,
{
    let strides = plan.frame_strides@;
    assert(strides[0] == plan.padded_samples);
    assert(strides[1] == HOP_LENGTH);
    assert(strides[2] == 1);
    assert(b * strides[0] + f * strides[1] + k * strides[2] == b * plan.padded_samples + f
        * HOP_LENGTH + k) by (nonlinear_arith)
        requires
            strides[0] == plan.padded_samples,
            strides[1] == HOP_LENGTH,
            strides[2] == 1,
    ;
}

/// Every frame lies inside its own padded row, and no further frame would fit.
pub proof fn law_frames_fill_their_row(
    plan: StftPlan,
    batch: i32,
    samples: i32,
    b: int,
    f: int,
    k: int,
)
    requires
        samples > N_FFT / 2,
        plan.describes(batch, samples),
        0 <= b < batch,
        0 <= f < plan.frames,
        0 <= k < N_FFT,
    ensures
        b * plan.padded_samples <= plan.frame_offset(b, f, k) < (b + 1) * plan.padded_samples,
        0 <= plan.frame_offset(b, f, k) < batch * plan.padded_samples,
        plan.frames * HOP_LENGTH + N_FFT > plan.padded_samples,
{
    let padded = plan.padded_samples as int;
    lemma_frame_offset(plan, batch, samples, b, f, k);
    assert((b + 1) * padded == b * padded + padded) by (nonlinear_arith);
    assert((b + 1) * padded <= batch * padded) by (nonlinear_arith)
        requires
            b + 1 <= batch,
            0 <= padded,
    ;
    assert(0 <= b * padded) by (nonlinear_arith)
        requires
            0 <= b,
            0 <= padded,
    ;
}

/// Frame `f` is centred on sample `f * HOP_LENGTH`: its sample `k` is the mirrored waveform at
/// `f * HOP_LENGTH + k - N_FFT / 2`.
pub proof fn law_frames_are_centred(
    plan: StftPlan,
    batch: i32,
    samples: i32,
    b: int,
    f: int,
    k: int,
)
    requires
        samples > N_FFT / 2,
        plan.describes(batch, samples),
        0 <= b < batch,
        0 <= f < plan.frames,
        0 <= k < N_FFT,
    ensures
        plan.row_source(plan.frame_offset(b, f, k) - b * plan.padded_samples) == mirrored(
            samples as int,
            f * HOP_LENGTH + k - N_FFT / 2,
        ),
{
    law_frames_fill_their_row(plan, batch, samples, b, f, k);
    assert((b + 1) * plan.padded_samples == b * plan.padded_samples + plan.padded_samples)
        by (nonlinear_arith);
    lemma_frame_offset(plan, batch, samples, b, f, k);
    law_padding_mirrors_the_waveform(plan, batch, samples, f * HOP_LENGTH + k);
}

/// Every waveform of a batch is transformed as it would be alone: its frames are as many, and
/// each of their samples is read from its own row, at the place where it would stand if there
/// were no other row.
pub proof fn law_rows_are_transformed_alone(
    plan: StftPlan,
    alone: StftPlan,
    batch: i32,
    samples: i32,
    b: int,
    f: int,
    k: int,
)
    requires
        samples > N_FFT / 2,
        plan.describes(batch, samples),
        alone.describes(1, samples),
        0 <= b < batch,
        0 <= f < plan.frames,
        0 <= k < N_FFT,
    ensures
        alone.frames == plan.frames,
        alone.padded_samples == plan.padded_samples,
        ({
            let p = plan.frame_offset(b, f, k) - b * plan.padded_samples;
            &&& 0 <= p < plan.padded_samples
            &&& p == alone.frame_offset(0, f, k)
            &&& plan.row_source(p) == alone.row_source(p)
        }),
{
    lemma_frame_offset(plan, batch, samples, b, f, k);
    lemma_frame_offset(alone, 1, samples, 0, f, k);
}

/// Cutting out frames is linear, in exact arithmetic, and so is multiplying them with the
/// window: the frames of `x + c * y` are those of `x` plus `c` times those of `y`.
pub proof fn law_frames_are_linear(
    plan: StftPlan,
    x: spec_fn(int) -> int,
    y: spec_fn(int) -> int,
    c: int,
    window: spec_fn(int) -> int,
    f: int,
    k: int,
)
    ensures
        ({
            let sum = |i: int| x(i) + c * y(i);
            let (of_sum, of_x, of_y) = (
                plan.frame_sample(sum, f, k),
                plan.frame_sample(x, f, k),
                plan.frame_sample(y, f, k),
            );
            &&& of_sum == of_x + c * of_y
            &&& window(k) * of_sum == window(k) * of_x + c * (window(k) * of_y)
        }),
{
    let (w, a, b) = (window(k), plan.frame_sample(x, f, k), plan.frame_sample(y, f, k));
    assert(w * (a + c * b) == w * a + c * (w * b)) by (nonlinear_arith);
}

/// Sample `k` of frame `f` is added at `f * HOP_LENGTH + k`, which lies inside the sum.
pub proof fn law_frames_add_one_hop_apart(
    plan: IstftPlan,
    batch: i32,
    frame_count: i32,
    f: int,
    k: int,
)
    requires
        0 <= frame_count <= i32::MAX / N_FFT,
        plan.describes(batch, frame_count),
        0 <= f < frame_count,
        0 <= k < N_FFT,
    ensures
        0 <= f * N_FFT + k < plan.indices@.len(),
        plan.indices@[f * N_FFT + k] == f * HOP_LENGTH + k,
        f * HOP_LENGTH + k < plan.overlap_length,
{
}

/// Inside the kept part of the sum each position takes one sample from exactly two frames,
/// which overlap there by half a window.
pub proof fn law_kept_positions_take_two_frames(
    plan: IstftPlan,
    batch: i32,
    frame_count: i32,
    p: int,
    j: int,
)
    requires
        0 <= frame_count <= i32::MAX / N_FFT,
        plan.describes(batch, frame_count),
        plan.output_start <= p < plan.output_end,
        0 <= j < plan.indices@.len(),
    ensures
        ({
            let f = p / (HOP_LENGTH as int);
            let k = p % (HOP_LENGTH as int);
            let (first, second) = ((f - 1) * N_FFT + k + HOP_LENGTH, f * N_FFT + k);
            &&& 0 <= first < second < plan.indices@.len()
            &&& plan.indices@[j] == p <==> j == first || j == second
        }),
{
}

/// Outside the kept part, at both ends of the sum, each position takes one sample from exactly
/// one frame: the first or the last.
pub proof fn law_dropped_positions_take_one_frame(
    plan: IstftPlan,
    batch: i32,
    frame_count: i32,
    p: int,
    j: int,
)
    requires
        1 <= frame_count <= i32::MAX / N_FFT,
        plan.describes(batch, frame_count),
        0 <= p < plan.output_start || plan.output_end <= p < plan.overlap_length,
        0 <= j < plan.indices@.len(),
    ensures
        p < plan.output_start ==> (plan.indices@[j] == p <==> j == p),
        plan.output_end <= p ==> (plan.indices@[j] == p <==> j == (frame_count - 1) * N_FFT + (p - (
        frame_count - 1) * HOP_LENGTH)),
{
}

/// Every spectrum of a batch is inverted as it would be alone: its samples are added at the same
/// positions of a sum of the same length, and the same part of it is kept.
pub proof fn law_rows_are_inverted_alone(
    plan: IstftPlan,
    alone: IstftPlan,
    batch: i32,
    frame_count: i32,
)
    requires
        plan.describes(batch, frame_count),
        alone.describes(1, frame_count),
    ensures
        alone.frame_count == plan.frame_count,
        alone.overlap_length == plan.overlap_length,
        alone.index_count == plan.index_count,
        alone.indices@ == plan.indices@,
        alone.output_start == plan.output_start,
        alone.output_end == plan.output_end,
{
}

/// The spectrum of any waveform that the transform takes is one that its inverse takes.
pub proof fn law_spectra_can_be_inverted(plan: StftPlan, batch: i32, samples: i32)
    requires
        samples > N_FFT / 2,
        plan.describes(batch, samples),
    ensures
        istft_accepts(spectrum_shape(batch, plan.frames)),
{
}

/// Inverting a spectrum gives back a waveform that is shorter by what is left of a last hop,
/// and as long as before where the waveform is a whole number of hops long.
pub proof fn law_inverse_keeps_whole_hops(
    forward: StftPlan,
    inverse: IstftPlan,
    batch: i32,
    samples: i32,
)
    requires
        samples > N_FFT / 2,
        forward.describes(batch, samples),
        inverse.describes(batch, forward.frames),
    ensures
        inverse.output_end - inverse.output_start == HOP_LENGTH * (forward.frames - 1),
        inverse.output_end - inverse.output_start == samples - samples % HOP_LENGTH,
{
}

/// The inverse lines up with the waveform: all that is added at output sample `o` comes from
/// frame samples that the transform took from sample `o` of the waveform.
pub proof fn law_inverse_lines_up(
    forward: StftPlan,
    inverse: IstftPlan,
    batch: i32,
    samples: i32,
    o: int,
    f: int,
    k: int,
)
    requires
        samples > N_FFT / 2,
        forward.describes(batch, samples),
        forward.frames <= i32::MAX / N_FFT,
        inverse.describes(batch, forward.frames),
        0 <= o < inverse.output_end - inverse.output_start,
        0 <= f < forward.frames,
        0 <= k < N_FFT,
        inverse.indices@[f * N_FFT + k] == inverse.output_start + o,
    ensures
        mirrored(samples as int, f * HOP_LENGTH + k - N_FFT / 2) == o,
        o < samples,
{
    law_frames_add_one_hop_apart(inverse, batch, forward.frames, f, k);
}

/// What is added at position `p` by the first `n` samples of all frames, sample `j` being
/// `values(j)`, in exact arithmetic.
pub open spec fn added_at(
    plan: IstftPlan,
    values: spec_fn(int) -> int,
    p: int,
    n: int,
) -> int
    decreases n,
{
    if n <= 0 {
        0
    } else {
        added_at(plan, values, p, n - 1) + if plan.indices@[n - 1] == p {
            values(n - 1)
        } else {
            0
        }
    }
}

/// The sums of the inverse are linear in the frames, in exact arithmetic; frames of zeros add up
/// to zero.
pub proof fn law_sums_are_linear(
    plan: IstftPlan,
    a: spec_fn(int) -> int,
    b: spec_fn(int) -> int,
    c: int,
    p: int,
    n: int,
)
    ensures
        added_at(plan, |j: int| a(j) + c * b(j), p, n) == added_at(plan, a, p, n) + c * added_at(
            plan,
            b,
            p,
            n,
        ),
        added_at(plan, |j: int| 0, p, n) == 0,
    decreases n,
{
    if n > 0 {
        law_sums_are_linear(plan, a, b, c, p, n - 1);
        let (rest, last) = (added_at(plan, b, p, n - 1), b(n - 1));
        assert(c * (rest + last) == c * rest + c * last) by (nonlinear_arith);
        assert(c * (rest + 0) == c * rest);
    } else {
        assert(c * 0 == 0) by (nonlinear_arith);
    }
}

/// Sums that agree up to a factor wherever anything is added agree up to that factor.
proof fn lemma_added_factor(
    plan: IstftPlan,
    values: spec_fn(int) -> int,
    others: spec_fn(int) -> int,
    factor: int,
    p: int,
    n: int,
)
    requires
        forall|j: int|
            0 <= j < n && plan.indices@[j] == p ==> #[trigger] values(j) == factor * others(j),
    ensures
        added_at(plan, values, p, n) == factor * added_at(plan, others, p, n),
    decreases n,
{
    if n > 0 {
        lemma_added_factor(plan, values, others, factor, p, n - 1);
        let rest = added_at(plan, others, p, n - 1);
        let last = others(n - 1);
        assert(plan.indices@[n - 1] == p ==> values(n - 1) == factor * last);
        assert(factor * (rest + last) == factor * rest + factor * last) by (nonlinear_arith);
        assert(factor * (rest + 0) == factor * rest);
    } else {
        assert(factor * 0 == 0) by (nonlinear_arith);
    }
}

/// The sum at a kept position, as far as it has got.
proof fn lemma_added_steps(
    plan: IstftPlan,
    batch: i32,
    frame_count: i32,
    values: spec_fn(int) -> int,
    p: int,
    n: int,
)
    requires
        0 <= frame_count <= i32::MAX / N_FFT,
        plan.describes(batch, frame_count),
        plan.output_start <= p < plan.output_end,
        0 <= n <= plan.indices@.len(),
    ensures
        ({
            let f = p / (HOP_LENGTH as int);
            let k = p % (HOP_LENGTH as int);
            let (first, second) = ((f - 1) * N_FFT + k + HOP_LENGTH, f * N_FFT + k);
            added_at(plan, values, p, n) == (if first < n {
                values(first)
            } else {
                0
            }) + (if second < n {
                values(second)
            } else {
                0
            })
        }),
    decreases n,
{
    if n > 0 {
        lemma_added_steps(plan, batch, frame_count, values, p, n - 1);
        law_kept_positions_take_two_frames(plan, batch, frame_count, p, n - 1);
    } else {
        assert(0 < plan.indices@.len());
        law_kept_positions_take_two_frames(plan, batch, frame_count, p, 0);
    }
}

/// At a kept position exactly two terms are added: one half a window into a frame further than
/// the other.
pub proof fn law_kept_sums_have_two_terms(
    plan: IstftPlan,
    batch: i32,
    frame_count: i32,
    values: spec_fn(int) -> int,
    p: int,
)
    requires
        0 <= frame_count <= i32::MAX / N_FFT,
        plan.describes(batch, frame_count),
        plan.output_start <= p < plan.output_end,
    ensures
        ({
            let f = p / (HOP_LENGTH as int);
            let k = p % (HOP_LENGTH as int);
            added_at(plan, values, p, plan.indices@.len() as int) == values(
                (f - 1) * N_FFT + k + HOP_LENGTH,
            ) + values(f * N_FFT + k)
        }),
{
    lemma_added_steps(plan, batch, frame_count, values, p, plan.indices@.len() as int);
    assert(0 < plan.indices@.len());
    law_kept_positions_take_two_frames(plan, batch, frame_count, p, 0);
}

/// A hop of the output depends on the two frames that cover it and on no others: where the
/// samples of frames `q` and `q + 1` agree, so do all sums from output sample `q * HOP_LENGTH` to
/// the next hop.
pub proof fn law_output_hops_depend_on_two_frames(
    plan: IstftPlan,
    batch: i32,
    frame_count: i32,
    values: spec_fn(int) -> int,
    others: spec_fn(int) -> int,
    q: int,
    i: int,
)
    requires
        2 <= frame_count <= i32::MAX / N_FFT,
        plan.describes(batch, frame_count),
        0 <= q < frame_count - 1,
        forall|j: int| q * N_FFT <= j < (q + 2) * N_FFT ==> #[trigger] values(j) == others(j),
        q * HOP_LENGTH <= i < (q + 1) * HOP_LENGTH,
    ensures
        plan.output_start + i < plan.output_end,
        added_at(plan, values, plan.output_start + i, plan.indices@.len() as int) == added_at(
            plan,
            others,
            plan.output_start + i,
            plan.indices@.len() as int,
        ),
{
    let p = plan.output_start + i;
    let (f, k) = (p / (HOP_LENGTH as int), p % (HOP_LENGTH as int));
    assert(f == q + 1);
    law_kept_sums_have_two_terms(plan, batch, frame_count, values, p);
    law_kept_sums_have_two_terms(plan, batch, frame_count, others, p);
    assert(values(q * N_FFT + k + HOP_LENGTH) == others(q * N_FFT + k + HOP_LENGTH));
    assert(values(f * N_FFT + k) == others(f * N_FFT + k));
}

/// The square of the window at sample `j` of all frames.
pub open spec fn squared(window: spec_fn(int) -> int) -> spec_fn(int) -> int {
    |j: int| window(j % (N_FFT as int)) * window(j % (N_FFT as int))
}

/// What the inverse divides by is positive at every kept position, where the window does not
/// vanish at two places that are one hop apart.
pub proof fn law_divisors_are_positive(
    plan: IstftPlan,
    batch: i32,
    frame_count: i32,
    window: spec_fn(int) -> int,
    p: int,
)
    requires
        0 <= frame_count <= i32::MAX / N_FFT,
        plan.describes(batch, frame_count),
        plan.output_start <= p < plan.output_end,
        forall|k: int|
            0 <= k < HOP_LENGTH ==> #[trigger] window(k) != 0 || window(k + HOP_LENGTH) != 0,
    ensures
        added_at(plan, squared(window), p, plan.indices@.len() as int) > 0,
{
    let (f, k) = (p / (HOP_LENGTH as int), p % (HOP_LENGTH as int));
    let (first, second) = ((f - 1) * N_FFT + k + HOP_LENGTH, f * N_FFT + k);
    law_kept_sums_have_two_terms(plan, batch, frame_count, squared(window), p);
    assert(first % (N_FFT as int) == k + HOP_LENGTH);
    assert(second % (N_FFT as int) == k);
    let (u, v) = (window(k + HOP_LENGTH), window(k));
    assert(u * u + v * v > 0) by (nonlinear_arith)
        requires
            u != 0 || v != 0,
    ;
}

/// Sample `j` of all frames of a waveform, multiplied with the window when it was cut out and
/// once more before it is added.
pub open spec fn windowed_twice(
    plan: StftPlan,
    window: spec_fn(int) -> int,
    waveform: spec_fn(int) -> int,
) -> spec_fn(int) -> int {
    |j: int|
        {
            let (f, k) = (j / (N_FFT as int), j % (N_FFT as int));
            window(k) * (window(k) * plan.frame_sample(waveform, f, k))
        }
}

/// The inverse undoes the transform, in exact arithmetic: where frames come back as they were
/// cut out and multiplied with the window, the sum of the frames multiplied with the window
/// once more is, at every kept position, the sample of the waveform times the sum of the
/// squared windows.
pub proof fn law_inverse_undoes_the_transform(
    forward: StftPlan,
    inverse: IstftPlan,
    batch: i32,
    samples: i32,
    window: spec_fn(int) -> int,
    waveform: spec_fn(int) -> int,
    o: int,
)
    requires
        samples > N_FFT / 2,
        forward.describes(batch, samples),
        forward.frames <= i32::MAX / N_FFT,
        inverse.describes(batch, forward.frames),
        0 <= o < inverse.output_end - inverse.output_start,
    ensures
        ({
            let (p, count) = (inverse.output_start + o, inverse.indices@.len() as int);
            added_at(inverse, windowed_twice(forward, window, waveform), p, count) == waveform(o)
                * added_at(inverse, squared(window), p, count)
        }),
{
    let (p, count) = (inverse.output_start + o, inverse.indices@.len() as int);
    let (values, others) = (windowed_twice(forward, window, waveform), squared(window));
    assert forall|j: int| 0 <= j < count && inverse.indices@[j] == p implies #[trigger] values(j)
        == waveform(o) * others(j) by {
        let (f, k) = (j / (N_FFT as int), j % (N_FFT as int));
        assert(f * N_FFT + k == j);
        law_inverse_lines_up(forward, inverse, batch, samples, o, f, k);
        lemma_frame_offset(forward, batch, samples, 0, f, k);
        law_padding_mirrors_the_waveform(forward, batch, samples, f * HOP_LENGTH + k);
        let (a, x) = (window(k), waveform(o));
        assert(forward.frame_sample(waveform, f, k) == x);
        assert(a * (a * x) == x * (a * a)) by (nonlinear_arith);
    }
    lemma_added_factor(inverse, values, others, waveform(o), p, count);
}

/// Dividing the one sum by the other gives back the waveform, sample by sample, where the window
/// does not vanish at two places that are one hop apart.
pub proof fn law_division_gives_back_the_waveform(
    forward: StftPlan,
    inverse: IstftPlan,
    batch: i32,
    samples: i32,
    window: spec_fn(int) -> int,
    waveform: spec_fn(int) -> int,
    o: int,
)
    requires
        samples > N_FFT / 2,
        forward.describes(batch, samples),
        forward.frames <= i32::MAX / N_FFT,
        inverse.describes(batch, forward.frames),
        0 <= o < inverse.output_end - inverse.output_start,
        forall|k: int|
            0 <= k < HOP_LENGTH ==> #[trigger] window(k) != 0 || window(k + HOP_LENGTH) != 0,
    ensures
        ({
            let (p, count) = (inverse.output_start + o, inverse.indices@.len() as int);
            let sum = added_at(inverse, windowed_twice(forward, window, waveform), p, count);
            let divisor = added_at(inverse, squared(window), p, count);
            divisor > 0 && sum % divisor == 0 && sum / divisor == waveform(o)
        }),
{
    let (p, count) = (inverse.output_start + o, inverse.indices@.len() as int);
    let divisor = added_at(inverse, squared(window), p, count);
    law_inverse_undoes_the_transform(forward, inverse, batch, samples, window, waveform, o);
    law_divisors_are_positive(inverse, batch, forward.frames, window, p);
    vstd::arithmetic::div_mod::lemma_div_multiples_vanish(waveform(o), divisor);
    vstd::arithmetic::div_mod::lemma_mod_multiples_basic(waveform(o), divisor);
    assert(divisor * waveform(o) == waveform(o) * divisor) by (nonlinear_arith);
}

} // verus!
