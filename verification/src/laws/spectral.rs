//! Laws of the centred short-time Fourier transform and its inverse.
use crate::error::Error;
use crate::spectral::{IstftPlan, SpectralTransform, StftPlan, HOP_LENGTH, N_FFT};
use crate::text::{decimal, shape_text};
use vstd::prelude::*;

verus! {

/// The sizes of the transform: a frame is two hops long.
pub proof fn law_frames_are_two_hops_long()
    ensures
        N_FFT == 4096,
        HOP_LENGTH == 2048,
        N_FFT == 2 * HOP_LENGTH,
{
}

/// The window holds what was computed for each of its places, each value at its place.
pub proof fn law_window_holds_its_values<F: Fn(i32) -> u32>(
    hann: F,
    transform: SpectralTransform,
    window: &[u32],
    i: i32,
)
    requires
        call_ensures(SpectralTransform::new::<F>, (hann,), transform),
        call_ensures(SpectralTransform::window, (&transform,), window),
        0 <= i < 4096,
    ensures
        window@.len() == 4096,
        call_ensures(hann, (i,), window@[i as int]),
{
    assert(call_ensures(hann, (i,), transform@[i as int]));
}

/// A waveform is transformed exactly where it has two dimensions and more samples than half a
/// window; the message to all others shows their shape.
pub proof fn law_long_waveforms_are_transformed(
    t: &SpectralTransform,
    shape: &[i32],
    r: Result<StftPlan, Error>,
)
    requires
        call_ensures(SpectralTransform::stft, (t, shape), r),
    ensures
        r is Ok <==> shape@.len() == 2 && shape@[1] > 2048,
        match r {
            Ok(plan) => plan.batch == shape@[0] && plan.samples == shape@[1],
            Err(Error::InvalidAudio(m)) => m@ == "STFT expects [batch, samples] with more than "@
                + decimal(2048) + " samples, got "@ + shape_text(shape@),
            Err(_) => false,
        },
{
}

/// Where the element at `(b, f, k)` of the strided view stands in its row, a row being as long as
/// a padded waveform.
pub open spec fn place_in_row(plan: StftPlan, b: int, f: int, k: int) -> int {
    b * plan.frame_strides@[0] + f * plan.frame_strides@[1] + k * plan.frame_strides@[2] - b
        * plan.padded_samples
}

/// Which sample of its waveform stands at place `p` of a row: the left padding comes first, then
/// the waveform, then the right padding.
pub open spec fn sample_at(plan: StftPlan, p: int) -> int {
    let left = plan.left_indices@.len() as int;
    if p < left {
        plan.left_indices@[p] as int
    } else if p - left < plan.samples {
        p - left
    } else {
        plan.right_indices@[p - left - plan.samples] as int
    }
}

/// A row is the waveform with half a window on both sides, in which it is reflected at its first
/// and at its last sample: places at the same distance from such a sample hold the same sample,
/// as far as the padding reaches.
pub proof fn law_rows_are_reflected(
    t: &SpectralTransform,
    shape: &[i32],
    plan: StftPlan,
    d: int,
    p: int,
)
    requires
        call_ensures(SpectralTransform::stft, (t, shape), Ok::<StftPlan, Error>(plan)),
        0 <= d <= 2048,
        2048 <= p < 2048 + plan.samples,
    ensures
        plan.left_indices@.len() == 2048,
        plan.right_indices@.len() == 2048,
        plan.padded_samples == plan.left_indices@.len() + plan.samples
            + plan.right_indices@.len(),
        sample_at(plan, p) == p - 2048,
        sample_at(plan, 2048 - d) == sample_at(plan, 2048 + d),
        ({
            let last = 2048 + plan.samples - 1;
            sample_at(plan, last + d) == sample_at(plan, last - d)
        }),
{
}

/// The strided view holds every frame and nothing else: `(b, f, k)` is one of its elements
/// exactly where there is a waveform `b`, where the centre of frame `f`, sample `f * 2048`, lies in
/// the waveform or right behind it, and where a frame has a sample `k`.
pub proof fn law_view_holds_every_frame(
    t: &SpectralTransform,
    shape: &[i32],
    plan: StftPlan,
    b: int,
    f: int,
    k: int,
)
    requires
        call_ensures(SpectralTransform::stft, (t, shape), Ok::<StftPlan, Error>(plan)),
    ensures
        plan.frame_shape@.len() == 3,
        0 <= b < plan.frame_shape@[0] <==> 0 <= b < shape@[0],
        0 <= f < plan.frame_shape@[1] <==> 0 <= f * 2048 <= shape@[1],
        0 <= k < plan.frame_shape@[2] <==> 0 <= k < 4096,
        plan.frames == plan.frame_shape@[1],
        0 <= f < plan.frames <==> 0 <= f && f * 2048 + 4096 <= plan.padded_samples,
{
}

/// Every element of the view is a sample of its own waveform: sample `k` of frame `f` is the one
/// that lies `k - 2048` after sample `f * 2048`, or what is reflected there.
pub proof fn law_view_reads_its_own_waveform(
    t: &SpectralTransform,
    shape: &[i32],
    plan: StftPlan,
    b: int,
    f: int,
    k: int,
)
    requires
        call_ensures(SpectralTransform::stft, (t, shape), Ok::<StftPlan, Error>(plan)),
        0 <= b < shape@[0],
        0 <= f * 2048 <= shape@[1],
        0 <= k < 4096,
    ensures
        plan.frame_strides@.len() == 3,
        place_in_row(plan, b, f, k) == f * 2048 + k,
        0 <= place_in_row(plan, b, f, k) < plan.padded_samples,
        ({
            let (read, wanted) = (
                sample_at(plan, place_in_row(plan, b, f, k)),
                f * 2048 + k - 2048,
            );
            &&& 0 <= read < shape@[1]
            &&& 0 <= wanted < shape@[1] ==> read == wanted
            &&& wanted < 0 ==> read == -wanted
            &&& wanted >= shape@[1] ==> read - (shape@[1] - 1) == (shape@[1] - 1) - wanted
        }),
{
    let strides = plan.frame_strides@;
    assert(strides[0] == plan.padded_samples && strides[1] == 2048 && strides[2] == 1);
    assert(b * strides[0] + f * strides[1] + k * strides[2] - b * plan.padded_samples == f * 2048
        + k) by (nonlinear_arith)
        requires
            strides[0] == plan.padded_samples,
            strides[1] == 2048,
            strides[2] == 1,
    ;
}

/// A hop more of samples is a frame more, and everything else of a transform is as before.
pub proof fn law_a_hop_more_is_a_frame_more(
    t: &SpectralTransform,
    shape: &[i32],
    longer: &[i32],
    plan: StftPlan,
    other: StftPlan,
)
    requires
        call_ensures(SpectralTransform::stft, (t, shape), Ok::<StftPlan, Error>(plan)),
        call_ensures(SpectralTransform::stft, (t, longer), Ok::<StftPlan, Error>(other)),
        shape@[0] == longer@[0],
        longer@[1] == shape@[1] + 2048,
    ensures
        other.batch == plan.batch,
        other.left_indices@ == plan.left_indices@,
        other.padded_samples == plan.padded_samples + 2048,
        other.frames == plan.frames + 1,
        other.frame_shape@ == plan.frame_shape@.update(1, (plan.frame_shape@[1] + 1) as i32),
        other.frame_strides@.drop_first() == plan.frame_strides@.drop_first(),
        forall|i: int|
            0 <= i < 2048 ==> #[trigger] other.right_indices@[i] == plan.right_indices@[i] + 2048,
{
    assert(other.frame_shape@ =~= plan.frame_shape@.update(
        1,
        (plan.frame_shape@[1] + 1) as i32,
    ));
    assert(other.frame_strides@.drop_first() =~= plan.frame_strides@.drop_first());
}

/// A spectrum is inverted exactly where it has four dimensions, a frequency for every second
/// sample of a window and one more, and two parts of each; the message to all others shows their
/// shape.
pub proof fn law_spectra_are_inverted(
    t: &SpectralTransform,
    shape: &[i32],
    r: Result<IstftPlan, Error>,
)
    requires
        call_ensures(SpectralTransform::istft, (t, shape), r),
    ensures
        r is Ok <==> shape@.len() == 4 && shape@[2] == 2049 && shape@[3] == 2,
        match r {
            Ok(plan) => plan.batch == shape@[0] && plan.frame_count == shape@[1],
            Err(Error::InvalidAudio(m)) => m@ == "iSTFT expects [batch, frames, "@ + decimal(2049)
                + ", 2], got "@ + shape_text(shape@),
            Err(_) => false,
        },
{
}

/// There is one position for every sample of every frame, no more and no fewer: their number is
/// that of the elements of `frame_count` rows of a frame each, and the frames can be reshaped to
/// that number.
pub proof fn law_every_frame_sample_has_a_position(
    t: &SpectralTransform,
    shape: &[i32],
    plan: IstftPlan,
)
    requires
        call_ensures(SpectralTransform::istft, (t, shape), Ok::<IstftPlan, Error>(plan)),
        0 <= shape@[1] <= i32::MAX / 4096,
    ensures
        plan.index_count == plan.indices@.len(),
        plan.index_count == shape@[1] * 4096,
        plan.index_count == plan.frame_count * N_FFT,
{
}

/// Frames are added one hop apart: the first position is that of the sum's start, the samples of
/// a frame follow each other, a frame starts a hop after the one before, and the last sample of
/// the last frame ends the sum.
pub proof fn law_frames_are_added_one_hop_apart(
    t: &SpectralTransform,
    shape: &[i32],
    plan: IstftPlan,
    f: int,
    k: int,
)
    requires
        call_ensures(SpectralTransform::istft, (t, shape), Ok::<IstftPlan, Error>(plan)),
        0 <= f < shape@[1] <= i32::MAX / 4096,
        0 <= k < 4096,
    ensures
        plan.indices@[0] == 0,
        k + 1 < 4096 ==> plan.indices@[f * 4096 + k + 1] == plan.indices@[f * 4096 + k] + 1,
        f + 1 < shape@[1] ==> plan.indices@[(f + 1) * 4096 + k] == plan.indices@[f * 4096 + k]
            + 2048,
        plan.indices@.last() + 1 == plan.overlap_length,
        plan.indices@[f * 4096 + k] < plan.overlap_length,
{
}

/// What is kept of the sum are whole hops, one fewer than frames: half a window is dropped at
/// each end.
pub proof fn law_half_a_window_is_dropped_at_each_end(
    t: &SpectralTransform,
    shape: &[i32],
    plan: IstftPlan,
)
    requires
        call_ensures(SpectralTransform::istft, (t, shape), Ok::<IstftPlan, Error>(plan)),
        0 <= shape@[1] <= i32::MAX / 4096,
    ensures
        plan.output_start == 2048,
        plan.overlap_length - plan.output_end == 2048,
        plan.output_end - plan.output_start == (shape@[1] - 1) * 2048,
{
}

/// A position of the sum is kept exactly where samples of two different frames are added at it;
/// sample `j` of all frames belongs to frame `j / 4096`.
pub proof fn law_positions_of_two_frames_are_kept(
    t: &SpectralTransform,
    shape: &[i32],
    plan: IstftPlan,
    p: int,
)
    requires
        call_ensures(SpectralTransform::istft, (t, shape), Ok::<IstftPlan, Error>(plan)),
        0 <= shape@[1] <= i32::MAX / 4096,
    ensures
        plan.output_start <= p < plan.output_end <==> exists|i: int, j: int|
            0 <= i < j < plan.indices@.len() && #[trigger] plan.indices@[i] == p
                && #[trigger] plan.indices@[j] == p,
{
    if plan.output_start <= p < plan.output_end {
        let (f, k) = (p / 2048, p % 2048);
        let (i, j) = ((f - 1) * 4096 + k + 2048, f * 4096 + k);
        assert(0 <= i < j < plan.indices@.len());
        assert(plan.indices@[i] == p && plan.indices@[j] == p);
    }
}

/// The inverse takes the shape of any spectrum that the transform makes, and lines up with the
/// waveform: all samples that are added at kept position `o` were read from sample `o`. What is
/// lost is the part of the waveform behind its last whole hop.
pub proof fn law_inverse_meets_the_transform(
    t: &SpectralTransform,
    shape: &[i32],
    plan: StftPlan,
    spectrum: &[i32],
    r: Result<IstftPlan, Error>,
    b: int,
    o: int,
    j: int,
)
    requires
        call_ensures(SpectralTransform::stft, (t, shape), Ok::<StftPlan, Error>(plan)),
        spectrum@ == seq![plan.batch, plan.frames, 2049, 2],
        plan.frames <= i32::MAX / 4096,
        call_ensures(SpectralTransform::istft, (t, spectrum), r),
        0 <= b < shape@[0],
    ensures
        r matches Ok(inverse) && {
            &&& inverse.batch == shape@[0]
            &&& inverse.output_end - inverse.output_start == shape@[1] - shape@[1] % 2048
            &&& 0 <= j < inverse.indices@.len() && 0 <= o && inverse.indices@[j]
                == inverse.output_start + o && inverse.indices@[j] < inverse.output_end
                ==> sample_at(plan, place_in_row(plan, b, j / 4096, j % 4096)) == o
        },
{
    let inverse = r->Ok_0;
    let (f, k) = (j / 4096, j % 4096);
    if 0 <= j < inverse.indices@.len() && 0 <= o && inverse.indices@[j] == inverse.output_start + o
        && inverse.indices@[j] < inverse.output_end {
        assert(inverse.indices@[j] == f * 2048 + k);
        law_view_reads_its_own_waveform(t, shape, plan, b, f, k);
    }
}

/// A transform can be planned wherever its padded length is a sample count, and only there.
pub proof fn law_lengths_are_tested(t: &SpectralTransform, shape: &[i32], r: bool)
    requires
        call_ensures(SpectralTransform::can_plan_stft, (shape,), r),
    ensures
        r ==> call_requires(SpectralTransform::stft, (t, shape)),
        !r <==> shape@.len() == 2 && shape@[1] + 4096 > i32::MAX,
{
}

/// An inverse can be planned wherever the samples of its frames can be counted, and only there;
/// what is refused anyway needs no plan.
pub proof fn law_frame_counts_are_tested(t: &SpectralTransform, shape: &[i32], r: bool)
    requires
        call_ensures(SpectralTransform::can_plan_istft, (shape,), r),
    ensures
        r ==> call_requires(SpectralTransform::istft, (t, shape)),
        !r <==> {
            &&& shape@.len() == 4 && shape@[2] == 2049 && shape@[3] == 2
            &&& shape@[1] < 0 || shape@[1] * 4096 > i32::MAX
        },
{
}

} // verus!
