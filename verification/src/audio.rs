//! Audio decoding decisions, preprocessing and postprocessing.
//!
//! Samples are 32-bit IEEE floats and are held by their bit patterns. Their arithmetic is
//! handed in as closures; what is decided here is which samples it is applied to and what
//! becomes of its results.
use crate::error::{error_text, Error, ErrorView};
use crate::text::{decode_lossy, digits, lossy_text, push_number, views};
use vstd::prelude::*;
use vstd::utf8::{encode_utf8, valid_utf8};

verus! {

/// Model sample rate.
pub const SAMPLE_RATE: u32 = 48_000;

/// The bit pattern of `1.0`.
pub const ONE: u32 = 0x3f80_0000;

/// The bit pattern of positive infinity, the largest magnitude of a number.
pub const INFINITE: u32 = 0x7f80_0000;

/// The bit of the sign, set in negative numbers.
pub const SIGN: u32 = 0x8000_0000;

/// A mono floating-point waveform and its sample rate.
#[derive(Debug, Clone)]
pub struct AudioBuffer {
    /// Bit patterns of the samples.
    pub samples: Vec<u32>,
    /// Samples per second.
    pub sample_rate: u32,
}

/// What a decoder made of an audio file.
#[derive(Debug)]
pub struct Waveform {
    /// Bit patterns of the samples.
    pub interleaved_samples: Vec<u32>,
    /// Frames per second.
    pub frame_rate_hz: u32,
}

/// What a decoder is asked for.
#[derive(Debug)]
pub struct WaveformArgs {
    /// Frame rate to resample to.
    pub frame_rate_hz: u32,
    /// Whether to average all channels into one.
    pub convert_to_mono: bool,
}

/// A file that a decoder is to read.
#[derive(Debug)]
pub struct FileRequest<'a> {
    /// Path of the file.
    pub path: &'a str,
    /// What the decoder is asked for.
    pub args: WaveformArgs,
}

/// How the transcoder is run: its program with some arguments, the path of the input, and the
/// other arguments.
#[derive(Debug)]
pub struct TranscoderCommand {
    /// Name of the program.
    pub program: String,
    /// Arguments in front of the path.
    pub before_path: Vec<String>,
    /// Arguments behind the path.
    pub after_path: Vec<String>,
}

/// What a transcoder process left behind.
#[derive(Debug)]
pub struct ProcessOutput {
    /// Whether the process reported success.
    pub success: bool,
    /// How the process ended, in words.
    pub status: String,
    /// Everything on its standard output.
    pub stdout: Vec<u8>,
    /// Everything on its standard error.
    pub stderr: Vec<u8>,
}

/// Encoded audio that a decoder is to be handed.
#[derive(Debug)]
pub struct DecodeRequest {
    /// The encoded audio.
    pub bytes: Vec<u8>,
    /// What the decoder is asked for.
    pub args: WaveformArgs,
    /// File name extension of the encoding.
    pub file_extension: String,
    /// MIME type of the encoding.
    pub mime_type: String,
}

/// What to do after the first attempt to decode a file.
#[derive(Debug)]
pub enum LoadStep {
    /// The file is decoded.
    Loaded(AudioBuffer),
    /// The file has to be transcoded first.
    TryFallback {
        /// Error of the first attempt.
        babycat: String,
    },
}

/// How the samples of a WAV file are stored.
#[derive(Debug, Clone, Copy)]
pub struct WavSpec {
    /// Number of channels.
    pub channels: u16,
    /// Samples per second.
    pub sample_rate: u32,
    /// Bits per sample.
    pub bits_per_sample: u16,
    /// Whether samples are IEEE floats.
    pub float: bool,
}

/// The inputs and the outputs that one output of the high-pass filter is made of.
#[derive(Debug, Clone, Copy)]
pub struct Taps {
    /// The sample that is filtered.
    pub input: u32,
    /// The sample before it.
    pub input_1: u32,
    /// The sample before that.
    pub input_2: u32,
    /// The output for the sample before.
    pub output_1: u32,
    /// The output for the sample before that.
    pub output_2: u32,
}

/// The magnitude of a sample: its bit pattern without the sign. Magnitudes order as the
/// absolute values that they stand for.
pub open spec fn magnitude(bits: u32) -> u32 {
    if bits >= SIGN {
        (bits - SIGN) as u32
    } else {
        bits
    }
}

/// The pattern stands for no number.
pub open spec fn is_nan(bits: u32) -> bool {
    magnitude(bits) > INFINITE
}

/// Where a number stands among all others, negative ones below zero.
pub open spec fn rank(bits: u32) -> int {
    if bits >= SIGN {
        -(magnitude(bits) as int)
    } else {
        magnitude(bits) as int
    }
}

/// A sample limited to the range from `-1.0` to `1.0`; what is no number stays as it is.
pub open spec fn clamped(bits: u32) -> u32 {
    if is_nan(bits) || magnitude(bits) <= ONE {
        bits
    } else if bits >= SIGN {
        (SIGN + ONE) as u32
    } else {
        ONE
    }
}

/// `peak` is the largest magnitude of all samples that are numbers, and zero where there is
/// none.
pub open spec fn is_peak(samples: Seq<u32>, peak: u32) -> bool {
    &&& forall|i: int|
        0 <= i < samples.len() && !is_nan(#[trigger] samples[i]) ==> magnitude(samples[i]) <= peak
    &&& peak != 0 ==> exists|i: int|
        0 <= i < samples.len() && !is_nan(#[trigger] samples[i]) && magnitude(samples[i]) == peak
}

/// Item `i` of a signal that is zero before its start.
pub open spec fn delayed(signal: Seq<u32>, i: int) -> u32 {
    if i < 0 {
        0
    } else {
        signal[i]
    }
}

/// What output `i` of the filter is made of.
pub open spec fn taps_at(inputs: Seq<u32>, outputs: Seq<u32>, i: int) -> Taps {
    Taps {
        input: inputs[i],
        input_1: delayed(inputs, i - 1),
        input_2: delayed(inputs, i - 2),
        output_1: delayed(outputs, i - 1),
        output_2: delayed(outputs, i - 2),
    }
}

/// `outputs` is what the filter makes of `inputs` by an arithmetic `f`: each output is made of
/// the last three inputs and the last two outputs, which are not limited in between.
pub open spec fn filters<F: Fn(Taps) -> u32>(f: F, inputs: Seq<u32>, outputs: Seq<u32>) -> bool {
    &&& outputs.len() == inputs.len()
    &&& forall|i: int|
        0 <= i < outputs.len() ==> call_ensures(
            f,
            (taps_at(inputs, outputs, i),),
            #[trigger] outputs[i],
        )
}

/// `stored` is what is kept of the filter's outputs for `inputs`, each of them limited.
pub open spec fn filtered<F: Fn(Taps) -> u32>(f: F, inputs: Seq<u32>, stored: Seq<u32>) -> bool {
    exists|outputs: Seq<u32>| #[trigger]
        filters(f, inputs, outputs) && stored == outputs.map_values(|bits: u32| clamped(bits))
}

/// The arithmetic of the filter always gives the same result for the same taps.
pub open spec fn determined<F: Fn(Taps) -> u32>(f: F) -> bool {
    forall|taps: Taps, a: u32, b: u32| #[trigger]
        call_ensures(f, (taps,), a) && #[trigger] call_ensures(f, (taps,), b) ==> a == b
}

/// The arithmetic of the filter makes zero of zeros.
pub open spec fn keeps_silence<F: Fn(Taps) -> u32>(f: F) -> bool {
    forall|a: u32| #[trigger]
        call_ensures(
            f,
            (Taps { input: 0, input_1: 0, input_2: 0, output_1: 0, output_2: 0 },),
            a,
        ) ==> a == 0
}

/// Two samples are opposite, the sign of zero aside; what is no number is opposite to what is
/// none either.
pub open spec fn opposite(a: u32, b: u32) -> bool {
    &&& is_nan(a) <==> is_nan(b)
    &&& !is_nan(a) ==> rank(a) == -rank(b)
}

/// Two signals are opposite, sample by sample.
pub open spec fn opposite_signals(a: Seq<u32>, b: Seq<u32>) -> bool {
    &&& a.len() == b.len()
    &&& forall|i: int| 0 <= i < a.len() ==> #[trigger] opposite(a[i], b[i])
}

/// All that two outputs of the filter are made of is opposite.
pub open spec fn opposite_taps(a: Taps, b: Taps) -> bool {
    &&& opposite(a.input, b.input)
    &&& opposite(a.input_1, b.input_1)
    &&& opposite(a.input_2, b.input_2)
    &&& opposite(a.output_1, b.output_1)
    &&& opposite(a.output_2, b.output_2)
}

/// The arithmetic of the filter gives opposite results for opposite taps.
pub open spec fn is_odd<F: Fn(Taps) -> u32>(f: F) -> bool {
    forall|t: Taps, u: Taps, a: u32, b: u32| #[trigger]
        call_ensures(f, (t,), a) && #[trigger] call_ensures(f, (u,), b) && opposite_taps(t, u)
            ==> opposite(a, b)
}

/// Two samples are the same, or opposite where `negative` says so.
pub open spec fn alike(a: u32, b: u32, negative: bool) -> bool {
    if negative {
        opposite(a, b)
    } else {
        a == b || is_nan(a) && is_nan(b)
    }
}

/// `gain` makes samples louder or softer: it keeps numbers apart from what is none, and never
/// makes the larger of two magnitudes the smaller.
pub open spec fn is_gain(gain: spec_fn(u32) -> u32) -> bool {
    &&& forall|s: u32| is_nan(#[trigger] gain(s)) <==> is_nan(s)
    &&& forall|s: u32, t: u32|
        !is_nan(s) && !is_nan(t) && magnitude(s) <= magnitude(t) ==> magnitude(#[trigger] gain(s))
            <= magnitude(#[trigger] gain(t))
}

/// A gain leaves quotients as they are, or makes them opposite where it is negative: a sample
/// that is no larger than the peak divided by the peak, and both after the gain.
pub open spec fn cancels_gain<F: Fn(u32, u32) -> u32>(
    divide: F,
    gain: spec_fn(u32) -> u32,
    negative: bool,
    peak: u32,
) -> bool {
    forall|s: u32, q: u32, r: u32| #[trigger]
        call_ensures(divide, (s, peak), q) && #[trigger] call_ensures(
            divide,
            (gain(s), magnitude(gain(peak))),
            r,
        ) && (is_nan(s) || magnitude(s) <= peak) ==> alike(q, r, negative)
}

/// A signal of `k` zeros.
pub open spec fn silence(k: nat) -> Seq<u32> {
    Seq::new(k, |i: int| 0u32)
}

/// `r` is what becomes of `buffer` when it is preprocessed by an arithmetic `f`.
pub open spec fn preprocesses<F: Fn(Taps) -> u32>(
    f: F,
    buffer: AudioBuffer,
    r: Result<AudioBuffer, Error>,
) -> bool {
    match r {
        Ok(done) => {
            &&& buffer.sample_rate == SAMPLE_RATE
            &&& done.sample_rate == SAMPLE_RATE
            &&& filtered(f, buffer.samples@, done.samples@)
        },
        Err(e) => buffer.sample_rate != SAMPLE_RATE && e@ == rate_refusal(buffer.sample_rate),
    }
}

/// `after` is what becomes of `before` when it is normalized by a division `divide`, and `peak`
/// is the peak that was found.
pub open spec fn normalizes<F: Fn(u32, u32) -> u32>(
    divide: F,
    before: Seq<u32>,
    after: Seq<u32>,
    peak: u32,
) -> bool {
    &&& is_peak(before, peak)
    &&& peak == 0 ==> after == before
    &&& peak != 0 ==> {
        &&& after.len() == before.len()
        &&& forall|i: int|
            0 <= i < before.len() ==> call_ensures(divide, (before[i], peak), #[trigger] after[i])
    }
}

/// Dividing by the peak of a signal, as far as it matters for magnitudes: what is no number
/// stays none and nothing else becomes one, a number up to the peak becomes one up to `1.0`, and
/// one as large as the peak becomes `1.0` or `-1.0`.
pub open spec fn scales_to_one<F: Fn(u32, u32) -> u32>(divide: F, peak: u32) -> bool {
    forall|s: u32, q: u32| #[trigger]
        call_ensures(divide, (s, peak), q) ==> {
            &&& is_nan(q) <==> is_nan(s)
            &&& !is_nan(s) && magnitude(s) <= peak ==> magnitude(q) <= ONE
            &&& magnitude(s) == peak ==> magnitude(q) == ONE
        }
}

/// Dividing a number by `1.0` gives the number.
pub open spec fn divides_by_one<F: Fn(u32, u32) -> u32>(divide: F) -> bool {
    forall|s: u32, q: u32| #[trigger]
        call_ensures(divide, (s, ONE), q) && !is_nan(s) ==> q == s
}

/// `r` is what is made of a decoder's answer.
pub open spec fn finishes_decoding(
    decoded: Result<Waveform, String>,
    r: Result<AudioBuffer, String>,
) -> bool {
    match (decoded, r) {
        (Ok(w), Ok(buffer)) => {
            &&& w.interleaved_samples@.len() > 0
            &&& buffer.samples == w.interleaved_samples
            &&& buffer.sample_rate == w.frame_rate_hz
        },
        (Ok(w), Err(m)) => w.interleaved_samples@.len() == 0 && m@ == error_text(empty_refusal()),
        (Err(failure), Err(m)) => m@ == failure@,
        (Err(_), Ok(_)) => false,
    }
}

/// The answer to audio of another rate than the model's.
pub open spec fn rate_refusal(sample_rate: u32) -> ErrorView {
    ErrorView::InvalidAudio(
        "decoded audio has sample rate "@ + digits(sample_rate as nat) + ", expected "@ + digits(
            SAMPLE_RATE as nat,
        ),
    )
}

/// The answer to a waveform without samples.
pub open spec fn empty_refusal() -> ErrorView {
    ErrorView::InvalidAudio("audio contains no samples"@)
}

/// What a decoder is asked for: the model rate, in one channel.
pub fn waveform_args() -> (r: WaveformArgs)
    ensures
        r.frame_rate_hz == SAMPLE_RATE,
        r.convert_to_mono,
{
    WaveformArgs { frame_rate_hz: SAMPLE_RATE, convert_to_mono: true }
}

/// Take over a decoded waveform that holds any samples.
pub fn audio_buffer_from_waveform(waveform: Waveform) -> (r: Result<AudioBuffer, Error>)
    ensures
        match r {
            Ok(buffer) => {
                &&& waveform.interleaved_samples@.len() > 0
                &&& buffer.samples == waveform.interleaved_samples
                &&& buffer.sample_rate == waveform.frame_rate_hz
            },
            Err(e) => waveform.interleaved_samples@.len() == 0 && e@ == empty_refusal(),
        },
{
    if waveform.interleaved_samples.len() == 0 {
        return Err(Error::InvalidAudio("audio contains no samples".to_owned()));
    }
    Ok(
        AudioBuffer {
            samples: waveform.interleaved_samples,
            sample_rate: waveform.frame_rate_hz,
        },
    )
}

/// Take over what a decoder answered, its errors as messages.
pub fn finish_decoding(decoded: Result<Waveform, String>) -> (r: Result<AudioBuffer, String>)
    ensures
        finishes_decoding(decoded, r),
{
    match decoded {
        Ok(waveform) => match audio_buffer_from_waveform(waveform) {
            Ok(buffer) => Ok(buffer),
            Err(e) => Err(e.message()),
        },
        Err(m) => Err(m),
    }
}

/// Decide what the primary decoder is to read, from a path as text, where it is UTF-8, and as
/// it is shown in messages.
pub fn load_with_babycat_file<'a>(text: Option<&'a str>, rendered: &str) -> (r: Result<
    FileRequest<'a>,
    String,
>)
    ensures
        match (text, r) {
            (Some(path), Ok(request)) => {
                &&& request.path == path
                &&& request.args.frame_rate_hz == SAMPLE_RATE
                &&& request.args.convert_to_mono
            },
            (None, Err(m)) => m@ == "path is not valid UTF-8: "@ + rendered@,
            _ => false,
        },
{
    match text {
        Some(path) => Ok(FileRequest { path, args: waveform_args() }),
        None => {
            let mut text: String = String::new();
            text.append("path is not valid UTF-8: ");
            text.append(rendered);
            Err(text)
        },
    }
}

/// How the transcoder is run on a file: without chatter, from the file to a WAV of 32-bit floats
/// on its standard output.
pub fn ffmpeg_command() -> (r: TranscoderCommand)
    ensures
        r.program@ == "ffmpeg"@,
        views(r.before_path@) == seq!["-v"@, "error"@, "-i"@],
        views(r.after_path@) == seq!["-f"@, "wav"@, "-acodec"@, "pcm_f32le"@, "pipe:1"@],
{
    let before_path: Vec<String> = vec!["-v".to_owned(), "error".to_owned(), "-i".to_owned()];
    let after_path: Vec<String> = vec![
        "-f".to_owned(),
        "wav".to_owned(),
        "-acodec".to_owned(),
        "pcm_f32le".to_owned(),
        "pipe:1".to_owned(),
    ];
    assert(views(before_path@) =~= seq!["-v"@, "error"@, "-i"@]);
    assert(views(after_path@) =~= seq!["-f"@, "wav"@, "-acodec"@, "pcm_f32le"@, "pipe:1"@]);
    TranscoderCommand { program: "ffmpeg".to_owned(), before_path, after_path }
}

/// Decide what to decode after the transcoder `ffmpeg`: what it wrote, or nothing, and why.
///
/// `run` is the error of starting the process, or what the process left behind.
pub fn load_with_ffmpeg_fallback(run: Result<ProcessOutput, String>) -> (r: Result<
    DecodeRequest,
    String,
>)
    ensures
        match run {
            Err(failure) => r matches Err(m) && m@ == "failed to start ffmpeg: "@ + failure@,
            Ok(output) => if !output.success {
                &&& r matches Err(m)
                &&& m@ == "ffmpeg exited with "@ + output.status@ + ": "@ + lossy_text(
                    output.stderr@,
                )
                &&& valid_utf8(output.stderr@) ==> encode_utf8(lossy_text(output.stderr@))
                    == output.stderr@
            } else {
                &&& r matches Ok(request)
                &&& request.bytes == output.stdout
                &&& request.args.frame_rate_hz == SAMPLE_RATE
                &&& request.args.convert_to_mono
                &&& request.file_extension@ == "wav"@
                &&& request.mime_type@ == "audio/wav"@
            },
        },
{
    match run {
        Err(failure) => {
            let mut text: String = String::new();
            text.append("failed to start ffmpeg: ");
            text.append(failure.as_str());
            Err(text)
        },
        Ok(output) => {
            if !output.success {
                let stderr: String = decode_lossy(output.stderr.as_slice());
                let mut text: String = String::new();
                text.append("ffmpeg exited with ");
                text.append(output.status.as_str());
                text.append(": ");
                text.append(stderr.as_str());
                return Err(text);
            }
            Ok(
                DecodeRequest {
                    bytes: output.stdout,
                    args: waveform_args(),
                    file_extension: "wav".to_owned(),
                    mime_type: "audio/wav".to_owned(),
                },
            )
        },
    }
}

impl AudioBuffer {
    /// Decide what to do after the primary decoder: its audio is taken, and where it failed the
    /// fallback is tried.
    pub fn load(primary: Result<AudioBuffer, String>) -> (r: LoadStep)
        ensures
            match primary {
                Ok(buffer) => r == LoadStep::Loaded(buffer),
                Err(babycat) => r == (LoadStep::TryFallback { babycat }),
            },
    {
        match primary {
            Ok(buffer) => LoadStep::Loaded(buffer),
            Err(babycat) => LoadStep::TryFallback { babycat },
        }
    }

    /// Decide what to answer after the fallback: its audio, or the errors of both decoders.
    pub fn load_fallback(babycat: String, fallback: Result<AudioBuffer, String>) -> (r: Result<
        AudioBuffer,
        Error,
    >)
        ensures
            match fallback {
                Ok(buffer) => r == Ok::<AudioBuffer, Error>(buffer),
                Err(failure) => r matches Err(e) && e@ == (ErrorView::AudioDecode {
                    babycat: babycat@,
                    fallback: failure@,
                }),
            },
    {
        match fallback {
            Ok(buffer) => Ok(buffer),
            Err(fallback) => Err(Error::AudioDecode { babycat, fallback }),
        }
    }

    /// Apply the high-pass filter to audio of the model rate. `weighted_sum` computes one output
    /// from its taps; outputs are limited to the range from `-1.0` to `1.0` where they are
    /// stored, and not where they are fed back.
    pub fn preprocess<F: Fn(Taps) -> u32>(self, weighted_sum: F) -> (r: Result<Self, Error>)
        requires
            forall|taps: Taps| call_requires(weighted_sum, (taps,)),
        ensures
            preprocesses(weighted_sum, self, r),
    {
        if self.sample_rate != SAMPLE_RATE {
            let mut text: String = String::new();
            text.append("decoded audio has sample rate ");
            push_number(&mut text, self.sample_rate);
            text.append(", expected ");
            push_number(&mut text, SAMPLE_RATE);
            return Err(Error::InvalidAudio(text));
        }
        let mut samples: Vec<u32> = self.samples;
        highpass_biquad_in_place(&mut samples, weighted_sum);
        Ok(AudioBuffer { samples, sample_rate: self.sample_rate })
    }

    /// Normalize by absolute peak, returning the peak for later restoration. `divide` computes
    /// a sample divided by the peak, which is not zero there.
    pub fn normalize<F: Fn(u32, u32) -> u32>(&mut self, divide: F) -> (peak: u32)
        requires
            forall|sample: u32, peak: u32| peak != 0 ==> call_requires(divide, (sample, peak)),
        ensures
            normalizes(divide, old(self).samples@, final(self).samples@, peak),
            final(self).sample_rate == old(self).sample_rate,
    {
        let mut peak: u32 = 0;
        let mut i: usize = 0;
        while i < self.samples.len()
            invariant
                self == old(self),
                i <= self.samples@.len(),
                is_peak(self.samples@.take(i as int), peak),
            decreases self.samples@.len() - i,
        {
            let ghost before = peak;
            let bits: u32 = self.samples[i];
            let size: u32 = if bits >= SIGN { bits - SIGN } else { bits };
            if size <= INFINITE && size > peak {
                peak = size;
            }
            i += 1;
            proof {
                let (shorter, longer) = (self.samples@.take(i - 1), self.samples@.take(i as int));
                assert(longer =~= shorter.push(bits));
                if peak != before {
                    assert(longer[i - 1] == bits);
                } else if peak != 0 {
                    let k = choose|k: int|
                        0 <= k < shorter.len() && !is_nan(#[trigger] shorter[k]) && magnitude(
                            shorter[k],
                        ) == peak;
                    assert(longer[k] == shorter[k]);
                }
                assert forall|k: int|
                    0 <= k < longer.len() && !is_nan(#[trigger] longer[k]) implies magnitude(
                    longer[k],
                ) <= peak by {
                    if k < i - 1 {
                        assert(longer[k] == shorter[k]);
                    }
                }
            }
        }
        assert(self.samples@.take(i as int) =~= self.samples@);
        if peak > 0 {
            let mut i: usize = 0;
            while i < self.samples.len()
                invariant
                    i <= self.samples@.len(),
                    self.samples@.len() == old(self).samples@.len(),
                    self.sample_rate == old(self).sample_rate,
                    peak != 0,
                    forall|sample: u32, peak: u32|
                        peak != 0 ==> call_requires(divide, (sample, peak)),
                    forall|k: int|
                        0 <= k < i ==> call_ensures(
                            divide,
                            (old(self).samples@[k], peak),
                            #[trigger] self.samples@[k],
                        ),
                    forall|k: int|
                        i <= k < self.samples@.len() ==> self.samples@[k] == old(self).samples@[k],
                decreases self.samples@.len() - i,
            {
                let quotient: u32 = divide(self.samples[i], peak);
                self.samples.set(i, quotient);
                i += 1;
            }
        }
        peak
    }

    /// How the samples are stored in a WAV file: one channel of 32-bit floats.
    pub fn wav_spec(&self) -> (r: WavSpec)
        ensures
            r.channels == 1,
            r.sample_rate == self.sample_rate,
            r.bits_per_sample == 32,
            r.float,
    {
        WavSpec { channels: 1, sample_rate: self.sample_rate, bits_per_sample: 32, float: true }
    }
}

/// A sample limited to the range from `-1.0` to `1.0`.
fn clamp_sample(bits: u32) -> (r: u32)
    ensures
        r == clamped(bits),
{
    let size: u32 = if bits >= SIGN { bits - SIGN } else { bits };
    if size > INFINITE || size <= ONE {
        bits
    } else if bits >= SIGN {
        SIGN + ONE
    } else {
        ONE
    }
}

/// Filter all samples in place, each output limited where it is stored.
pub fn highpass_biquad_in_place<F: Fn(Taps) -> u32>(waveform: &mut Vec<u32>, weighted_sum: F)
    requires
        forall|taps: Taps| call_requires(weighted_sum, (taps,)),
    ensures
        filtered(weighted_sum, old(waveform)@, final(waveform)@),
{
    let ghost inputs: Seq<u32> = waveform@;
    let ghost mut outputs: Seq<u32> = Seq::empty();
    let mut input_1: u32 = 0;
    let mut input_2: u32 = 0;
    let mut output_1: u32 = 0;
    let mut output_2: u32 = 0;
    let mut i: usize = 0;
    while i < waveform.len()
        invariant
            i <= waveform@.len(),
            waveform@.len() == inputs.len(),
            forall|taps: Taps| call_requires(weighted_sum, (taps,)),
            outputs.len() == i,
            forall|k: int|
                0 <= k < i ==> call_ensures(
                    weighted_sum,
                    (taps_at(inputs, outputs, k),),
                    #[trigger] outputs[k],
                ),
            forall|k: int| 0 <= k < i ==> #[trigger] waveform@[k] == clamped(outputs[k]),
            forall|k: int| i <= k < inputs.len() ==> #[trigger] waveform@[k] == inputs[k],
            input_1 == delayed(inputs, i - 1),
            input_2 == delayed(inputs, i - 2),
            output_1 == delayed(outputs, i - 1),
            output_2 == delayed(outputs, i - 2),
        decreases waveform@.len() - i,
    {
        let input: u32 = waveform[i];
        let output: u32 = weighted_sum(Taps { input, input_1, input_2, output_1, output_2 });
        input_2 = input_1;
        input_1 = input;
        output_2 = output_1;
        output_1 = output;
        waveform.set(i, clamp_sample(output));
        proof {
            let longer = outputs.push(output);
            assert forall|k: int| 0 <= k < i + 1 implies call_ensures(
                weighted_sum,
                (taps_at(inputs, longer, k),),
                #[trigger] longer[k],
            ) by {
                assert(taps_at(inputs, longer, k) == taps_at(inputs, outputs, k));
                if k < i {
                    assert(longer[k] == outputs[k]);
                }
            }
            outputs = longer;
        }
        i += 1;
    }
    assert(filters(weighted_sum, inputs, outputs));
    assert(waveform@ =~= outputs.map_values(|bits: u32| clamped(bits)));
}

/// There is one peak.
pub proof fn law_peak_is_unique(samples: Seq<u32>, p: u32, q: u32)
    requires
        is_peak(samples, p),
        is_peak(samples, q),
    ensures
        p == q,
{
}

/// A normalized signal has the peak `1.0`, unless its peak was zero or infinite.
pub proof fn law_normalized_peak_is_one<F: Fn(u32, u32) -> u32>(
    divide: F,
    before: Seq<u32>,
    after: Seq<u32>,
    peak: u32,
)
    requires
        scales_to_one(divide, peak),
        normalizes(divide, before, after, peak),
        0 < peak < INFINITE,
    ensures
        is_peak(after, ONE),
{
    let i = choose|i: int|
        0 <= i < before.len() && !is_nan(#[trigger] before[i]) && magnitude(before[i]) == peak;
    assert(!is_nan(after[i]) && magnitude(after[i]) == ONE);
}

/// Normalizing again changes nothing, unless the peak was infinite: silence stays silence, and
/// otherwise the peak is `1.0` and every sample that is a number stays as it is, which is every
/// sample where all of them were numbers.
pub proof fn law_normalizing_again_changes_nothing<F: Fn(u32, u32) -> u32>(
    divide: F,
    before: Seq<u32>,
    once: Seq<u32>,
    twice: Seq<u32>,
    peak: u32,
    second_peak: u32,
)
    requires
        peak != 0 ==> scales_to_one(divide, peak),
        divides_by_one(divide),
        normalizes(divide, before, once, peak),
        normalizes(divide, once, twice, second_peak),
        peak < INFINITE,
    ensures
        second_peak == if peak == 0 {
            0
        } else {
            ONE
        },
        peak == 0 ==> twice == once,
        twice.len() == once.len(),
        forall|i: int| 0 <= i < once.len() && !is_nan(once[i]) ==> #[trigger] twice[i] == once[i],
        (forall|i: int| 0 <= i < before.len() ==> !is_nan(#[trigger] before[i])) ==> twice == once,
{
    if peak == 0 {
        law_peak_is_unique(before, peak, second_peak);
    } else {
        law_normalized_peak_is_one(divide, before, once, peak);
        law_peak_is_unique(once, ONE, second_peak);
        if forall|i: int| 0 <= i < before.len() ==> !is_nan(#[trigger] before[i]) {
            assert forall|i: int| 0 <= i < once.len() implies twice[i] == once[i] by {
                assert(!is_nan(before[i]));
                assert(!is_nan(once[i]));
            }
            assert(twice =~= once);
        }
    }
}

/// A stored sample lies between `-1.0` and `1.0` unless it is no number. One that does already
/// is stored as it is, and no two samples change places.
pub proof fn law_stored_samples_are_limited(bits: u32, other: u32)
    ensures
        is_nan(clamped(bits)) <==> is_nan(bits),
        !is_nan(bits) ==> -(ONE as int) <= rank(clamped(bits)) <= ONE,
        -(ONE as int) <= rank(bits) <= ONE ==> clamped(bits) == bits,
        !is_nan(bits) && !is_nan(other) && rank(bits) <= rank(other) ==> rank(clamped(bits))
            <= rank(clamped(other)),
        clamped(clamped(bits)) == clamped(bits),
{
}

/// The filter is causal, and its outputs are determined by its inputs: where the arithmetic
/// always gives the same result, signals that start alike come out alike as far as they agree.
pub proof fn law_filter_is_causal<F: Fn(Taps) -> u32>(
    f: F,
    inputs: Seq<u32>,
    outputs: Seq<u32>,
    other_inputs: Seq<u32>,
    other_outputs: Seq<u32>,
    n: int,
)
    requires
        determined(f),
        filters(f, inputs, outputs),
        filters(f, other_inputs, other_outputs),
        0 <= n <= inputs.len(),
        n <= other_inputs.len(),
        inputs.take(n) == other_inputs.take(n),
    ensures
        outputs.take(n) == other_outputs.take(n),
    decreases n,
{
    if n > 0 {
        let i = n - 1;
        assert(inputs.take(i) =~= inputs.take(n).take(i));
        assert(other_inputs.take(i) =~= other_inputs.take(n).take(i));
        law_filter_is_causal(f, inputs, outputs, other_inputs, other_outputs, i);
        assert(forall|k: int| 0 <= k < n ==> inputs.take(n)[k] == inputs[k]);
        assert(forall|k: int| 0 <= k < n ==> other_inputs.take(n)[k] == other_inputs[k]);
        assert(forall|k: int| 0 <= k < i ==> outputs.take(i)[k] == outputs[k]);
        assert(forall|k: int| 0 <= k < i ==> other_outputs.take(i)[k] == other_outputs[k]);
        assert(taps_at(inputs, outputs, i) == taps_at(other_inputs, other_outputs, i));
        let taps = taps_at(inputs, outputs, i);
        assert(call_ensures(f, (taps,), outputs[i]));
        assert(call_ensures(f, (taps,), other_outputs[i]));
        assert(outputs[i] == other_outputs[i]);
    }
    assert(outputs.take(n) =~= other_outputs.take(n));
}

/// No stored sample depends on later inputs, and every call starts anew: what is stored for a
/// signal is stored for it too where another signal follows.
pub proof fn law_stored_samples_are_causal<F: Fn(Taps) -> u32>(
    f: F,
    inputs: Seq<u32>,
    more: Seq<u32>,
    stored: Seq<u32>,
    all_stored: Seq<u32>,
)
    requires
        determined(f),
        filtered(f, inputs, stored),
        filtered(f, inputs + more, all_stored),
    ensures
        all_stored.take(inputs.len() as int) == stored,
{
    let outputs = choose|outputs: Seq<u32>| #[trigger]
        filters(f, inputs, outputs) && stored == outputs.map_values(|bits: u32| clamped(bits));
    let all_outputs = choose|outputs: Seq<u32>| #[trigger]
        filters(f, inputs + more, outputs) && all_stored == outputs.map_values(
            |bits: u32| clamped(bits),
        );
    let n = inputs.len() as int;
    assert((inputs + more).take(n) =~= inputs.take(n));
    law_filter_is_causal(f, inputs, outputs, inputs + more, all_outputs, n);
    assert forall|i: int| 0 <= i < n implies all_stored[i] == stored[i] by {
        assert(outputs.take(n)[i] == outputs[i]);
        assert(all_outputs.take(n)[i] == all_outputs[i]);
    }
    assert(all_stored.take(n) =~= stored);
}

/// Zeros in front of a signal come out as zeros in front of its outputs, for the first `n`
/// outputs.
proof fn lemma_silence_delays<F: Fn(Taps) -> u32>(
    f: F,
    k: nat,
    inputs: Seq<u32>,
    outputs: Seq<u32>,
    late_outputs: Seq<u32>,
    n: int,
)
    requires
        determined(f),
        keeps_silence(f),
        filters(f, inputs, outputs),
        filters(f, silence(k) + inputs, late_outputs),
        0 <= n <= late_outputs.len(),
    ensures
        forall|i: int|
            0 <= i < n ==> #[trigger] late_outputs[i] == (silence(k) + outputs)[i],
    decreases n,
{
    if n > 0 {
        let i = n - 1;
        let late_inputs = silence(k) + inputs;
        lemma_silence_delays(f, k, inputs, outputs, late_outputs, i);
        let taps = taps_at(late_inputs, late_outputs, i);
        assert(call_ensures(f, (taps,), late_outputs[i]));
        if i < k {
            assert(taps == Taps { input: 0, input_1: 0, input_2: 0, output_1: 0, output_2: 0 });
        } else {
            assert(taps == taps_at(inputs, outputs, i - k));
            assert(call_ensures(f, (taps,), outputs[i - k]));
        }
    }
}

/// A delayed signal comes out equally delayed: zeros in front of the inputs come out as zeros in
/// front of the same outputs, where the arithmetic makes zero of zeros.
pub proof fn law_silence_only_delays<F: Fn(Taps) -> u32>(
    f: F,
    k: nat,
    inputs: Seq<u32>,
    outputs: Seq<u32>,
    late_outputs: Seq<u32>,
)
    requires
        determined(f),
        keeps_silence(f),
        filters(f, inputs, outputs),
        filters(f, silence(k) + inputs, late_outputs),
    ensures
        late_outputs == silence(k) + outputs,
{
    lemma_silence_delays(f, k, inputs, outputs, late_outputs, late_outputs.len() as int);
    assert(late_outputs =~= silence(k) + outputs);
}

/// What is stored of a delayed signal is equally delayed.
pub proof fn law_silence_only_delays_stored_samples<F: Fn(Taps) -> u32>(
    f: F,
    k: nat,
    inputs: Seq<u32>,
    stored: Seq<u32>,
    late_stored: Seq<u32>,
)
    requires
        determined(f),
        keeps_silence(f),
        filtered(f, inputs, stored),
        filtered(f, silence(k) + inputs, late_stored),
    ensures
        late_stored == silence(k) + stored,
{
    let outputs = choose|outputs: Seq<u32>| #[trigger]
        filters(f, inputs, outputs) && stored == outputs.map_values(|bits: u32| clamped(bits));
    let late_outputs = choose|outputs: Seq<u32>| #[trigger]
        filters(f, silence(k) + inputs, outputs) && late_stored == outputs.map_values(
            |bits: u32| clamped(bits),
        );
    law_silence_only_delays(f, k, inputs, outputs, late_outputs);
    assert(late_stored =~= silence(k) + stored);
}

/// Decoded audio is never refused where the decoder keeps to the rate that it was asked for: it
/// is preprocessed, and as many samples come out as were decoded, at least one.
pub proof fn law_decoded_audio_is_preprocessed<F: Fn(Taps) -> u32>(
    f: F,
    decoded: Result<Waveform, String>,
    buffer: AudioBuffer,
    r: Result<AudioBuffer, Error>,
)
    requires
        finishes_decoding(decoded, Ok(buffer)),
        decoded matches Ok(waveform) ==> waveform.frame_rate_hz == SAMPLE_RATE,
        preprocesses(f, buffer, r),
    ensures
        r matches Ok(done) && done.samples@.len() == buffer.samples@.len()
            && done.samples@.len() > 0,
{
}

/// What is stored of a signal is determined by it, where the arithmetic is determined;
/// preprocessing audio of the model rate stores exactly that.
pub proof fn law_preprocessing_is_filtering<F: Fn(Taps) -> u32>(
    f: F,
    buffer: AudioBuffer,
    stored: Seq<u32>,
    r: Result<AudioBuffer, Error>,
)
    requires
        determined(f),
        buffer.sample_rate == SAMPLE_RATE,
        filtered(f, buffer.samples@, stored),
        preprocesses(f, buffer, r),
    ensures
        r matches Ok(done) && done.sample_rate == SAMPLE_RATE && done.samples@ == stored
            && stored.len() == buffer.samples@.len(),
{
    let inputs = buffer.samples@;
    let again = r->Ok_0.samples@;
    assert(inputs + Seq::empty() =~= inputs);
    law_stored_samples_are_causal(f, inputs, Seq::empty(), stored, again);
    assert(again.take(inputs.len() as int) =~= again);
}

/// The first `n` outputs for opposite inputs are opposite.
proof fn lemma_opposite_outputs<F: Fn(Taps) -> u32>(
    f: F,
    inputs: Seq<u32>,
    outputs: Seq<u32>,
    other_inputs: Seq<u32>,
    other_outputs: Seq<u32>,
    n: int,
)
    requires
        is_odd(f),
        opposite_signals(inputs, other_inputs),
        filters(f, inputs, outputs),
        filters(f, other_inputs, other_outputs),
        0 <= n <= inputs.len(),
    ensures
        forall|i: int| 0 <= i < n ==> #[trigger] opposite(outputs[i], other_outputs[i]),
    decreases n,
{
    if n > 0 {
        let i = n - 1;
        lemma_opposite_outputs(f, inputs, outputs, other_inputs, other_outputs, i);
        let (t, u) = (taps_at(inputs, outputs, i), taps_at(other_inputs, other_outputs, i));
        assert(opposite(0, 0));
        assert(opposite(inputs[i], other_inputs[i]));
        if i >= 1 {
            assert(opposite(inputs[i - 1], other_inputs[i - 1]));
            assert(opposite(outputs[i - 1], other_outputs[i - 1]));
        }
        if i >= 2 {
            assert(opposite(inputs[i - 2], other_inputs[i - 2]));
            assert(opposite(outputs[i - 2], other_outputs[i - 2]));
        }
        assert(opposite_taps(t, u));
        assert(call_ensures(f, (t,), outputs[i]));
        assert(call_ensures(f, (u,), other_outputs[i]));
    }
}

/// Opposite signals are stored as opposite signals, where the arithmetic gives opposite results
/// for opposite taps.
pub proof fn law_filter_keeps_opposites<F: Fn(Taps) -> u32>(
    f: F,
    inputs: Seq<u32>,
    stored: Seq<u32>,
    other_inputs: Seq<u32>,
    other_stored: Seq<u32>,
)
    requires
        is_odd(f),
        opposite_signals(inputs, other_inputs),
        filtered(f, inputs, stored),
        filtered(f, other_inputs, other_stored),
    ensures
        opposite_signals(stored, other_stored),
{
    let outputs = choose|outputs: Seq<u32>| #[trigger]
        filters(f, inputs, outputs) && stored == outputs.map_values(|bits: u32| clamped(bits));
    let other_outputs = choose|outputs: Seq<u32>| #[trigger]
        filters(f, other_inputs, outputs) && other_stored == outputs.map_values(
            |bits: u32| clamped(bits),
        );
    lemma_opposite_outputs(
        f,
        inputs,
        outputs,
        other_inputs,
        other_outputs,
        inputs.len() as int,
    );
    assert forall|i: int| 0 <= i < stored.len() implies #[trigger] opposite(
        stored[i],
        other_stored[i],
    ) by {
        assert(opposite(outputs[i], other_outputs[i]));
    }
}

/// Normalizing is independent of gain: a signal that is not silent, made louder or softer, has
/// the peak made louder or softer, and gives the same normalized samples, or opposite ones where
/// the gain is negative. Gains that leave nothing of the peak are left out.
pub proof fn law_normalizing_is_independent_of_gain<F: Fn(u32, u32) -> u32>(
    divide: F,
    gain: spec_fn(u32) -> u32,
    negative: bool,
    before: Seq<u32>,
    after: Seq<u32>,
    peak: u32,
    other_before: Seq<u32>,
    other_after: Seq<u32>,
    other_peak: u32,
)
    requires
        is_gain(gain),
        cancels_gain(divide, gain, negative, peak),
        normalizes(divide, before, after, peak),
        normalizes(divide, other_before, other_after, other_peak),
        other_before == before.map_values(gain),
        peak != 0,
        magnitude(gain(peak)) != 0,
    ensures
        other_peak == magnitude(gain(peak)),
        other_after.len() == after.len(),
        forall|i: int|
            0 <= i < after.len() ==> #[trigger] alike(after[i], other_after[i], negative),
{
    let gained = magnitude(gain(peak));
    let k = choose|k: int|
        0 <= k < before.len() && !is_nan(#[trigger] before[k]) && magnitude(before[k]) == peak;
    assert(magnitude(peak) == peak && !is_nan(peak));
    assert(other_before[k] == gain(before[k]));
    assert(magnitude(gain(before[k])) == gained);
    assert forall|i: int|
        0 <= i < other_before.len() && !is_nan(#[trigger] other_before[i]) implies magnitude(
        other_before[i],
    ) <= gained by {
        assert(other_before[i] == gain(before[i]));
    }
    assert(is_peak(other_before, gained));
    law_peak_is_unique(other_before, gained, other_peak);
    assert forall|i: int| 0 <= i < after.len() implies #[trigger] alike(
        after[i],
        other_after[i],
        negative,
    ) by {
        assert(call_ensures(divide, (before[i], peak), after[i]));
        assert(call_ensures(divide, (gain(before[i]), gained), other_after[i]));
    }
}

} // verus!
