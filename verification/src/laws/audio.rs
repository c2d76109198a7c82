//! Laws of audio decoding, preprocessing and postprocessing.
use crate::audio::{
    audio_buffer_from_waveform, clamped, ffmpeg_command, filters, finish_decoding,
    highpass_biquad_in_place, is_nan, is_peak, load_with_babycat_file, load_with_ffmpeg_fallback,
    magnitude, rank, waveform_args, AudioBuffer, DecodeRequest, FileRequest, LoadStep,
    ProcessOutput, Taps, TranscoderCommand, WavSpec, Waveform, WaveformArgs,
};
use crate::error::Error;
use crate::text::{decimal, digits, lossy_text};
use vstd::prelude::*;
use vstd::utf8::{encode_utf8, valid_utf8};

verus! {

/// The absolute value of a sample, as a bit pattern.
pub open spec fn size(bits: u32) -> int {
    bits as int % 0x8000_0000
}

/// The sample is a number: its bit pattern is that of infinity or of something smaller.
pub open spec fn is_number(bits: u32) -> bool {
    size(bits) <= 0x7f80_0000
}

/// The sample is negative.
pub open spec fn is_negative(bits: u32) -> bool {
    bits >= 0x8000_0000
}

/// `stored` is the sample limited to the range from `-1.0` to `1.0`: what is larger becomes `1.0`
/// with its sign, all else stays.
pub open spec fn limits(bits: u32, stored: u32) -> bool {
    if is_number(bits) && size(bits) > 0x3f80_0000 {
        size(stored) == 0x3f80_0000 && is_negative(stored) == is_negative(bits)
    } else {
        stored == bits
    }
}

/// A sample of a signal, and zero before its start.
pub open spec fn sample_before(signal: Seq<u32>, i: int) -> u32 {
    if 0 <= i {
        signal[i]
    } else {
        0
    }
}

/// Magnitudes, ranks and what is no number are those of 32-bit floats.
pub proof fn law_samples_are_floats(bits: u32)
    ensures
        magnitude(bits) == size(bits),
        is_nan(bits) <==> !is_number(bits),
        rank(bits) == if is_negative(bits) {
            -size(bits)
        } else {
            size(bits)
        },
        limits(bits, clamped(bits)),
{
}

/// A decoder is asked for one channel at the rate of the model.
pub proof fn law_decoders_are_asked_for_the_model_rate(args: WaveformArgs)
    requires
        call_ensures(waveform_args, (), args),
    ensures
        args.frame_rate_hz == 48_000,
        args.convert_to_mono,
{
}

/// A waveform is refused exactly where it holds no samples, and otherwise taken over with all
/// of its samples and its rate, whatever they are.
pub proof fn law_waveforms_are_taken_over(waveform: Waveform, r: Result<AudioBuffer, Error>)
    requires
        call_ensures(audio_buffer_from_waveform, (waveform,), r),
    ensures
        r is Ok <==> waveform.interleaved_samples@.len() > 0,
        r matches Ok(buffer) ==> buffer.samples@ == waveform.interleaved_samples@
            && buffer.sample_rate == waveform.frame_rate_hz,
        match r {
            Ok(_) => true,
            Err(Error::InvalidAudio(m)) => m@ == "audio contains no samples"@,
            Err(_) => false,
        },
{
}

/// What a decoder answered is finished as its waveform is taken over: with the same buffer, or
/// with the same error as a message. Its own error is the message.
pub proof fn law_decoding_is_finished(
    waveform: Waveform,
    taken: Result<AudioBuffer, Error>,
    failure: String,
    finished: Result<AudioBuffer, String>,
    failed: Result<AudioBuffer, String>,
)
    requires
        call_ensures(audio_buffer_from_waveform, (waveform,), taken),
        call_ensures(finish_decoding, (Ok::<Waveform, String>(waveform),), finished),
        call_ensures(finish_decoding, (Err::<Waveform, String>(failure),), failed),
    ensures
        match (taken, finished) {
            (Ok(a), Ok(b)) => a.samples@ == b.samples@ && a.sample_rate == b.sample_rate,
            (Err(_), Err(m)) => m@ == "invalid audio: "@ + "audio contains no samples"@,
            _ => false,
        },
        failed matches Err(m) && m@ == failure@,
{
}

/// A path is refused exactly where it is no text, by a message that shows it; else the decoder
/// is handed that path, with the arguments that every decoder is handed.
pub proof fn law_paths_are_handed_on(
    text: Option<&str>,
    rendered: &str,
    r: Result<FileRequest<'_>, String>,
    args: WaveformArgs,
)
    requires
        call_ensures(load_with_babycat_file, (text, rendered), r),
        call_ensures(waveform_args, (), args),
    ensures
        match r {
            Ok(request) => text == Some(request.path) && request.args == args,
            Err(m) => text is None && m@ == "path is not valid UTF-8: "@ + rendered@,
        },
{
}

/// The transcoder reads the file that follows `-i` and writes a WAV of 32-bit floats to its
/// standard output, which is the last thing that it is told.
pub proof fn law_transcoder_writes_to_its_output(command: TranscoderCommand)
    requires
        call_ensures(ffmpeg_command, (), command),
    ensures
        command.program@ == "ffmpeg"@,
        command.before_path@.len() == 3,
        command.before_path@[0]@ == "-v"@ && command.before_path@[1]@ == "error"@,
        command.before_path@.last()@ == "-i"@,
        command.after_path@.len() == 5,
        command.after_path@[0]@ == "-f"@ && command.after_path@[1]@ == "wav"@,
        command.after_path@[2]@ == "-acodec"@ && command.after_path@[3]@ == "pcm_f32le"@,
        command.after_path@.last()@ == "pipe:1"@,
{
    let (before, after) = (
        crate::text::views(command.before_path@),
        crate::text::views(command.after_path@),
    );
    assert(before.len() == 3 && after.len() == 5);
    assert(forall|i: int| 0 <= i < 3 ==> before[i] == command.before_path@[i]@);
    assert(forall|i: int| 0 <= i < 5 ==> after[i] == command.after_path@[i]@);
}

/// What the transcoder wrote is decoded exactly where it ran and succeeded, all of it and as
/// what it is. Otherwise the message tells whether it did not start or how it ended, and what it
/// said of that.
pub proof fn law_transcoded_audio_is_decoded(
    run: Result<ProcessOutput, String>,
    r: Result<DecodeRequest, String>,
    args: WaveformArgs,
)
    requires
        call_ensures(load_with_ffmpeg_fallback, (run,), r),
        call_ensures(waveform_args, (), args),
    ensures
        r is Ok <==> (run matches Ok(output) && output.success),
        match (run, r) {
            (Ok(output), Ok(request)) => {
                &&& request.bytes@ == output.stdout@
                &&& request.args == args
                &&& request.file_extension@ == "wav"@
                &&& request.mime_type@ == "audio/wav"@
            },
            (Ok(output), Err(m)) => {
                &&& m@ == "ffmpeg exited with "@ + output.status@ + ": "@ + lossy_text(
                    output.stderr@,
                )
                &&& valid_utf8(output.stderr@) ==> encode_utf8(lossy_text(output.stderr@))
                    == output.stderr@
            },
            (Err(failure), Err(m)) => m@ == "failed to start ffmpeg: "@ + failure@,
            (Err(_), Ok(_)) => false,
        },
{
}

/// Loading answers with the audio of the first decoder that has any, and asks the second one
/// exactly where the first has failed. Where both have, the error holds what each of them said.
pub proof fn law_loading_takes_the_first_success(
    primary: Result<AudioBuffer, String>,
    step: LoadStep,
    babycat: String,
    fallback: Result<AudioBuffer, String>,
    r: Result<AudioBuffer, Error>,
)
    requires
        call_ensures(AudioBuffer::load, (primary,), step),
        step matches LoadStep::TryFallback { babycat: said } ==> babycat == said,
        call_ensures(AudioBuffer::load_fallback, (babycat, fallback), r),
    ensures
        match (primary, step) {
            (Ok(buffer), LoadStep::Loaded(loaded)) => loaded == buffer,
            (Err(first), LoadStep::TryFallback { .. }) => match (fallback, r) {
                (Ok(buffer), Ok(loaded)) => loaded == buffer,
                (Err(second), Err(Error::AudioDecode { babycat: a, fallback: b })) => a@ == first@
                    && b@ == second@,
                _ => false,
            },
            _ => false,
        },
{
}

/// Audio is refused exactly where its rate is not that of the model, by a message that names
/// both.
pub proof fn law_other_rates_are_refused<F: Fn(Taps) -> u32>(
    buffer: AudioBuffer,
    f: F,
    r: Result<AudioBuffer, Error>,
)
    requires
        call_ensures(AudioBuffer::preprocess::<F>, (buffer, f), r),
    ensures
        r is Ok <==> buffer.sample_rate == 48_000,
        match r {
            Ok(done) => done.sample_rate == 48_000 && done.samples@.len() == buffer.samples@.len(),
            Err(Error::InvalidAudio(m)) => m@ == "decoded audio has sample rate "@ + decimal(
                buffer.sample_rate as int,
            ) + ", expected "@ + decimal(48_000),
            Err(_) => false,
        },
{
    assert(decimal(buffer.sample_rate as int) == digits(buffer.sample_rate as nat));
}

/// `samples` is a signal in which each sample is an output of the filter, limited. An output is
/// made of the input at its place, the two inputs and the two outputs before it; before the
/// start all of them are zero. Outputs are limited where they are stored, and not where they are
/// used again.
pub open spec fn follows_the_recurrence<F: Fn(Taps) -> u32>(
    f: F,
    inputs: Seq<u32>,
    outputs: Seq<u32>,
    samples: Seq<u32>,
) -> bool {
    &&& outputs.len() == inputs.len()
    &&& samples.len() == inputs.len()
    &&& forall|i: int|
        #![trigger outputs[i]]
        #![trigger samples[i]]
        0 <= i < inputs.len() ==> limits(outputs[i], samples[i]) && call_ensures(
            f,
            (
                Taps {
                    input: inputs[i],
                    input_1: sample_before(inputs, i - 1),
                    input_2: sample_before(inputs, i - 2),
                    output_1: sample_before(outputs, i - 1),
                    output_2: sample_before(outputs, i - 2),
                },
            ),
            outputs[i],
        )
}

/// The relation of the filter is its recurrence.
proof fn lemma_recurrence<F: Fn(Taps) -> u32>(f: F, inputs: Seq<u32>, outputs: Seq<u32>)
    requires
        filters(f, inputs, outputs),
    ensures
        follows_the_recurrence(
            f,
            inputs,
            outputs,
            outputs.map_values(|bits: u32| clamped(bits)),
        ),
{
    let samples = outputs.map_values(|bits: u32| clamped(bits));
    assert forall|i: int| 0 <= i < inputs.len() implies limits(outputs[i], samples[i])
        && call_ensures(
        f,
        (
            Taps {
                input: inputs[i],
                input_1: sample_before(inputs, i - 1),
                input_2: sample_before(inputs, i - 2),
                output_1: sample_before(outputs, i - 1),
                output_2: sample_before(outputs, i - 2),
            },
        ),
        #[trigger] outputs[i],
    ) by {
        law_samples_are_floats(outputs[i]);
    }
}

/// The filter replaces a signal by the limited outputs of its recurrence.
pub proof fn law_filter_follows_its_recurrence<F: Fn(Taps) -> u32>(
    waveform: &mut Vec<u32>,
    f: F,
)
    requires
        call_ensures(highpass_biquad_in_place::<F>, (waveform, f), ()),
    ensures
        exists|outputs: Seq<u32>| #[trigger]
            follows_the_recurrence(f, old(waveform)@, outputs, final(waveform)@),
{
    let outputs = choose|outputs: Seq<u32>| #[trigger]
        filters(f, old(waveform)@, outputs) && final(waveform)@ == outputs.map_values(
            |bits: u32| clamped(bits),
        );
    lemma_recurrence(f, old(waveform)@, outputs);
}

/// Preprocessing replaces audio of the model rate by the limited outputs of the same recurrence.
pub proof fn law_preprocessing_follows_the_recurrence<F: Fn(Taps) -> u32>(
    buffer: AudioBuffer,
    f: F,
    done: AudioBuffer,
)
    requires
        call_ensures(AudioBuffer::preprocess::<F>, (buffer, f), Ok::<AudioBuffer, Error>(done)),
    ensures
        exists|outputs: Seq<u32>| #[trigger]
            follows_the_recurrence(f, buffer.samples@, outputs, done.samples@),
{
    let outputs = choose|outputs: Seq<u32>| #[trigger]
        filters(f, buffer.samples@, outputs) && done.samples@ == outputs.map_values(
            |bits: u32| clamped(bits),
        );
    lemma_recurrence(f, buffer.samples@, outputs);
}

/// The inputs of the filter are those of the signal, at their places: an arithmetic that gives
/// back the input, the one before it or the one before that delays every signal by no sample, by
/// one or by two, and stores it limited.
pub proof fn law_inputs_are_delayed<F: Fn(Taps) -> u32>(
    f: F,
    delay: int,
    inputs: Seq<u32>,
    outputs: Seq<u32>,
    waveform: &mut Vec<u32>,
    i: int,
)
    requires
        0 <= delay <= 2,
        forall|t: Taps, o: u32| #[trigger]
            call_ensures(f, (t,), o) ==> o == if delay == 0 {
                t.input
            } else if delay == 1 {
                t.input_1
            } else {
                t.input_2
            },
        filters(f, inputs, outputs),
        call_ensures(highpass_biquad_in_place::<F>, (waveform, f), ()),
        old(waveform)@ == inputs,
        0 <= i < inputs.len(),
    ensures
        outputs.len() == inputs.len(),
        outputs[i] == if i < delay {
            0
        } else {
            inputs[i - delay]
        },
        final(waveform)@.len() == inputs.len(),
        limits(outputs[i], final(waveform)@[i]),
{
    lemma_recurrence(f, inputs, outputs);
    assert(outputs[i] == sample_before(inputs, i - delay));
    law_filter_follows_its_recurrence(waveform, f);
    let others = choose|others: Seq<u32>| #[trigger]
        follows_the_recurrence(f, old(waveform)@, others, final(waveform)@);
    assert(others[i] == sample_before(inputs, i - delay));
}

/// The outputs of the filter are used again as they came out: an arithmetic that adds one to the
/// output before counts all samples, and one that adds it to the output before that counts them
/// in pairs, as far as there are bit patterns.
pub proof fn law_outputs_are_fed_back<F: Fn(Taps) -> u32>(
    f: F,
    delay: int,
    inputs: Seq<u32>,
    outputs: Seq<u32>,
    i: int,
)
    requires
        1 <= delay <= 2,
        forall|t: Taps, o: u32| #[trigger]
            call_ensures(f, (t,), o) ==> {
                let last = if delay == 1 {
                    t.output_1
                } else {
                    t.output_2
                };
                last < u32::MAX ==> o == last + 1
            },
        filters(f, inputs, outputs),
        0 <= i < inputs.len(),
        i < u32::MAX,
    ensures
        outputs[i] == i / delay + 1,
    decreases i,
{
    lemma_recurrence(f, inputs, outputs);
    if i >= delay {
        law_outputs_are_fed_back(f, delay, inputs, outputs, i - delay);
        assert((i - delay) / delay == i / delay - 1) by (nonlinear_arith)
            requires
                1 <= delay <= i,
        ;
        assert(i / delay <= i) by (nonlinear_arith)
            requires
                1 <= delay <= i,
        ;
    } else {
        assert(i / delay == 0) by (nonlinear_arith)
            requires
                0 <= i < delay,
        ;
    }
    assert(outputs[i] == sample_before(outputs, i - delay) + 1);
}

/// The peak is the largest absolute value of the samples that are numbers, and zero where there
/// is none.
pub proof fn law_peak_is_the_largest_number(samples: Seq<u32>, peak: u32)
    requires
        is_peak(samples, peak),
    ensures
        forall|i: int|
            0 <= i < samples.len() && is_number(#[trigger] samples[i]) ==> size(samples[i]) <= peak,
        peak == 0 || exists|i: int|
            0 <= i < samples.len() && is_number(#[trigger] samples[i]) && size(samples[i]) == peak,
{
    assert forall|i: int| 0 <= i < samples.len() && is_number(#[trigger] samples[i]) implies size(
        samples[i],
    ) <= peak by {
        law_samples_are_floats(samples[i]);
    }
    if peak != 0 {
        let i = choose|i: int|
            0 <= i < samples.len() && !is_nan(#[trigger] samples[i]) && magnitude(samples[i])
                == peak;
        law_samples_are_floats(samples[i]);
    }
}

/// Normalizing answers with the peak and divides every sample by it, each at its place; silence
/// is left as it is.
pub proof fn law_normalizing_divides_by_the_peak<F: Fn(u32, u32) -> u32>(
    buffer: &mut AudioBuffer,
    divide: F,
    peak: u32,
)
    requires
        call_ensures(AudioBuffer::normalize::<F>, (buffer, divide), peak),
    ensures
        ({
            let (before, after) = (old(buffer).samples@, final(buffer).samples@);
            &&& final(buffer).sample_rate == old(buffer).sample_rate
            &&& after.len() == before.len()
            &&& forall|i: int|
                0 <= i < before.len() && is_number(#[trigger] before[i]) ==> size(before[i])
                    <= peak
            &&& peak == 0 ==> after == before
            &&& peak != 0 ==> exists|i: int|
                0 <= i < before.len() && is_number(#[trigger] before[i]) && size(before[i])
                    == peak
            &&& peak != 0 ==> forall|i: int|
                0 <= i < before.len() ==> call_ensures(
                    divide,
                    (before[i], peak),
                    #[trigger] after[i],
                )
        }),
{
    law_peak_is_the_largest_number(old(buffer).samples@, peak);
}

/// The division gets each sample as its first argument and the peak as its second: one that
/// gives back the first leaves the signal as it is, and one that gives back the second makes
/// every sample of a signal that is not silent the peak.
pub proof fn law_division_gets_sample_and_peak<F: Fn(u32, u32) -> u32>(
    buffer: &mut AudioBuffer,
    divide: F,
    peak: u32,
    first: bool,
    i: int,
)
    requires
        call_ensures(AudioBuffer::normalize::<F>, (buffer, divide), peak),
        forall|a: u32, b: u32, q: u32| #[trigger]
            call_ensures(divide, (a, b), q) ==> q == if first {
                a
            } else {
                b
            },
        0 <= i < old(buffer).samples@.len(),
    ensures
        final(buffer).samples@[i] == if first || peak == 0 {
            old(buffer).samples@[i]
        } else {
            peak
        },
{
    let after = final(buffer).samples@;
    assert(peak != 0 ==> call_ensures(divide, (old(buffer).samples@[i], peak), after[i]));
}

/// A WAV file holds one channel of 32-bit floats, at the rate of the audio.
pub proof fn law_wav_files_hold_floats(buffer: &AudioBuffer, wav: WavSpec)
    requires
        call_ensures(AudioBuffer::wav_spec, (buffer,), wav),
    ensures
        wav.channels == 1,
        wav.sample_rate == buffer.sample_rate,
        wav.bits_per_sample == 32,
        wav.float,
{
}

} // verus!
