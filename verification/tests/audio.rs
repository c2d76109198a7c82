use srs_inference::audio::{
    audio_buffer_from_waveform, ffmpeg_command, finish_decoding, highpass_biquad_in_place,
    load_with_babycat_file, load_with_ffmpeg_fallback, waveform_args, AudioBuffer, LoadStep,
    ProcessOutput, Taps, Waveform, SAMPLE_RATE,
};
use srs_inference::error::Error;

fn bits(samples: &[f32]) -> Vec<u32> {
    samples.iter().map(|s| s.to_bits()).collect()
}

fn floats(samples: &[u32]) -> Vec<f32> {
    samples.iter().map(|s| f32::from_bits(*s)).collect()
}

fn coefficients() -> (f32, f32, f32, f32, f32) {
    let angular = 2.0f32 * std::f32::consts::PI * 60.0 / 48_000.0;
    let cosine = angular.cos();
    let alpha = angular.sin() / 2.0 / 0.707;
    let a0 = 1.0 + alpha;
    let b0 = ((1.0 + cosine) / 2.0) / a0;
    (b0, (-1.0 - cosine) / a0, b0, (-2.0 * cosine) / a0, (1.0 - alpha) / a0)
}

fn weighted_sum(t: Taps) -> u32 {
    let (b0, b1, b2, a1, a2) = coefficients();
    let f = f32::from_bits;
    (b0 * f(t.input) + b1 * f(t.input_1) + b2 * f(t.input_2)
        - a1 * f(t.output_1)
        - a2 * f(t.output_2))
    .to_bits()
}

fn divide(sample: u32, peak: u32) -> u32 {
    (f32::from_bits(sample) / f32::from_bits(peak)).to_bits()
}

#[test]
fn preprocess_rejects_unexpected_rate() {
    let buffer = AudioBuffer { samples: bits(&[0.0]), sample_rate: 44_100 };
    assert!(buffer.preprocess(weighted_sum).is_err());
}

#[test]
fn rejected_rate_is_named() {
    let buffer = AudioBuffer { samples: bits(&[0.0]), sample_rate: 44_100 };
    match buffer.preprocess(weighted_sum) {
        Err(e) => assert_eq!(
            e.message(),
            "invalid audio: decoded audio has sample rate 44100, expected 48000"
        ),
        Ok(_) => panic!("accepted"),
    }
}

#[test]
fn preprocess_filters_like_a_direct_biquad() {
    let input: Vec<f32> =
        (0..500).map(|i| ((i * 37 % 101) as f32 - 50.0) / 20.0).collect();
    let buffer = AudioBuffer { samples: bits(&input), sample_rate: SAMPLE_RATE };
    let out = buffer.preprocess(weighted_sum).unwrap();
    assert_eq!(out.sample_rate, 48_000);

    let (b0, b1, b2, a1, a2) = coefficients();
    let (mut x1, mut x2, mut y1, mut y2) = (0.0f32, 0.0f32, 0.0f32, 0.0f32);
    let mut limited = 0;
    let mut expected: Vec<f32> = Vec::new();
    for x in &input {
        let y = b0 * x + b1 * x1 + b2 * x2 - a1 * y1 - a2 * y2;
        x2 = x1;
        x1 = *x;
        y2 = y1;
        y1 = y;
        if y.abs() > 1.0 {
            limited += 1;
        }
        expected.push(y.clamp(-1.0, 1.0));
    }
    assert!(limited > 10);
    assert_eq!(floats(&out.samples), expected);
}

#[test]
fn feedback_is_not_limited() {
    // Each output is the one before plus the input: the sum goes on beyond the stored limit.
    let sum = |t: Taps| (f32::from_bits(t.input) + f32::from_bits(t.output_1)).to_bits();
    let buffer = AudioBuffer { samples: bits(&[0.75, 0.75, -1.0, -1.0, -2.0]), sample_rate: 48_000 };
    let out = buffer.preprocess(sum).unwrap();
    assert_eq!(floats(&out.samples), vec![0.75, 1.0, 0.5, -0.5, -1.0]);
}

#[test]
fn taps_reach_two_samples_back() {
    let older = |t: Taps| (f32::from_bits(t.input_2) + f32::from_bits(t.output_2) / 2.0).to_bits();
    let buffer = AudioBuffer { samples: bits(&[0.5, 0.25, 0.0, 0.0, 0.0, 0.0]), sample_rate: 48_000 };
    let out = buffer.preprocess(older).unwrap();
    assert_eq!(floats(&out.samples), vec![0.0, 0.0, 0.5, 0.25, 0.25, 0.125]);
}

#[test]
fn what_is_no_number_is_stored_as_it_is() {
    let same = |t: Taps| t.input;
    let patterns = vec![0x7fc0_1234u32, 0xffc0_0001, 0x7f80_0000, 0xff80_0000, 0x8000_0000];
    let buffer = AudioBuffer { samples: patterns, sample_rate: 48_000 };
    let out = buffer.preprocess(same).unwrap();
    assert_eq!(
        out.samples,
        vec![0x7fc0_1234u32, 0xffc0_0001, 0x3f80_0000, 0xbf80_0000, 0x8000_0000]
    );
}

#[test]
fn limiting_agrees_with_clamp() {
    let values = [
        0.0f32, -0.0, 1.0, -1.0, 1.0000001, -1.0000001, 0.99999994, -0.99999994, 3.4e38, -2.0,
        1.0e-40, -1.0e-40, 123.0,
    ];
    let buffer = AudioBuffer { samples: bits(&values), sample_rate: 48_000 };
    let out = buffer.preprocess(|t: Taps| t.input).unwrap();
    let expected: Vec<u32> = values.iter().map(|v| v.clamp(-1.0, 1.0).to_bits()).collect();
    assert_eq!(out.samples, expected);
}

#[test]
fn normalize_divides_by_the_peak() {
    let mut buffer = AudioBuffer { samples: bits(&[0.25, -0.5, 0.125]), sample_rate: 48_000 };
    let peak = buffer.normalize(divide);
    assert_eq!(f32::from_bits(peak), 0.5);
    assert_eq!(floats(&buffer.samples), vec![0.5, -1.0, 0.25]);
    assert_eq!(buffer.sample_rate, 48_000);
}

#[test]
fn normalize_leaves_silence() {
    let mut buffer = AudioBuffer { samples: bits(&[0.0, -0.0]), sample_rate: 48_000 };
    let peak = buffer.normalize(|_, _| 1);
    assert_eq!(peak, 0);
    assert_eq!(buffer.samples, bits(&[0.0, -0.0]));

    let mut empty = AudioBuffer { samples: vec![], sample_rate: 8_000 };
    assert_eq!(empty.normalize(divide), 0);
    assert!(empty.samples.is_empty());
}

#[test]
fn peak_agrees_with_a_fold_over_floats() {
    let signals: [&[f32]; 5] = [
        &[0.1, -0.7, 0.3],
        &[f32::NAN, -0.2],
        &[f32::NAN],
        &[1.0e-40, -2.0e-41],
        &[f32::NEG_INFINITY, 5.0],
    ];
    for signal in signals {
        let expected = signal.iter().copied().map(f32::abs).fold(0.0, f32::max);
        let mut buffer = AudioBuffer { samples: bits(signal), sample_rate: 48_000 };
        assert_eq!(buffer.normalize(divide), expected.to_bits());
    }
}

#[test]
fn wav_files_hold_one_channel_of_floats() {
    let buffer = AudioBuffer { samples: bits(&[0.5]), sample_rate: 22_050 };
    let spec = buffer.wav_spec();
    assert_eq!(spec.channels, 1);
    assert_eq!(spec.sample_rate, 22_050);
    assert_eq!(spec.bits_per_sample, 32);
    assert!(spec.float);
}

#[test]
fn wav_spec_is_one_that_hound_writes() {
    let buffer = AudioBuffer { samples: bits(&[0.5, -0.25]), sample_rate: 48_000 };
    let spec = buffer.wav_spec();
    let mut cursor = std::io::Cursor::new(Vec::new());
    let mut writer = hound::WavWriter::new(
        &mut cursor,
        hound::WavSpec {
            channels: spec.channels,
            sample_rate: spec.sample_rate,
            bits_per_sample: spec.bits_per_sample,
            sample_format: hound::SampleFormat::Float,
        },
    )
    .unwrap();
    for sample in &buffer.samples {
        writer.write_sample(f32::from_bits(*sample)).unwrap();
    }
    writer.finalize().unwrap();
    cursor.set_position(0);
    let mut reader = hound::WavReader::new(cursor).unwrap();
    assert_eq!(reader.spec().sample_rate, 48_000);
    let read: Vec<f32> = reader.samples::<f32>().map(|s| s.unwrap()).collect();
    assert_eq!(read, vec![0.5, -0.25]);
}

#[test]
fn decoders_are_asked_for_the_model_rate() {
    let args = waveform_args();
    assert_eq!(args.frame_rate_hz, 48_000);
    assert!(args.convert_to_mono);
}

#[test]
fn decoded_waveforms_are_taken_over() {
    let waveform = Waveform { interleaved_samples: bits(&[0.5, 0.25]), frame_rate_hz: 48_000 };
    let buffer = audio_buffer_from_waveform(waveform).unwrap();
    assert_eq!(floats(&buffer.samples), vec![0.5, 0.25]);
    assert_eq!(buffer.sample_rate, 48_000);
}

#[test]
fn waveforms_without_samples_are_refused() {
    let waveform = Waveform { interleaved_samples: vec![], frame_rate_hz: 48_000 };
    match audio_buffer_from_waveform(waveform) {
        Err(Error::InvalidAudio(text)) => assert_eq!(text, "audio contains no samples"),
        _ => panic!("accepted"),
    }
    let waveform = Waveform { interleaved_samples: vec![], frame_rate_hz: 48_000 };
    assert_eq!(
        finish_decoding(Ok(waveform)).unwrap_err(),
        "invalid audio: audio contains no samples"
    );
}

#[test]
fn decoder_errors_are_passed_on() {
    assert_eq!(finish_decoding(Err("no such file".to_string())).unwrap_err(), "no such file");
    let waveform = Waveform { interleaved_samples: bits(&[1.0]), frame_rate_hz: 16_000 };
    let buffer = finish_decoding(Ok(waveform)).unwrap();
    assert_eq!(buffer.sample_rate, 16_000);
    assert_eq!(buffer.samples, bits(&[1.0]));
}

#[test]
fn transcoded_bytes_are_to_be_decoded() {
    let output = ProcessOutput {
        success: true,
        status: "exit status: 0".to_string(),
        stdout: vec![82, 73, 70, 70],
        stderr: vec![],
    };
    let request = load_with_ffmpeg_fallback(Ok(output)).unwrap();
    assert_eq!(request.bytes, vec![82, 73, 70, 70]);
    assert_eq!(request.args.frame_rate_hz, 48_000);
    assert!(request.args.convert_to_mono);
    assert_eq!(request.file_extension, "wav");
    assert_eq!(request.mime_type, "audio/wav");
}

#[test]
fn transcoder_failures_are_told() {
    assert_eq!(
        load_with_ffmpeg_fallback(Err("not found".to_string())).unwrap_err(),
        "failed to start ffmpeg: not found"
    );
    let output = ProcessOutput {
        success: false,
        status: "exit status: 1".to_string(),
        stdout: vec![1, 2],
        stderr: b"bad \xff input \xc3\xa9".to_vec(),
    };
    assert_eq!(
        load_with_ffmpeg_fallback(Ok(output)).unwrap_err(),
        "ffmpeg exited with exit status: 1: bad \u{fffd} input \u{e9}"
    );
}

#[test]
fn loading_stops_at_the_first_success() {
    let buffer = AudioBuffer { samples: bits(&[0.5]), sample_rate: 48_000 };
    match AudioBuffer::load(Ok(buffer)) {
        LoadStep::Loaded(b) => assert_eq!(b.samples, bits(&[0.5])),
        LoadStep::TryFallback { .. } => panic!("went on"),
    }
}

#[test]
fn loading_reports_both_failures() {
    let babycat = match AudioBuffer::load(Err("unknown container".to_string())) {
        LoadStep::TryFallback { babycat } => babycat,
        LoadStep::Loaded(_) => panic!("loaded"),
    };
    assert_eq!(babycat, "unknown container");
    let buffer = AudioBuffer { samples: bits(&[0.5]), sample_rate: 48_000 };
    assert!(AudioBuffer::load_fallback(babycat.clone(), Ok(buffer)).is_ok());
    let error = AudioBuffer::load_fallback(babycat, Err("no ffmpeg".to_string())).unwrap_err();
    assert_eq!(
        error.message(),
        "audio decode failed; babycat: unknown container; fallback: no ffmpeg"
    );
}

#[test]
fn normalized_peak_is_one() {
    let mut buffer = AudioBuffer { samples: bits(&[0.3, -0.7, 0.1, f32::NAN]), sample_rate: 48_000 };
    assert_eq!(f32::from_bits(buffer.normalize(divide)), 0.7);
    assert_eq!(floats(&buffer.samples)[1], -1.0);
    assert_eq!(f32::from_bits(buffer.normalize(divide)), 1.0);
}

#[test]
fn normalizing_again_changes_nothing() {
    let mut buffer = AudioBuffer { samples: bits(&[0.3, -0.7, 0.1]), sample_rate: 48_000 };
    buffer.normalize(divide);
    let once = buffer.samples.clone();
    assert_eq!(f32::from_bits(buffer.normalize(divide)), 1.0);
    assert_eq!(buffer.samples, once);
}

#[test]
fn silence_is_never_divided() {
    let mut buffer = AudioBuffer { samples: bits(&[0.0, -0.0, f32::NAN]), sample_rate: 48_000 };
    let before = buffer.samples.clone();
    assert_eq!(buffer.normalize(|_, _| panic!("divided")), 0);
    assert_eq!(buffer.samples, before);
}

#[test]
fn silence_only_delays() {
    let signal = [0.5, -0.25, 0.75, 1.0, -1.0, 0.125];
    let mut filtered = bits(&signal);
    highpass_biquad_in_place(&mut filtered, weighted_sum);
    let mut late = vec![0u32; 5];
    late.extend(bits(&signal));
    highpass_biquad_in_place(&mut late, weighted_sum);
    assert_eq!(late[..5], [0u32; 5]);
    assert_eq!(late[5..], filtered[..]);
}

#[test]
fn stored_samples_do_not_depend_on_later_ones() {
    let signal = [0.5, -0.25, 0.75, 1.0];
    let mut short = bits(&signal);
    highpass_biquad_in_place(&mut short, weighted_sum);
    let mut long = bits(&signal);
    long.extend(bits(&[-1.0, 0.5]));
    highpass_biquad_in_place(&mut long, weighted_sum);
    assert_eq!(long[..4], short[..]);
}

#[test]
fn decoded_audio_is_preprocessed() {
    let decoded = Waveform {
        interleaved_samples: bits(&[0.5, 0.25, -0.5]),
        frame_rate_hz: waveform_args().frame_rate_hz,
    };
    let done = finish_decoding(Ok(decoded)).unwrap().preprocess(weighted_sum).unwrap();
    assert_eq!(done.samples.len(), 3);
}

#[test]
fn paths_must_be_text() {
    let request = load_with_babycat_file(Some("a/b.flac"), "\"a/b.flac\"").unwrap();
    assert_eq!(request.path, "a/b.flac");
    assert_eq!(request.args.frame_rate_hz, 48_000);
    assert!(request.args.convert_to_mono);
    assert_eq!(
        load_with_babycat_file(None, "\"a\\xFF.wav\"").unwrap_err(),
        "path is not valid UTF-8: \"a\\xFF.wav\""
    );
}

#[test]
fn ffmpeg_writes_a_float_wav_to_its_output() {
    let command = ffmpeg_command();
    assert_eq!(command.program, "ffmpeg");
    assert_eq!(command.before_path, ["-v", "error", "-i"]);
    assert_eq!(command.after_path, ["-f", "wav", "-acodec", "pcm_f32le", "pipe:1"]);
}

#[test]
fn opposite_signals_are_stored_as_opposites() {
    let signal = [0.5, -0.25, 1.75, -1.0, 0.125, 0.0];
    let mut stored = bits(&signal);
    highpass_biquad_in_place(&mut stored, weighted_sum);
    let mut other = bits(&signal.map(|s| -s));
    highpass_biquad_in_place(&mut other, weighted_sum);
    for (a, b) in floats(&stored).iter().zip(floats(&other)) {
        assert_eq!(*a, -b);
    }
}

#[test]
fn normalizing_is_independent_of_gain() {
    let signal = [0.3, -0.7, 0.1, 0.0];
    for gain in [-2.0f32, 4.0] {
        let mut quiet = AudioBuffer { samples: bits(&signal), sample_rate: 48_000 };
        let mut loud = AudioBuffer {
            samples: bits(&signal.map(|s| s * gain)),
            sample_rate: 48_000,
        };
        let peak = f32::from_bits(quiet.normalize(divide));
        assert_eq!(f32::from_bits(loud.normalize(divide)), gain.abs() * peak);
        for (a, b) in floats(&quiet.samples).iter().zip(floats(&loud.samples)) {
            assert_eq!(*a, gain.signum() * b);
        }
    }
}

#[test]
fn preprocessing_is_filtering() {
    let buffer = AudioBuffer { samples: bits(&[0.5, -0.25, 0.75]), sample_rate: 48_000 };
    let mut filtered = buffer.samples.clone();
    highpass_biquad_in_place(&mut filtered, weighted_sum);
    let done = buffer.preprocess(weighted_sum).unwrap();
    assert_eq!(done.samples, filtered);
    assert_eq!(done.sample_rate, 48_000);
}
