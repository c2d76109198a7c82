use srs_inference::spectral::{SpectralTransform, HOP_LENGTH, N_FFT};

fn hann(index: i32) -> u32 {
    (0.5 - 0.5 * (2.0 * std::f32::consts::PI * index as f32 / N_FFT as f32).cos()).to_bits()
}

fn transform() -> SpectralTransform {
    SpectralTransform::new(hann)
}

#[test]
fn window_is_a_periodic_hann_window() {
    let t = transform();
    let window: Vec<f32> = t.window().iter().map(|b| f32::from_bits(*b)).collect();
    assert_eq!(window.len(), 4096);
    assert_eq!(window[0], 0.0);
    assert_eq!(window[2048], 1.0);
    assert_eq!(t.window()[1], hann(1));
    assert_eq!(t.window()[4095], hann(4095));
}

#[test]
fn constants_are_fixed() {
    assert_eq!(N_FFT, 4096);
    assert_eq!(HOP_LENGTH, 2048);
}

#[test]
fn waveforms_are_padded_by_reflection() {
    let plan = transform().stft(&[2, 3000]).unwrap();
    assert_eq!(plan.batch, 2);
    assert_eq!(plan.samples, 3000);
    let left: Vec<i32> = (1..=2048).rev().collect();
    let right: Vec<i32> = (951..=2998).rev().collect();
    assert_eq!(plan.left_indices, left);
    assert_eq!(plan.right_indices, right);
    assert_eq!(plan.padded_samples, 7096);
    assert_eq!(plan.frames, 2);
    assert_eq!(plan.frame_shape, vec![2, 2, 4096]);
    assert_eq!(plan.frame_strides, vec![7096, 2048, 1]);
}

#[test]
fn shortest_waveform_has_two_frames() {
    let plan = transform().stft(&[1, 2049]).unwrap();
    assert_eq!(plan.right_indices[0], 2047);
    assert_eq!(plan.right_indices[2047], 0);
    assert_eq!(plan.frames, 2);
}

#[test]
fn frames_count_whole_hops() {
    for samples in [2049, 4095, 4096, 4097, 48_000, 1_000_000] {
        let plan = transform().stft(&[1, samples]).unwrap();
        assert_eq!(plan.frames, 1 + samples / 2048);
        assert!((plan.frames - 1) * HOP_LENGTH + N_FFT <= plan.padded_samples);
        assert!(plan.frames * HOP_LENGTH + N_FFT > plan.padded_samples);
    }
}

#[test]
fn short_waveforms_are_refused() {
    let error = transform().stft(&[1, 2048]).unwrap_err();
    assert_eq!(
        error.message(),
        "invalid audio: STFT expects [batch, samples] with more than 2048 samples, got [1, 2048]"
    );
    let error = transform().stft(&[1, 2, 50_000]).unwrap_err();
    assert_eq!(
        error.message(),
        "invalid audio: STFT expects [batch, samples] with more than 2048 samples, \
         got [1, 2, 50000]"
    );
    assert!(transform().stft(&[]).is_err());
}

#[test]
fn frames_add_up_one_hop_apart() {
    let plan = transform().istft(&[2, 3, 2049, 2]).unwrap();
    assert_eq!(plan.batch, 2);
    assert_eq!(plan.frame_count, 3);
    assert_eq!(plan.overlap_length, 8192);
    assert_eq!(plan.index_count, 12_288);
    let expected: Vec<u32> = (0..3u32)
        .flat_map(|frame| (0..4096u32).map(move |sample| frame * 2048 + sample))
        .collect();
    assert_eq!(plan.indices, expected);
    assert_eq!(plan.output_start, 2048);
    assert_eq!(plan.output_end, 6144);
}

#[test]
fn kept_positions_take_two_samples() {
    let plan = transform().istft(&[1, 4, 2049, 2]).unwrap();
    let mut hits = vec![0; plan.overlap_length as usize];
    for index in &plan.indices {
        hits[*index as usize] += 1;
    }
    for (p, hit) in hits.iter().enumerate() {
        let kept = plan.output_start as usize <= p && p < plan.output_end as usize;
        assert_eq!(*hit, if kept { 2 } else { 1 });
    }
}

#[test]
fn spectra_without_frames_keep_nothing() {
    let plan = transform().istft(&[1, 0, 2049, 2]).unwrap();
    assert_eq!(plan.overlap_length, 2048);
    assert!(plan.indices.is_empty());
    assert_eq!(plan.output_start, 2048);
    assert_eq!(plan.output_end, 0);
}

#[test]
fn other_spectra_are_refused() {
    let error = transform().istft(&[1, 5, 2048, 2]).unwrap_err();
    assert_eq!(
        error.message(),
        "invalid audio: iSTFT expects [batch, frames, 2049, 2], got [1, 5, 2048, 2]"
    );
    assert!(transform().istft(&[1, 5, 2049, 1]).is_err());
    assert!(transform().istft(&[5, 2049, 2]).is_err());
}

#[test]
fn inverse_keeps_whole_hops() {
    let t = transform();
    for samples in [2049, 4096, 10_000, 48_000] {
        let forward = t.stft(&[1, samples]).unwrap();
        let inverse = t.istft(&[1, forward.frames, 2049, 2]).unwrap();
        assert_eq!(inverse.output_end - inverse.output_start, samples - samples % 2048);
    }
}

#[test]
fn inverse_lines_up_with_the_waveform() {
    let t = transform();
    let forward = t.stft(&[1, 6000]).unwrap();
    let inverse = t.istft(&[1, forward.frames, 2049, 2]).unwrap();
    let mut row: Vec<i32> = forward.left_indices.clone();
    row.extend(0..6000);
    row.extend(forward.right_indices.iter());
    assert_eq!(row.len(), forward.padded_samples as usize);
    for (j, position) in inverse.indices.iter().enumerate() {
        let position = *position as i32;
        if inverse.output_start <= position && position < inverse.output_end {
            let frame = j / 4096;
            let sample = j % 4096;
            assert_eq!(row[frame * 2048 + sample], position - inverse.output_start);
        }
    }
}

#[test]
fn overlapped_frames_give_back_the_waveform() {
    let t = transform();
    let samples: i32 = 3 * HOP_LENGTH + 100;
    let wave = |i: i32| i64::from(i % 97) - 40;
    let window = |k: i32| i64::from(k % 13) + 1;
    let forward = t.stft(&[1, samples]).unwrap();
    let inverse = t.istft(&[1, forward.frames, 2049, 2]).unwrap();

    let mut row: Vec<i64> = forward.left_indices.iter().map(|&i| wave(i)).collect();
    row.extend((0..samples).map(wave));
    row.extend(forward.right_indices.iter().map(|&i| wave(i)));

    let mut sum = vec![0i64; inverse.overlap_length as usize];
    let mut envelope = vec![0i64; inverse.overlap_length as usize];
    for (j, &position) in inverse.indices.iter().enumerate() {
        let (frame, k) = (j as i32 / N_FFT, j as i32 % N_FFT);
        let cut = row[(frame * HOP_LENGTH + k) as usize];
        sum[position as usize] += window(k) * (window(k) * cut);
        envelope[position as usize] += window(k) * window(k);
    }
    let kept = inverse.output_start..inverse.output_end;
    assert_eq!(kept.len(), 3 * HOP_LENGTH as usize);
    for (o, p) in kept.enumerate() {
        let (p, k) = (p as usize, p % HOP_LENGTH);
        assert_eq!(sum[p], wave(o as i32) * envelope[p]);
        let two = window(k).pow(2) + window(k + HOP_LENGTH).pow(2);
        assert_eq!(envelope[p], two);
    }
}

#[test]
fn rows_are_transformed_alone() {
    let t = transform();
    let (many, one) = (t.stft(&[3, 9000]).unwrap(), t.stft(&[1, 9000]).unwrap());
    assert_eq!(many.frames, one.frames);
    assert_eq!(many.padded_samples, one.padded_samples);
    assert_eq!(many.frame_strides, one.frame_strides);
    assert_eq!(many.left_indices, one.left_indices);
    assert_eq!(many.right_indices, one.right_indices);
    assert_eq!(many.frame_shape, [3, one.frames, N_FFT]);
}

#[test]
fn output_hops_depend_on_two_frames() {
    let plan = transform().istft(&[1, 5, 2049, 2]).unwrap();
    let sums = |changed: i32| {
        let mut sum = vec![0i64; plan.overlap_length as usize];
        for (j, &position) in plan.indices.iter().enumerate() {
            let extra = if j as i32 / N_FFT == changed { 1000 } else { 0 };
            sum[position as usize] += j as i64 + extra;
        }
        sum[plan.output_start as usize..plan.output_end as usize].to_vec()
    };
    let hop = HOP_LENGTH as usize;
    let before = sums(-1);
    for changed in 0..5i32 {
        let after = sums(changed);
        for q in 0..4i32 {
            let span = q as usize * hop..(q as usize + 1) * hop;
            let covered = changed == q || changed == q + 1;
            assert_eq!(after[span.clone()] == before[span], !covered);
        }
    }
}

#[test]
fn frames_and_sums_are_linear() {
    let t = transform();
    let forward = t.stft(&[1, 5000]).unwrap();
    let inverse = t.istft(&[1, forward.frames, 2049, 2]).unwrap();
    let sums = |wave: &dyn Fn(i32) -> i64| {
        let mut row: Vec<i64> = forward.left_indices.iter().map(|&i| wave(i)).collect();
        row.extend((0..5000).map(wave));
        row.extend(forward.right_indices.iter().map(|&i| wave(i)));
        let mut sum = vec![0i64; inverse.overlap_length as usize];
        for (j, &position) in inverse.indices.iter().enumerate() {
            let (frame, k) = (j as i32 / N_FFT, j as i32 % N_FFT);
            sum[position as usize] += row[(frame * HOP_LENGTH + k) as usize];
        }
        sum
    };
    let (x, y) = (|i: i32| i64::from(i % 31), |i: i32| i64::from(i % 17) - 8);
    let (of_x, of_y, of_both) = (sums(&x), sums(&y), sums(&|i| x(i) + 3 * y(i)));
    for p in 0..of_both.len() {
        assert_eq!(of_both[p], of_x[p] + 3 * of_y[p]);
    }
    assert!(sums(&|_| 0).iter().all(|&s| s == 0));
}

#[test]
fn divisors_are_positive() {
    let plan = transform().istft(&[1, 4, 2049, 2]).unwrap();
    let mut envelope = vec![0.0f32; plan.overlap_length as usize];
    for (j, &position) in plan.indices.iter().enumerate() {
        envelope[position as usize] += f32::from_bits(hann(j as i32 % N_FFT)).powi(2);
    }
    let kept = plan.output_start as usize..plan.output_end as usize;
    assert!(envelope[kept].iter().all(|&e| e > 0.0));
    assert_eq!(envelope[0], 0.0);
}

#[test]
fn rows_are_inverted_alone() {
    let t = transform();
    let (many, one) = (t.istft(&[3, 4, 2049, 2]).unwrap(), t.istft(&[1, 4, 2049, 2]).unwrap());
    assert_eq!((many.batch, one.batch), (3, 1));
    assert_eq!(many.indices, one.indices);
    assert_eq!(many.overlap_length, one.overlap_length);
    assert_eq!((many.output_start, many.output_end), (one.output_start, one.output_end));
}

#[test]
fn limits_of_plans_are_tested() {
    assert!(SpectralTransform::can_plan_stft(&[1, i32::MAX - N_FFT]));
    assert!(!SpectralTransform::can_plan_stft(&[1, i32::MAX - N_FFT + 1]));
    assert!(SpectralTransform::can_plan_stft(&[i32::MAX]));
    assert!(SpectralTransform::can_plan_istft(&[1, i32::MAX / N_FFT, 2049, 2]));
    assert!(!SpectralTransform::can_plan_istft(&[1, i32::MAX / N_FFT + 1, 2049, 2]));
    assert!(!SpectralTransform::can_plan_istft(&[1, -1, 2049, 2]));
    assert!(SpectralTransform::can_plan_istft(&[1, i32::MAX, 2048, 2]));
}
