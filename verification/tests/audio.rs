use orcavoice::audio::{
    calculate_peak, check_capture, dead_input_message, downsample_to_16k, encode_wav,
    i32_sample_to_i16, i8_sample_to_i16, microphone_list, must_open_stream, process_capture,
    push_samples,
    resampled_length, resolve_input_device, wav_error, CaptureRejection, DeviceChoice, WavFailure,
    SILENCE_PEAK_THRESHOLD, TARGET_SAMPLE_RATE,
};

#[test]
fn peak_tracking_survives_multichannel_downmix() {
    let mut samples = Vec::new();
    let mut peak = 0;
    push_samples(&[1200_i16, 1200, -800, -800], 2, &mut samples, &mut peak);
    assert_eq!(samples.len(), 2);
    assert_eq!(peak, 1200);
}

#[test]
fn dead_air_is_still_rejected() {
    let samples = vec![0_i16; 16_000];
    assert!(calculate_peak(&samples) < SILENCE_PEAK_THRESHOLD);
}

#[test]
fn quiet_word_reaches_the_peak_gate() {
    let mut samples = vec![0_i16; 16_000];
    for (index, sample) in samples.iter_mut().enumerate().take(200) {
        *sample = if index % 2 == 0 { 600 } else { -600 };
    }
    assert!(calculate_peak(&samples) >= SILENCE_PEAK_THRESHOLD);
    assert_eq!(check_capture(&samples), Ok(600));
}

#[test]
fn downmix_rounds_toward_zero_and_drops_partial_frames() {
    let mut samples = vec![5_i16];
    let mut peak = 3000;
    push_samples(&[-3, 0, 3, 0, 7], 2, &mut samples, &mut peak);
    assert_eq!(samples, vec![5, -1, 1]);
    assert_eq!(peak, 3000);
    push_samples(&[i16::MIN, i16::MIN, i16::MAX, i16::MAX], 2, &mut samples, &mut peak);
    assert_eq!(samples, vec![5, -1, 1, i16::MIN, i16::MAX]);
    assert_eq!(peak, 32768);
    let mut mono = Vec::new();
    let mut p = 0;
    push_samples(&[1, -2, 3], 1, &mut mono, &mut p);
    assert_eq!(mono, vec![1, -2, 3]);
    assert_eq!(p, 3);
}

#[test]
fn resampling_picks_the_earlier_sample() {
    let input: Vec<i16> = (0..48).collect();
    assert_eq!(downsample_to_16k(&input, 48_000), (0..16).map(|i| i * 3).collect::<Vec<i16>>());
    assert_eq!(downsample_to_16k(&input, 16_000), input);
    let short: Vec<i16> = (0..10).collect();
    assert_eq!(downsample_to_16k(&short, 32_000), vec![0, 2, 4, 6, 8]);
}

#[test]
fn short_or_silent_captures_are_rejected() {
    assert_eq!(check_capture(&vec![1000_i16; 7_999]), Err(CaptureRejection::TooShort));
    assert_eq!(
        check_capture(&vec![63_i16; 8_000]),
        Err(CaptureRejection::Silent { peak: 63 })
    );
    assert_eq!(check_capture(&vec![-64_i16; 8_000]), Ok(64));
}

#[test]
fn sample_format_conversion() {
    assert_eq!(i8_sample_to_i16(-128), i16::MIN);
    assert_eq!(i8_sample_to_i16(1), 256);
    assert_eq!(i32_sample_to_i16(i32::MIN), i16::MIN);
    assert_eq!(i32_sample_to_i16(-1), -1);
    assert_eq!(i32_sample_to_i16(0x7FFF_FFFF), i16::MAX);
}

#[test]
fn preferred_device_falls_back_to_default() {
    let names = vec!["Yeti Nano".to_string(), "Webcam".to_string()];
    assert_eq!(resolve_input_device(Some(" Webcam "), &names), (DeviceChoice::Named(1), false));
    assert_eq!(resolve_input_device(Some("Gone"), &names), (DeviceChoice::Default, true));
    assert_eq!(resolve_input_device(Some("  "), &names), (DeviceChoice::Default, false));
    assert_eq!(resolve_input_device(None, &names), (DeviceChoice::Default, false));
}

#[test]
fn default_device_is_marked() {
    let list = microphone_list(
        vec!["A".to_string(), "B".to_string()],
        Some("B".to_string()),
    );
    assert_eq!(list.len(), 2);
    assert!(!list[0].is_default);
    assert!(list[1].is_default);
    assert_eq!(list[1].name, "B");
}

#[test]
fn wav_encoding_has_riff_header() {
    let samples = vec![0_i16; TARGET_SAMPLE_RATE as usize];
    let wav = encode_wav(&samples, TARGET_SAMPLE_RATE).unwrap();
    assert_eq!(&wav[0..4], b"RIFF");
    assert_eq!(&wav[8..12], b"WAVE");
}

#[test]
fn wav_holds_header_then_little_endian_samples() {
    let wav = encode_wav(&[1_i16, -2, 300], 16_000).unwrap();
    assert_eq!(wav.len(), 44 + 6);
    assert_eq!(&wav[36..40], b"data");
    assert_eq!(&wav[40..44], &6_u32.to_le_bytes());
    assert_eq!(&wav[24..28], &16_000_u32.to_le_bytes());
    assert_eq!(&wav[44..], &[1, 0, 0xfe, 0xff, 0x2c, 0x01]);
    assert_eq!(encode_wav(&[], 8_000).unwrap().len(), 44);
}

#[test]
fn wav_failures_name_the_step() {
    assert_eq!(
        wav_error(WavFailure::Create("io".into())).message(),
        "Audio error: Cannot create WAV writer: io"
    );
    assert_eq!(
        wav_error(WavFailure::Sample("too wide".into())).message(),
        "Audio error: Cannot write WAV sample: too wide"
    );
    assert_eq!(
        wav_error(WavFailure::Finalize("io".into())).message(),
        "Audio error: Cannot finalize WAV data: io"
    );
}

#[test]
fn all_zero_capture_explains_the_privacy_switch() {
    let m = dead_input_message("USB Mic", 0).unwrap();
    assert!(m.starts_with("No audio at all from \"USB Mic\""));
    assert!(m.contains("Privacy & security"));
    assert!(dead_input_message("USB Mic", 1).is_some());
    assert_eq!(dead_input_message("USB Mic", 2), None);
}

#[test]
fn starting_twice_opens_one_stream() {
    assert!(must_open_stream(false));
    assert!(!must_open_stream(true));
}

#[test]
fn empty_capture_downsamples_to_nothing_at_any_rate() {
    assert_eq!(downsample_to_16k(&[], 0), Vec::<i16>::new());
    assert_eq!(downsample_to_16k(&[], 44_100), Vec::<i16>::new());
}

#[test]
fn resampling_rounds_like_binary64_ratios() {
    let ramp: Vec<i16> = (0..2000).map(|i| i as i16).collect();
    let out = downsample_to_16k(&ramp, 37_800);
    assert_eq!(out.len(), 846);
    assert_eq!(out[400], 944);
    assert_eq!(resampled_length(16_001, 16_001), 15_999);
    assert_eq!(downsample_to_16k(&vec![0_i16; 16_001], 16_001).len(), 15_999);
    let cd: Vec<i16> = (0..1000).map(|i| i as i16).collect();
    let out = downsample_to_16k(&cd, 44_100);
    assert_eq!(out.len(), 362);
    assert_eq!(&out[..5], &[0, 2, 5, 8, 11]);
}

#[test]
fn stopping_resamples_gates_then_encodes() {
    let loud: Vec<i16> = (0..48_000).map(|i| if i % 2 == 0 { 2_000 } else { -2_000 }).collect();
    let done = process_capture(&loud, 48_000);
    assert_eq!(done.samples.len(), 16_000);
    let upload = done.outcome.expect("a loud second of audio is uploaded");
    assert_eq!(upload.peak, 2_000);
    assert_eq!(upload.wav.len(), 44 + 2 * 16_000);
    assert_eq!(&upload.wav[0..4], b"RIFF");

    let short = process_capture(&vec![5_000_i16; 4_000], 16_000);
    assert!(matches!(short.outcome, Err(CaptureRejection::TooShort)));
    let silent = process_capture(&vec![3_i16; 16_000], 16_000);
    assert!(matches!(silent.outcome, Err(CaptureRejection::Silent { peak: 3 })));
    assert_eq!(silent.samples.len(), 16_000);
}
