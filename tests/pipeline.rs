use raag_detection::chromagram::{ChromagramExtractor, CHROMA_UNIT};
use raag_detection::classifier::{RaagClassifier, UNIT};
use raag_detection::pitch::PitchExtractor;
use raag_detection::preprocessing::{frames, AudioPreprocessor, FULL_SCALE};
use raag_detection::raag_db::{Note, PhrasePattern, Raag, RaagDatabase, Ratio};
use raag_detection::reader::{
    decode_step, format_for_extension, format_from_extension, AudioError, AudioFormat,
    AudioReader, DecodeAction, DecodeStep, PacketEvent, SAMPLE_LIMIT,
};
use raag_detection::spectral::{isqrt, SpectralAnalyzer};

fn sine(freq: f64, rate: u32, len: usize, amp: f64) -> Vec<i32> {
    (0..len)
        .map(|i| {
            let t = i as f64 / rate as f64;
            (amp * (2.0 * std::f64::consts::PI * freq * t).sin() * FULL_SCALE as f64).round() as i32
        })
        .collect()
}

#[test]
fn normalize_scales_to_full_scale() {
    let r = AudioPreprocessor::normalize(&vec![100, -200, 50]);
    assert_eq!(r, vec![4_194_304, -8_388_608, 2_097_152]);
    assert_eq!(r.iter().map(|x| x.abs()).max().unwrap(), FULL_SCALE);
}

#[test]
fn normalize_keeps_all_zero_buffer() {
    assert_eq!(AudioPreprocessor::normalize(&vec![0, 0, 0]), vec![0, 0, 0]);
    assert_eq!(AudioPreprocessor::normalize(&vec![]), Vec::<i32>::new());
}

#[test]
fn normalize_rounds_toward_zero() {
    let r = AudioPreprocessor::normalize(&vec![3, -1, 0]);
    assert_eq!(r, vec![8_388_608, -2_796_202, 0]);
}

#[test]
fn normalize_on_a_sine_reaches_full_scale() {
    let s = sine(440.0, 44100, 1000, 0.25);
    let r = AudioPreprocessor::normalize(&s);
    assert_eq!(r.iter().map(|x| x.abs()).max().unwrap(), FULL_SCALE);
}

#[test]
fn remove_dc_offset_centres_the_signal() {
    assert_eq!(AudioPreprocessor::remove_dc_offset(&vec![10, 20, 30]), vec![-10, 0, 10]);
    let r = AudioPreprocessor::remove_dc_offset(&vec![1, 2]);
    assert_eq!(r, vec![0, 1]);
    let total: i64 = r.iter().map(|&x| x as i64).sum();
    assert!(total >= 0 && total < 2);
}

#[test]
fn remove_dc_offset_with_negative_mean() {
    let r = AudioPreprocessor::remove_dc_offset(&vec![-3, -4]);
    assert_eq!(r, vec![1, 0]);
    let s = vec![500, -700, 1200, 33, -9];
    let r = AudioPreprocessor::remove_dc_offset(&s);
    let total: i64 = r.iter().map(|&x| x as i64).sum();
    assert!(total >= 0 && total < s.len() as i64);
}

#[test]
fn apply_window_keeps_short_last_chunk() {
    let r = AudioPreprocessor::apply_window(&vec![1, 2, 3, 4, 5], 2);
    assert_eq!(r, vec![vec![1, 2], vec![3, 4], vec![5]]);
    assert_eq!(AudioPreprocessor::apply_window(&vec![], 3), Vec::<Vec<i32>>::new());
    assert_eq!(AudioPreprocessor::apply_window(&vec![1, 2, 3, 4], 2), vec![vec![1, 2], vec![3, 4]]);
}

#[test]
fn frames_overlap_by_hop() {
    let r = frames(&vec![1, 2, 3, 4, 5], 4, 2);
    assert_eq!(r, vec![vec![1, 2, 3, 4], vec![3, 4, 5], vec![5]]);
}

#[test]
fn pitch_of_pure_sines_within_two_percent() {
    for &f in &[110.0f64, 150.0] {
        let s = sine(f, 44100, 44100, 0.5);
        let ex = PitchExtractor::new(44100);
        let contour = ex.extract_f0(&s);
        assert_eq!(contour.len(), (44100 + 511) / 512);
        // interior frames: full windows
        let full = (44100 - 2048) / 512 + 1;
        for &mhz in &contour[..full] {
            let hz = mhz as f64 / 1000.0;
            assert!((hz - f).abs() <= 0.02 * f, "estimate {} for {}", hz, f);
        }
    }
}

#[test]
fn pitch_of_silence_is_shortest_lag() {
    let ex = PitchExtractor::new(44100);
    let contour = ex.extract_f0(&vec![0; 2048]);
    assert_eq!(contour.len(), 4);
    // every lag scores the same: the first one searched, 44100 / 800 = 55 samples
    assert_eq!(contour[0], 44100 * 1000 / 55);
    assert!(ex.extract_f0(&vec![]).is_empty());
}

#[test]
fn autocorrelation_sum_at_lag() {
    assert_eq!(PitchExtractor::autocorrelation_sum(&vec![1, 2, 3, 4], 1), 2 + 6 + 12);
    assert_eq!(PitchExtractor::autocorrelation_sum(&vec![1, -2, 3], 0), 14);
}

#[test]
fn autocorrelation_normalized_by_number_of_terms() {
    assert_eq!(PitchExtractor::autocorrelation_at_lag(&vec![1, 2, 3, 4], 1), 20 / 3);
    assert_eq!(PitchExtractor::autocorrelation_at_lag(&vec![1, -2, 3], 0), 14 / 3);
    assert_eq!(PitchExtractor::autocorrelation_at_lag(&vec![3, -1, 0, 0], 1), -1);
    assert_eq!(PitchExtractor::autocorrelation_at_lag(&vec![1, -2], 1), -2);
}

#[test]
fn best_lag_prefers_first_of_equal_maxima() {
    // lags 1 and 2 of a period-1 signal have the same normalized correlation
    let s = vec![5; 8];
    assert_eq!(PitchExtractor::best_lag(&s, 1, 4), 1);
    let alt = vec![3, -3, 3, -3, 3, -3, 3, -3];
    assert_eq!(PitchExtractor::best_lag(&alt, 1, 4), 2);
    assert_eq!(PitchExtractor::best_lag(&alt, 1, 2), 1);
}

#[test]
fn best_lag_when_no_lag_correlates_positively() {
    // lag 2 sums -3 over 6 terms, lag 3 sums 0 over 5: lag 3 is the larger
    let s = vec![1, 0, -1, 0, 1, 0, -1, 0];
    assert_eq!(PitchExtractor::best_lag(&s, 2, 4), 3);
    let ex = PitchExtractor::new(1600);
    assert_eq!(ex.autocorrelation_pitch(&s), 1600 * 1000 / 3);
    assert_eq!(PitchExtractor::best_lag(&s, 3, 3), 3);
}

fn semitone_of(f: f64) -> i32 {
    (69.0 + 12.0 * (f / 440.0).log2()).round() as i32
}

#[test]
fn tonic_is_mode_of_dominant_pitch() {
    let f = 220.0;
    let mut contour = vec![f; 30];
    contour.extend(vec![330.0; 10]);
    contour.extend(vec![247.5; 5]);
    let semis: Vec<i32> = contour.iter().map(|&x| semitone_of(x)).collect();
    let s = RaagClassifier::estimate_tonic(&semis).unwrap();
    let tonic = 440.0 * 2f64.powf((s - 69) as f64 / 12.0);
    assert!((12.0 * (tonic / f).log2()).abs() <= 1.0);
    assert_eq!(s, 57);
}

#[test]
fn tonic_tie_goes_to_lowest_semitone() {
    assert_eq!(RaagClassifier::estimate_tonic(&vec![60, 57, 60, 57, 62]), Some(57));
    assert_eq!(RaagClassifier::estimate_tonic(&vec![]), None);
}

#[test]
fn scale_degrees_of_constant_contour_are_unit() {
    let r = RaagClassifier::analyze_scale_degrees(&vec![220_000; 6], 220_000);
    assert_eq!(r, vec![UNIT; 6]);
}

#[test]
fn scale_degrees_ratio_and_unvoiced() {
    let r = RaagClassifier::analyze_scale_degrees(&vec![330_000, 0, 110_000], 220_000);
    assert_eq!(r, vec![1_500_000, 0, 500_000]);
}

#[test]
fn empty_database_matches_nothing() {
    let c = RaagClassifier::with_database(RaagDatabase::from_raags(vec![]));
    assert_eq!(c.find_best_raag_match(&vec![UNIT, 1_250_000, 1_500_000]), None);
    assert_eq!(c.find_best_raag_match(&vec![]), None);
}

#[test]
fn yaman_profile_matches_yaman() {
    let c = RaagClassifier::new();
    let degrees = vec![UNIT, 1_125_000, 1_250_000, 1_406_250, 1_500_000, 0, 1_875_000, 2_000_000];
    assert_eq!(c.find_best_raag_match(&degrees), Some("Yaman".to_string()));
}

#[test]
fn off_scale_profile_matches_nothing() {
    let c = RaagClassifier::new();
    // komal re and komal ga lie far from every note of Yaman
    let degrees = vec![1_066_000, 1_200_000, 1_066_000, 1_200_000, UNIT];
    assert_eq!(c.find_best_raag_match(&degrees), None);
    assert_eq!(c.find_best_raag_match(&vec![0, 0]), None);
}

#[test]
fn degrees_in_other_octaves_fold() {
    let c = RaagClassifier::new();
    // an octave below and above Ga, and Pa two octaves up
    let degrees = vec![625_000, 2_500_000, 6_000_000];
    assert_eq!(c.find_best_raag_match(&degrees), Some("Yaman".to_string()));
}

fn note(name: &str, num: u32, den: u32) -> Note {
    Note { name: name.to_string(), frequency_ratio: Ratio { num, den } }
}

fn raag(name: &str, ratios: &[(u32, u32)]) -> Raag {
    let notes: Vec<Note> = ratios.iter().map(|&(n, d)| note("x", n, d)).collect();
    Raag {
        name: name.to_string(),
        aroha: notes.clone(),
        avaroha: notes,
        vadi: note("Sa", 1, 1),
        samvadi: note("Sa", 1, 1),
        characteristic_phrases: vec![],
        thaat: "t".to_string(),
    }
}

#[test]
fn tie_between_raags_matches_nothing() {
    let db = RaagDatabase::from_raags(vec![raag("A", &[(5, 4)]), raag("B", &[(5, 4)])]);
    let c = RaagClassifier::with_database(db);
    assert_eq!(c.find_best_raag_match(&vec![1_250_000, 1_250_000]), None);
}

#[test]
fn better_covering_raag_wins() {
    let db = RaagDatabase::from_raags(vec![
        raag("A", &[(5, 4)]),
        raag("B", &[(5, 4), (3, 2)]),
    ]);
    let c = RaagClassifier::with_database(db);
    assert_eq!(c.find_best_raag_match(&vec![1_250_000, 1_500_000]), Some("B".to_string()));
}

#[test]
fn phrase_notes_count_toward_a_raag() {
    let mut r = raag("P", &[(9, 8)]);
    r.characteristic_phrases = vec![PhrasePattern { notes: vec![note("Pa", 3, 2)], weight: 1 }];
    let c = RaagClassifier::with_database(RaagDatabase::from_raags(vec![r]));
    assert_eq!(c.find_best_raag_match(&vec![1_500_000]), Some("P".to_string()));
}

#[test]
fn database_holds_yaman() {
    let db = RaagDatabase::new();
    assert_eq!(db.get_raags().len(), 1);
    let y = db.find_raag("Yaman").unwrap();
    assert_eq!(y.thaat, "Kalyan");
    assert_eq!(y.aroha.len(), 7);
    assert_eq!(y.avaroha.len(), 8);
    assert_eq!(y.vadi.frequency_ratio, Ratio { num: 5, den: 4 });
    assert_eq!(y.samvadi.name, "Ni");
    assert!(db.find_raag("Bhairav").is_none());
    assert!(db.find_raag("yaman").is_none());
}

#[test]
fn chroma_band_and_pitch_classes() {
    let ex = ChromagramExtractor::new(44100, 2048);
    assert_eq!(ex.hop_size(), 512);
    assert_eq!(ex.bin_count(), 1024);
    // bin 3 is 64.6 Hz, bin 4 is 86.1 Hz; bin 92 is 1981 Hz, bin 93 is 2002 Hz
    assert!(!ex.in_band(3));
    assert!(ex.in_band(4));
    assert!(ex.in_band(92));
    assert!(!ex.in_band(93));
    assert_eq!(ChromagramExtractor::pitch_class(69), 9);
    assert_eq!(ChromagramExtractor::pitch_class(60), 0);
    assert_eq!(ChromagramExtractor::pitch_class(-1), 11);
    assert_eq!(ChromagramExtractor::pitch_class(-12), 0);
    let fr = ex.frames(&vec![0; 4096]);
    assert_eq!(fr.len(), 8);
    assert_eq!(fr[0].len(), 2048);
    assert_eq!(fr[7].len(), 512);
}

#[test]
fn spectral_analyzer_keeps_parameters() {
    let a = SpectralAnalyzer::new(22050, 1024);
    assert_eq!(a.sample_rate, 22050);
    assert_eq!(a.fft_size, 1024);
}

#[test]
fn unsupported_extension_is_named() {
    match format_from_extension(Some("xyz")) {
        Err(AudioError::UnsupportedFormat { extension }) => assert_eq!(extension, "xyz"),
        other => panic!("unexpected {:?}", other),
    }
    assert!(matches!(format_from_extension(None), Err(AudioError::MissingExtension)));
}

#[test]
fn extensions_in_any_case_select_decoder() {
    assert_eq!(format_from_extension(Some("WAV")).unwrap(), AudioFormat::Wav);
    assert_eq!(format_from_extension(Some("Mp3")).unwrap(), AudioFormat::Compressed);
    assert_eq!(format_from_extension(Some("flac")).unwrap(), AudioFormat::Compressed);
    assert_eq!(format_from_extension(Some("OGG")).unwrap(), AudioFormat::Compressed);
    assert!(format_for_extension("WAV").is_err());
    assert_eq!(format_for_extension("wav").unwrap(), AudioFormat::Wav);
}

#[test]
fn empty_audio_is_an_error() {
    assert!(matches!(AudioReader::from_samples(vec![], 44100, 1), Err(AudioError::EmptyAudio)));
    let a = AudioReader::from_samples(vec![1, 2], 44100, 2).unwrap();
    assert_eq!(a.samples, vec![1, 2]);
    assert_eq!(a.channels, 2);
}

#[test]
fn malformed_packet_is_skipped_and_decoding_goes_on() {
    let events = [
        PacketEvent::Samples(1152),
        PacketEvent::Malformed,
        PacketEvent::OtherTrack,
        PacketEvent::Samples(1152),
        PacketEvent::EndOfStream,
    ];
    let mut collected = 0usize;
    let mut actions = vec![];
    for e in events {
        let step = decode_step(collected, SAMPLE_LIMIT, e);
        collected += step.keep;
        actions.push(step.action);
        if step.action != DecodeAction::Continue {
            break;
        }
    }
    assert_eq!(collected, 2304);
    assert_eq!(actions.last(), Some(&DecodeAction::Stop));
    assert_eq!(actions.len(), 5);
}

#[test]
fn decoding_stops_at_the_sample_limit() {
    assert_eq!(
        decode_step(SAMPLE_LIMIT - 10, SAMPLE_LIMIT, PacketEvent::Samples(100)),
        DecodeStep { keep: 10, action: DecodeAction::Stop }
    );
    assert_eq!(
        decode_step(0, 100, PacketEvent::Samples(99)),
        DecodeStep { keep: 99, action: DecodeAction::Continue }
    );
    assert_eq!(decode_step(0, 100, PacketEvent::Fatal).action, DecodeAction::Fail);
}

#[test]
fn scenario_sine_220_pipeline() {
    let s = sine(220.0, 44100, 44100, 0.8);
    let ex = PitchExtractor::new(44100);
    let contour = ex.extract_f0(&s);
    let semis: Vec<i32> = RaagClassifier::tonic_candidates(&contour)
        .iter()
        .map(|&m| semitone_of(m as f64 / 1000.0))
        .collect();
    // frames cluster on 220 Hz and on its lower octave, which the lag search may prefer
    let near = contour
        .iter()
        .filter(|&&m| {
            let f = m as f64 / 1000.0;
            (f - 220.0).abs() <= 4.4 || (f - 110.0).abs() <= 2.2
        })
        .count();
    assert!(near * 10 >= contour.len() * 9);
    let st = RaagClassifier::estimate_tonic(&semis).unwrap();
    assert_eq!(st.rem_euclid(12), 57 % 12);
    let tonic = 440.0 * 2f64.powf((st - 69) as f64 / 12.0);
    let degrees = RaagClassifier::analyze_scale_degrees(&contour, (tonic * 1000.0).round() as u64);
    let c = RaagClassifier::new();
    assert_eq!(c.find_best_raag_match(&degrees), Some("Yaman".to_string()));
}

#[test]
fn spectral_centroid_is_weighted_mean_frequency() {
    let a = SpectralAnalyzer::new(1000, 10);
    assert_eq!(a.bin_frequency(3), 300_000);
    assert_eq!(a.spectral_centroid(&vec![0, 2, 2]), 150_000);
    assert_eq!(a.spectral_centroid(&vec![0, 0, 0]), 0);
    assert_eq!(a.spectral_centroid(&vec![]), 0);
}

#[test]
fn spectral_rolloff_first_bin_reaching_share() {
    let a = SpectralAnalyzer::new(1000, 10);
    assert_eq!(a.spectral_rolloff(&vec![3, 4], 500_000), 100_000);
    assert_eq!(a.spectral_rolloff(&vec![3, 4], 300_000), 0);
    assert_eq!(a.spectral_rolloff(&vec![], 850_000), 500_000);
    assert_eq!(a.spectral_rolloff(&vec![3, 4], 2_000_000), 500_000);
}

#[test]
fn spectral_flux_counts_rises_only() {
    assert_eq!(SpectralAnalyzer::spectral_flux(&vec![1, 5, 2], &vec![4, 1, 6]), 5);
    assert_eq!(SpectralAnalyzer::spectral_flux(&vec![0], &vec![3, 4]), 3);
    assert_eq!(SpectralAnalyzer::spectral_flux(&vec![7, 7], &vec![1, 2]), 0);
}

#[test]
fn integer_square_root() {
    assert_eq!(isqrt(0), 0);
    assert_eq!(isqrt(24), 4);
    assert_eq!(isqrt(25), 5);
    assert_eq!(isqrt(1u128 << 80), 1u64 << 40);
}

#[test]
fn tonic_candidates_keep_in_range_pitches() {
    let r = RaagClassifier::tonic_candidates(&vec![80_000, 80_001, 0, 1_999_999, 2_000_000, 220_000]);
    assert_eq!(r, vec![80_001, 1_999_999, 220_000]);
}

fn run(events: &[PacketEvent], limit: usize) -> (usize, DecodeAction) {
    let mut collected = 0usize;
    for &e in events {
        let step = decode_step(collected, limit, e);
        collected += step.keep;
        if step.action != DecodeAction::Continue {
            return (collected, step.action);
        }
    }
    (collected, DecodeAction::Continue)
}

#[test]
fn malformed_packet_changes_nothing() {
    let with = [
        PacketEvent::Samples(100),
        PacketEvent::Malformed,
        PacketEvent::Samples(100),
        PacketEvent::Fatal,
    ];
    let without = [PacketEvent::Samples(100), PacketEvent::Samples(100), PacketEvent::Fatal];
    assert_eq!(run(&with, 1000), run(&without, 1000));
    assert_eq!(run(&with, 150), (150, DecodeAction::Stop));
}

#[test]
fn spectral_rolloff_share_in_millionths() {
    let a = SpectralAnalyzer::new(1000, 10);
    // 9 of 25 is 36%: 360_000 reaches at bin 0, 360_001 only at bin 1
    assert_eq!(a.spectral_rolloff(&vec![3, 4], 360_000), 0);
    assert_eq!(a.spectral_rolloff(&vec![3, 4], 360_001), 100_000);
}

#[test]
fn dc_removed_mean_within_tolerance() {
    let r = AudioPreprocessor::remove_dc_offset(&vec![0, 1]);
    assert_eq!(r, vec![0, 1]);
    let mean = r.iter().map(|&x| x as f64).sum::<f64>() / r.len() as f64 / FULL_SCALE as f64;
    assert!(mean.abs() <= 1e-5);
    let s = sine(440.0, 44100, 4410, 0.3);
    let shifted: Vec<i32> = s.iter().map(|&x| x + 100_000).collect();
    let r = AudioPreprocessor::remove_dc_offset(&shifted);
    let mean = r.iter().map(|&x| x as f64).sum::<f64>() / r.len() as f64 / FULL_SCALE as f64;
    assert!(mean.abs() <= 1e-5);
}

#[test]
fn chroma_vector_shares_of_in_band_energy() {
    let ex = ChromagramExtractor::new(44100, 2048);
    // bin 0 lies below the band; bins 4, 5, 6 lie in it
    let mags = vec![7, 0, 0, 0, 3, 1, 0];
    let midis = vec![0, 0, 0, 0, 69, 60, 62];
    let r = ex.chroma_vector(&mags, &midis);
    let mut expected = vec![0u64; 12];
    expected[9] = 750_000;
    expected[0] = 250_000;
    assert_eq!(r, expected);
    assert_eq!(r.iter().sum::<u64>(), CHROMA_UNIT);
}

#[test]
fn chroma_vector_without_band_energy_is_zero() {
    let ex = ChromagramExtractor::new(44100, 2048);
    assert_eq!(ex.chroma_vector(&vec![5, 0, 0, 0, 0], &vec![60, 60, 60, 60, 60]), vec![0u64; 12]);
    assert_eq!(ex.chroma_vector(&vec![], &vec![]), vec![0u64; 12]);
}

#[test]
fn chroma_vector_rounds_down_within_twelve() {
    let ex = ChromagramExtractor::new(44100, 2048);
    let r = ex.chroma_vector(&vec![0, 0, 0, 0, 1, 1, 1], &vec![0, 0, 0, 0, 48, 61, 74]);
    assert_eq!(&r[..3], &[333_333, 333_333, 333_333]);
    let total: u64 = r.iter().sum();
    assert!(total > CHROMA_UNIT - 12 && total <= CHROMA_UNIT);
}

#[test]
fn tonic_semitone_falls_back_to_a4() {
    assert_eq!(RaagClassifier::tonic_semitone(&vec![]), 69);
    assert_eq!(RaagClassifier::tonic_semitone(&vec![60, 57, 60]), 60);
}

#[test]
fn classify_with_tonic_matches_yaman() {
    let c = RaagClassifier::new();
    let contour = vec![220_000, 275_000, 330_000, 0, 412_500];
    assert_eq!(c.classify_with_tonic(&contour, 220_000), Some("Yaman".to_string()));
    let empty = RaagClassifier::with_database(RaagDatabase::from_raags(vec![]));
    assert_eq!(empty.classify_with_tonic(&contour, 220_000), None);
}
