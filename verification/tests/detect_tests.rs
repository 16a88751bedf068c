use adsb_capture::crc::verify_crc;
use adsb_capture::detect::{Frame, FrameType, ModeS};

const VALID: &str = "8D4840D6202CC371C32CE0576098";

fn iq_for(magnitude: u16) -> (u8, u8) {
    match magnitude {
        0 => (127, 127),
        30 => (157, 127),
        179 => (255, 255),
        other => panic!("no sample pair for magnitude {}", other),
    }
}

fn frame_magnitudes(bytes: &[u8]) -> Vec<u16> {
    let mut m = vec![30u16; 16];
    for p in [0usize, 2, 7, 9] {
        m[p] = 179;
    }
    for byte in bytes {
        for bit in 0..8 {
            if (byte >> (7 - bit)) & 1 == 1 {
                m.push(179);
                m.push(30);
            } else {
                m.push(30);
                m.push(179);
            }
        }
    }
    m
}

fn buffer_with_frame(bytes: &[u8], at: usize, total: usize) -> Vec<u8> {
    let mut magnitudes = vec![0u16; total];
    for (k, m) in frame_magnitudes(bytes).into_iter().enumerate() {
        magnitudes[at + k] = m;
    }
    let mut iq = Vec::new();
    for m in magnitudes {
        let (i, q) = iq_for(m);
        iq.push(i);
        iq.push(q);
    }
    iq
}

#[test]
fn detector_finds_the_one_frame_of_a_buffer() {
    let bytes = hex::decode(VALID).unwrap();
    let iq = buffer_with_frame(&bytes, 1000, 24_000);
    let mut detector = ModeS::new();
    let frames = detector.process_buffer(&iq);
    assert_eq!(frames.len(), 1);
    let frame = &frames[0];
    assert_eq!(frame.to_hex(), VALID);
    assert_eq!(frame.frame_type, FrameType::Long);
    assert_eq!(frame.df(), 17);
    assert_eq!(frame.timestamp_samples, 1000);
    assert_eq!(frame.signal_level, 179);
    let stats = detector.get_stats();
    assert_eq!(stats.samples_processed, 24_000);
    assert_eq!(stats.frames_decoded, 1);
    assert_eq!(stats.long_frames, 1);
    assert_eq!(stats.short_frames, 0);
    assert_eq!(stats.corrected_frames, 0);
    assert!(stats.preambles_detected >= 1);
    assert_eq!(stats.crc_errors, stats.preambles_detected - 1);
    assert_eq!(detector.get_max_magnitude(), 179);
}

#[test]
fn detector_counts_samples_over_buffers() {
    let bytes = hex::decode(VALID).unwrap();
    let iq = buffer_with_frame(&bytes, 500, 24_000);
    let mut detector = ModeS::new();
    assert_eq!(detector.process_buffer(&iq).len(), 1);
    let frames = detector.process_buffer(&iq);
    assert_eq!(frames.len(), 1);
    assert_eq!(frames[0].timestamp_samples, 24_500);
    assert_eq!(detector.get_stats().samples_processed, 48_000);
    assert_eq!(detector.get_stats().frames_decoded, 2);
    detector.reset_stats();
    assert_eq!(detector.get_stats().frames_decoded, 0);
    assert_eq!(detector.get_stats().samples_processed, 0);
}

#[test]
fn short_buffer_yields_nothing_and_changes_nothing() {
    let mut detector = ModeS::new();
    let iq = vec![200u8; 2 * 239];
    assert!(detector.process_buffer(&iq).is_empty());
    assert_eq!(detector.get_stats().samples_processed, 0);
    assert_eq!(detector.get_noise_floor(), 0);
}

#[test]
fn noise_floor_follows_the_buffers() {
    let mut detector = ModeS::new();
    // every magnitude is 30: the first buffer sets the floor
    let iq: Vec<u8> = (0..2000).flat_map(|_| [157u8, 127u8]).collect();
    assert!(detector.process_buffer(&iq).is_empty());
    assert_eq!(detector.get_noise_floor(), 30);
    // a silent buffer moves it a tenth of the way: (30 * 9 + 0) / 10 = 27
    let silent = vec![127u8; 4000];
    assert!(detector.process_buffer(&silent).is_empty());
    assert_eq!(detector.get_noise_floor(), 27);
    assert_eq!(detector.get_stats().preambles_detected, 0);
}

#[test]
fn flipped_bit_is_repaired() {
    let bytes = hex::decode(VALID).unwrap();
    let detector = ModeS::new();
    let confidence = vec![149i32; 112];
    for bit in 0..112usize {
        let mut broken = bytes.clone();
        broken[bit / 8] ^= 1 << (7 - bit % 8);
        assert!(!verify_crc(&broken));
        assert!(!detector.verify_crc(&broken));
        let fixed = detector.try_single_bit_correction(&broken, &confidence, 112);
        assert_eq!(fixed, Some(bytes.clone()));
    }
}

#[test]
fn flipped_bit_in_the_air_counts_as_corrected() {
    let bytes = hex::decode(VALID).unwrap();
    for bit in [0usize, 5, 37, 64, 111] {
        let mut broken = bytes.clone();
        broken[bit / 8] ^= 1 << (7 - bit % 8);
        let iq = buffer_with_frame(&broken, 1000, 24_000);
        let mut detector = ModeS::new();
        let frames = detector.process_buffer(&iq);
        assert_eq!(frames.len(), 1);
        assert_eq!(frames[0].to_hex(), VALID);
        assert_eq!(detector.get_stats().corrected_frames, 1);
    }
}

#[test]
fn two_flipped_bits_are_repaired_among_the_least_certain() {
    let bytes = hex::decode(VALID).unwrap();
    let detector = ModeS::new();
    let mut broken = bytes.clone();
    broken[3] ^= 0x10;
    broken[9] ^= 0x02;
    let mut confidence = vec![100i32; 112];
    confidence[3 * 8 + 3] = 1;
    confidence[9 * 8 + 6] = 2;
    assert_eq!(detector.try_single_bit_correction(&broken, &confidence, 112), Some(bytes.clone()));
    // with the two bits among the most certain, the pair is not tried
    let mut sure = vec![1i32; 112];
    sure[3 * 8 + 3] = 50;
    sure[9 * 8 + 6] = 50;
    assert_eq!(detector.try_single_bit_correction(&broken, &sure, 112), None);
}

#[test]
fn bits_are_read_in_manchester_code() {
    let detector = ModeS::new();
    let mag = [9u16, 1, 1, 9, 5, 5, 7, 2, 0, 0, 3, 4, 8, 1, 2, 6, 9, 0];
    // bits from sample 0: 1 0 0 1 0 0 1 0 | 1
    assert_eq!(detector.extract_bits(&mag, 0, 9), vec![0b1001_0010, 0b1000_0000]);
    let (bytes, confidence) = detector.extract_bits_with_confidence(&mag, 0, 9);
    assert_eq!(bytes, vec![0b1001_0010, 0b1000_0000]);
    assert_eq!(confidence, vec![8, 8, 0, 5, 0, 1, 7, 4, 9]);
    assert_eq!(detector.extract_bits(&mag, 2, 3), vec![0b0010_0000]);
}

#[test]
fn preamble_criteria() {
    let detector = ModeS::new();
    let mut mag = vec![30u16; 32];
    for p in [0usize, 2, 7, 9] {
        mag[p] = 200;
    }
    assert!(detector.detect_preamble_adaptive(&mag, 0, 10));
    assert!(detector.detect_preamble(&mag, 0));
    // correlation 800 - 210 = 590 is below three times 197
    assert!(detector.detect_preamble_adaptive(&mag, 0, 196));
    assert!(!detector.detect_preamble_adaptive(&mag, 0, 197));
    assert!(!detector.detect_preamble_adaptive(&mag, 1, 10));
    assert!(!detector.detect_preamble_adaptive(&mag, 17, 10));
    // a weak pulse: 66 * 3 < 200
    let mut weak = mag.clone();
    weak[7] = 66;
    assert!(!detector.detect_preamble_adaptive(&weak, 0, 10));
    // a loud space: 134 * 3 > 200 * 2
    let mut loud = mag.clone();
    loud[4] = 134;
    assert!(!detector.detect_preamble_adaptive(&loud, 0, 10));
    // a loud quiet zone: mean above the mean of the pulses
    let mut noisy = mag.clone();
    for p in 11..16 {
        noisy[p] = 201;
    }
    assert!(!detector.detect_preamble_adaptive(&noisy, 0, 10));
    assert!(detector.detect_preamble(&noisy, 0));
    // at the very end of the buffer the quiet zone is not looked at
    assert!(detector.detect_preamble_adaptive(&noisy[..16], 0, 10));
    assert!(!detector.detect_preamble_adaptive(&noisy[..15], 0, 10));
}

#[test]
fn fixed_threshold_is_set() {
    let mut detector = ModeS::new();
    let mut mag = vec![3u16; 32];
    for p in [0usize, 2, 7, 9] {
        mag[p] = 20;
    }
    assert!(detector.detect_preamble(&mag, 0));
    detector.set_threshold(21);
    assert!(!detector.detect_preamble(&mag, 0));
}

#[test]
fn frame_gives_format_and_hex() {
    let frame = Frame {
        frame_type: FrameType::Short,
        data: vec![0x5D, 0x0A, 0xBC, 0x00, 0xFF, 0x10, 0x01],
        signal_level: 12,
        timestamp_samples: 0,
    };
    assert_eq!(frame.df(), 11);
    assert_eq!(frame.to_hex(), "5D0ABC00FF1001");
}

#[test]
fn failures_are_counted_and_noted() {
    let mut broken = hex::decode(VALID).unwrap();
    for k in 10..13 {
        broken[k] ^= 0xFF;
    }
    let iq = buffer_with_frame(&broken, 1000, 24_000);
    let mut detector = ModeS::new();
    assert!(detector.get_diagnostics().is_empty());
    let frames = detector.process_buffer(&iq);
    assert!(frames.is_empty());
    let stats = *detector.get_stats();
    assert!(stats.crc_errors >= 1 && stats.crc_errors <= 10);
    assert_eq!(stats.crc_errors, stats.preambles_detected);
    assert_eq!(stats.frames_decoded, 0);
    let notes = detector.get_diagnostics();
    assert_eq!(notes.len() as u64, stats.crc_errors);
    let first = &notes[0];
    assert_eq!(first.ordinal, 1);
    assert_eq!(first.df, 17);
    assert_eq!(first.signal_level, 179);
    assert_eq!(first.avg_confidence, 149);
    assert_eq!(first.min_confidence, 149);
    assert_eq!(first.low_confidence_bits, 0);
    assert_eq!(first.data, broken);
    // the notes are those of the last buffer
    let silent = vec![127u8; 2 * 24_000];
    assert!(detector.process_buffer(&silent).is_empty());
    assert!(detector.get_diagnostics().is_empty());
    assert_eq!(detector.get_stats().crc_errors, stats.crc_errors);
}

#[test]
fn later_failures_are_noted_every_fiftieth_time() {
    let mut broken = hex::decode(VALID).unwrap();
    for k in 10..13 {
        broken[k] ^= 0xFF;
    }
    let iq = buffer_with_frame(&broken, 1000, 24_000);
    let mut detector = ModeS::new();
    let mut noted: Vec<u64> = Vec::new();
    while detector.get_stats().crc_errors < 120 {
        detector.process_buffer(&iq);
        noted.extend(detector.get_diagnostics().iter().map(|d| d.ordinal));
    }
    assert_eq!(noted, vec![1, 2, 3, 4, 5, 6, 7, 8, 9, 10, 50, 100]);
}

#[test]
fn decode_frame_tells_frame_from_failure() {
    let bytes = hex::decode(VALID).unwrap();
    let mut detector = ModeS::new();
    let good = frame_magnitudes(&bytes);
    let frame = detector.decode_frame(&good, 0).unwrap();
    assert_eq!(frame.data, bytes);
    assert_eq!(frame.timestamp_samples, 0);
    assert_eq!(detector.get_stats().crc_errors, 0);
    // too short for a long frame: counted, and nothing to note
    let note = detector.decode_frame(&good[..200], 0).unwrap_err();
    assert!(note.is_none());
    assert_eq!(detector.get_stats().crc_errors, 1);
    let mut broken = bytes.clone();
    broken[0] ^= 0xFF;
    broken[13] ^= 0xFF;
    let bad = frame_magnitudes(&broken);
    let note = detector.decode_frame(&bad, 0).unwrap_err().unwrap();
    assert_eq!(note.ordinal, 2);
    assert_eq!(note.data, broken);
    assert_eq!(note.df, broken[0] >> 3);
    assert_eq!(detector.get_stats().crc_errors, 2);
    assert_eq!(detector.get_stats().corrected_frames, 0);
}
