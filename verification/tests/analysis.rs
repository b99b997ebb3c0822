use sonar_modern::contact::{
    contact_type_to_string, CONTACT_TYPE_MARINE_LIFE, CONTACT_TYPE_ROCK, CONTACT_TYPE_UNKNOWN,
    CONTACT_TYPE_VESSEL, MAX_CONTACTS, MAX_SIGNALS,
};
use sonar_modern::detect::{
    analyzed_length, classify, find_contacts, find_peak, Detection, DetectorSettings,
    MARINE_LIFE_PEAK, ROCK_PEAK, STANDARD_MIN_CONTACT_SIZE, STANDARD_NOISE_THRESHOLD,
};
use sonar_modern::level::{exceeds, is_nan, key_of, ZERO_BITS};

fn bearings(n: usize) -> Vec<f32> {
    (0..n).map(|i| (360.0 * i as f32) / n as f32).collect()
}

/// The analysed prefix of a ping, smoothed by a 3-point moving average, as
/// `f32` bit patterns.
fn smoothed_bits(ping: &[f32]) -> Vec<u32> {
    let n = analyzed_length(ping.len());
    (0..n)
        .map(|i| {
            let v = if i > 0 && i < n - 1 {
                (ping[i - 1] + ping[i] + ping[i + 1]) / 3.0
            } else {
                ping[i]
            };
            v.to_bits()
        })
        .collect()
}

fn detect(ping: &[f32], max_contacts: usize) -> Vec<Detection> {
    find_contacts(&smoothed_bits(ping), DetectorSettings::standard(), max_contacts)
}

#[test]
fn pure_noise_yields_no_contacts() {
    let ping = [7.0_f32; 360];
    let found = detect(&ping, MAX_CONTACTS);
    assert_eq!(found.len(), 0);
}

#[test]
fn detects_plateau_and_fills_fields() {
    let mut ping = [5.0_f32; 360];
    for s in &mut ping[100..110] {
        *s = 90.0;
    }
    let found = detect(&ping, MAX_CONTACTS);
    assert_eq!(found.len(), 1);
    let c = found[0];
    let peak = f32::from_bits(c.peak);
    assert_eq!(peak / 100.0, 0.9);
    assert_eq!((100.0 - peak) * 10.0, (100.0 - 90.0) * 10.0);
    assert_eq!(c.width as f32 * 2.0, 12.0 * 2.0); // smoothed run is samples 99..=110
    assert_eq!(c.start, 99);
    assert_eq!(bearings(360)[c.peak_index], 101.0); // first sample that averages to exactly 90
    assert_eq!(c.contact_type, CONTACT_TYPE_ROCK);
}

#[test]
fn classification_branches() {
    // (strength, width) -> type, same order as the if/else chain
    let cases = [
        (90.0, 4, CONTACT_TYPE_ROCK),
        (60.0, 12, CONTACT_TYPE_VESSEL),
        (30.0, 3, CONTACT_TYPE_MARINE_LIFE),
        (60.0, 6, CONTACT_TYPE_UNKNOWN),
    ];
    for (strength, width, expected) in cases {
        let mut ping = [0.0_f32; 100];
        for s in &mut ping[40..40 + width] {
            *s = strength;
        }
        let found = detect(&ping, MAX_CONTACTS);
        assert_eq!(found.len(), 1, "strength {strength} width {width}");
        assert_eq!(found[0].contact_type, expected, "strength {strength} width {width}");
    }
}

#[test]
fn narrow_signature_is_ignored() {
    let mut ping = [0.0_f32; 100];
    ping[50] = 40.0; // smooths to 13.3 at 49..=51, all below threshold
    assert_eq!(detect(&ping, MAX_CONTACTS).len(), 0);
}

#[test]
fn never_writes_past_contacts_slice() {
    let mut ping = [0.0_f32; 100];
    for start in (0..100).step_by(10) {
        for s in &mut ping[start..start + 5] {
            *s = 50.0;
        }
    }
    assert_eq!(detect(&ping, 3).len(), 3);
    assert_eq!(detect(&ping, MAX_CONTACTS).len(), 10);
}

#[test]
fn single_sample_does_not_panic() {
    assert_eq!(detect(&[90.0], MAX_CONTACTS).len(), 0);
}

#[test]
fn contact_straddling_the_ends_is_counted_twice() {
    let mut ping = [0.0_f32; 100];
    for i in [97, 98, 99, 0, 1, 2] {
        ping[i] = 50.0;
    }
    let found = detect(&ping, MAX_CONTACTS);
    assert_eq!(found.len(), 2);
    assert_eq!(found[0].start, 0);
    assert!(found[1].start > 90);
}

#[test]
fn only_the_first_max_signals_samples_are_analysed() {
    assert_eq!(analyzed_length(0), 0);
    assert_eq!(analyzed_length(360), 360);
    assert_eq!(analyzed_length(MAX_SIGNALS), MAX_SIGNALS);
    assert_eq!(analyzed_length(MAX_SIGNALS + 5), MAX_SIGNALS);
    let mut ping = vec![0.0_f32; MAX_SIGNALS + 50];
    for s in &mut ping[MAX_SIGNALS + 10..MAX_SIGNALS + 40] {
        *s = 90.0;
    }
    assert_eq!(detect(&ping, MAX_CONTACTS).len(), 0);
}

#[test]
fn minimum_contact_size_is_respected() {
    let mut ping = [0.0_f32; 100];
    for s in &mut ping[10..13] {
        *s = 60.0;
    }
    let bits = smoothed_bits(&ping);
    // smoothed run is samples 9..=13, five wide
    let strict = DetectorSettings { noise_threshold: STANDARD_NOISE_THRESHOLD, min_contact_size: 6 };
    assert_eq!(find_contacts(&bits, strict, MAX_CONTACTS).len(), 0);
    let loose = DetectorSettings { noise_threshold: STANDARD_NOISE_THRESHOLD, min_contact_size: 5 };
    let found = find_contacts(&bits, loose, MAX_CONTACTS);
    assert_eq!(found.len(), 1);
    assert_eq!(found[0].start, 9);
    assert_eq!(found[0].width, 5);
    assert_eq!(find_contacts(&bits, loose, 0).len(), 0);
}

#[test]
fn detections_are_ordered_and_repeatable() {
    let mut ping = [0.0_f32; 200];
    for (start, strength) in [(10, 90.0_f32), (60, 30.0), (120, 60.0)] {
        for s in &mut ping[start..start + 8] {
            *s = strength;
        }
    }
    let first = detect(&ping, MAX_CONTACTS);
    let second = detect(&ping, MAX_CONTACTS);
    assert_eq!(first, second);
    assert_eq!(first.len(), 3);
    assert!(first[0].start < first[1].start && first[1].start < first[2].start);
    assert_eq!(first[0].start, 9);
    assert_eq!(first[0].width, 10);
    assert_eq!(first[0].contact_type, CONTACT_TYPE_ROCK);
    assert_eq!(first[2].contact_type, CONTACT_TYPE_UNKNOWN);
}

#[test]
fn standard_settings() {
    assert_eq!(STANDARD_NOISE_THRESHOLD, 15.0_f32.to_bits());
    assert_eq!(STANDARD_MIN_CONTACT_SIZE, 3);
    assert_eq!(ROCK_PEAK, 80.0_f32.to_bits());
    assert_eq!(MARINE_LIFE_PEAK, 40.0_f32.to_bits());
    assert_eq!(DetectorSettings::default(), DetectorSettings::standard());
}

#[test]
fn exceeds_is_the_float_order() {
    let values = [
        0.0_f32,
        -0.0,
        1.0,
        -1.0,
        15.0,
        14.999999,
        15.000001,
        80.0,
        40.0,
        1.0e-40,
        -1.0e-40,
        f32::MIN_POSITIVE,
        f32::MAX,
        f32::MIN,
        f32::INFINITY,
        f32::NEG_INFINITY,
        f32::NAN,
        -f32::NAN,
        f32::from_bits(0x7f80_0001),
        f32::from_bits(0xff80_0001),
    ];
    for a in values {
        for b in values {
            assert_eq!(exceeds(a.to_bits(), b.to_bits()), a > b, "{a} > {b}");
        }
        assert_eq!(is_nan(a.to_bits()), a.is_nan());
    }
    assert_eq!(key_of((-3.0_f32).to_bits()), -(3.0_f32.to_bits() as i64));
    assert_eq!(key_of((-0.0_f32).to_bits()), 0);
    assert_eq!(ZERO_BITS, 0.0_f32.to_bits());
}

#[test]
fn classify_follows_peak_then_width() {
    let bits = |v: f32| v.to_bits();
    assert_eq!(classify(bits(80.5), 2), CONTACT_TYPE_ROCK);
    assert_eq!(classify(bits(80.0), 11), CONTACT_TYPE_VESSEL);
    assert_eq!(classify(bits(80.0), 10), CONTACT_TYPE_UNKNOWN);
    assert_eq!(classify(bits(39.9), 4), CONTACT_TYPE_MARINE_LIFE);
    assert_eq!(classify(bits(39.9), 5), CONTACT_TYPE_UNKNOWN);
    assert_eq!(classify(bits(40.0), 3), CONTACT_TYPE_UNKNOWN);
    assert_eq!(classify(f32::NAN.to_bits(), 3), CONTACT_TYPE_UNKNOWN);
}

#[test]
fn peak_is_first_greatest_sample() {
    let s: Vec<u32> = [1.0_f32, 5.0, 3.0, 5.0, 2.0].iter().map(|v| v.to_bits()).collect();
    assert_eq!(find_peak(&s, 0, 5), (1, 5.0_f32.to_bits()));
    assert_eq!(find_peak(&s, 2, 5), (3, 5.0_f32.to_bits()));
    assert_eq!(find_peak(&s, 2, 3), (2, 3.0_f32.to_bits()));
    let flat: Vec<u32> = [-1.0_f32, 0.0, -2.0].iter().map(|v| v.to_bits()).collect();
    assert_eq!(find_peak(&flat, 0, 3), (0, 0));
    assert_eq!(find_peak(&s, 4, 4), (0, 0));
}

#[test]
fn negative_threshold_keeps_zero_peak() {
    let s: Vec<u32> = [-5.0_f32, -1.0, -2.0, -5.0].iter().map(|v| v.to_bits()).collect();
    let settings = DetectorSettings { noise_threshold: (-3.0_f32).to_bits(), min_contact_size: 1 };
    let found = find_contacts(&s, settings, MAX_CONTACTS);
    assert_eq!(found.len(), 1);
    assert_eq!(found[0].start, 1);
    assert_eq!(found[0].width, 2);
    assert_eq!(found[0].peak_index, 0);
    assert_eq!(found[0].peak, 0);
    assert_eq!(found[0].contact_type, CONTACT_TYPE_MARINE_LIFE);
}

#[test]
fn contact_type_names() {
    assert_eq!(contact_type_to_string(CONTACT_TYPE_UNKNOWN), "Unknown");
    assert_eq!(contact_type_to_string(CONTACT_TYPE_ROCK), "Rock/Structure");
    assert_eq!(contact_type_to_string(CONTACT_TYPE_VESSEL), "Vessel");
    assert_eq!(contact_type_to_string(CONTACT_TYPE_MARINE_LIFE), "Marine Life");
    assert_eq!(contact_type_to_string(4), "Invalid");
    assert_eq!(contact_type_to_string(-1), "Invalid");
}
