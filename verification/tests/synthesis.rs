use sonar_modern::contact::MAX_CONTACTS;
use sonar_modern::detect::{analyzed_length, find_contacts, DetectorSettings};
use sonar_modern::synth::{generate_data, lay_out, wrap_index, EchoPlan, SampleSource};

fn strength_of(source: SampleSource) -> f32 {
    match source {
        SampleSource::Noise { level } => 5.0 + level as f32,
        SampleSource::Echo { strength, offset, width } => {
            let falloff = 1.0 - (offset * offset) as f32 / (width * width) as f32;
            strength as f32 * falloff
        }
    }
}

fn synthetic(n: usize, num_contacts: usize) -> (Vec<f32>, Vec<f32>) {
    let data = generate_data(n, num_contacts).into_iter().map(strength_of).collect();
    let angles = (0..n).map(|i| (360.0 * i as f32) / n as f32).collect();
    (data, angles)
}

#[test]
fn generated_data_is_in_range() {
    let (data, angles) = synthetic(360, 5);
    assert!(data.iter().all(|&v| (5.0..=100.0).contains(&v)));
    assert!(angles.iter().all(|&a| (0.0..360.0).contains(&a)));
    assert_eq!(angles[90], 90.0);
    assert!(angles.windows(2).all(|w| w[0] < w[1]));
}

#[test]
fn generated_noise_only_is_integer_5_to_10() {
    let (data, _) = synthetic(500, 0);
    assert!(data.iter().all(|&v| (5.0..=10.0).contains(&v) && v.fract() == 0.0));
}

#[test]
fn generated_contacts_are_detectable() {
    let (data, _) = synthetic(360, 5);
    let n = analyzed_length(data.len());
    let bits: Vec<u32> = (0..n)
        .map(|i| {
            let v = if i > 0 && i < n - 1 { (data[i - 1] + data[i] + data[i + 1]) / 3.0 } else { data[i] };
            v.to_bits()
        })
        .collect();
    let found = find_contacts(&bits, DetectorSettings::standard(), MAX_CONTACTS);
    // A contact straddling sample 0 wraps around and is counted twice
    // by design, hence <= 6.
    assert!((1..=6).contains(&found.len()), "detected {}", found.len());
}

#[test]
fn generated_sources_are_in_range() {
    for _ in 0..20 {
        let samples = generate_data(37, 12);
        assert_eq!(samples.len(), 37);
        let mut echoes = 0;
        for s in samples {
            match s {
                SampleSource::Noise { level } => assert!(level < 6),
                SampleSource::Echo { strength, offset, width } => {
                    echoes += 1;
                    assert!((40..100).contains(&strength));
                    assert!((3..11).contains(&width));
                    assert!(offset.abs() <= width / 2);
                }
            }
        }
        assert!(echoes >= 3);
    }
    assert!(generate_data(0, 0).is_empty());
    assert!(generate_data(10, 0).iter().all(|s| matches!(s, SampleSource::Noise { .. })));
}

#[test]
fn generated_noise_varies() {
    let samples = generate_data(1000, 0);
    let first = samples[0];
    assert!(samples.iter().any(|s| *s != first));
}

#[test]
fn wrap_index_wraps_both_ends() {
    assert_eq!(wrap_index(0, -1, 10), 9);
    assert_eq!(wrap_index(9, 1, 10), 0);
    assert_eq!(wrap_index(3, 2, 10), 5);
    assert_eq!(wrap_index(0, -5, 2), 1);
    assert_eq!(wrap_index(0, -4, 2), 0);
    assert_eq!(wrap_index(1, 7, 3), 2);
    assert_eq!(wrap_index(0, i64::MIN, 3), 1);
    assert_eq!(wrap_index(0, i64::MAX, 3), 1);
}

#[test]
fn lay_out_writes_echoes_in_order() {
    let noise = [0u8, 1, 2, 3, 4, 5, 0, 1];
    let plans = [
        EchoPlan { center: 0, width: 3, strength: 40 },
        EchoPlan { center: 1, width: 4, strength: 90 },
        EchoPlan { center: 5, width: 0, strength: 41 },
    ];
    let s = lay_out(&noise, &plans);
    let echo = |strength, offset, width| SampleSource::Echo { strength, offset, width };
    assert_eq!(
        s,
        vec![
            echo(90, -1, 4),
            echo(90, 0, 4),
            echo(90, 1, 4),
            echo(90, 2, 4),
            SampleSource::Noise { level: 4 },
            echo(41, 0, 0),
            SampleSource::Noise { level: 0 },
            echo(90, -2, 4),
        ]
    );
    // On a ping narrower than the echo, later offsets overwrite earlier ones.
    let tiny = lay_out(&[2u8, 2], &[EchoPlan { center: 0, width: 5, strength: 50 }]);
    assert_eq!(tiny, vec![echo(50, 2, 5), echo(50, 1, 5)]);
    assert_eq!(lay_out(&[3u8], &[]), vec![SampleSource::Noise { level: 3 }]);
}
