use artheris::anomaly::{
    analyze_flight_anomalies, cap_severity, detect_anomalies_in_signal, detect_noise_regions,
    flight_searches, is_oscillation, noise_windows, spike_deviation, Anomaly, AnomalyType, Loss,
    Search, LOSS_STEPS_BITS, OSCILLATION_WORST_BITS, STILL_BITS,
};
use artheris::double::{max_double, stable_order, Double};
use artheris::fft::{compute_spectrum, find_peaks, meeting_peaks, padded_length};
use artheris::handlers::{
    are_comparable, comparison_possible, errors_of, errors_or_rest, fetch_failed,
    filtered_readings, identify_filtrado_vs_crudo, judged_numbers, motors_of, roll_field_names,
    sensor_noise, series_of, spectrum_possible, uncertainty_possible, usable_intervals,
    vibration_amplitude, vibration_measurable, Spread, DEFAULT_RATE_BITS, DOMINANT_PEAKS,
};
use artheris::http_server::ApiError;
use artheris::json::{parse_text, Json, JsonNumber};
use artheris::metrics::{
    self, alternatives, angle_readings, angle_segments, flight_span, get_any, get_f64_from,
    metrics_plan, no_span, no_span_at, plot_fields, span_ms, type_str, AngleSample, FlightSpan,
    MetricsPlan, Reading, FIELD_DES_PITCH, FIELD_ROLL,
};
use artheris::questdb::FlightPoint;

fn d(x: f64) -> Double {
    Double { bits: x.to_bits() }
}

fn doubles(list: &[f64]) -> Vec<Double> {
    list.iter().map(|x| d(*x)).collect()
}

fn json(t: &str) -> Json {
    parse_text(t).unwrap()
}

fn point(ts_micros: i64, t: &str) -> FlightPoint {
    FlightPoint { ts_micros, payload: json(t) }
}

fn whole(i: i64) -> Reading {
    Reading::Number(JsonNumber::Int(i))
}

fn strings(list: &[&str]) -> Vec<String> {
    list.iter().map(|s| s.to_string()).collect()
}

#[test]
fn doubles_compare_by_their_bits() {
    let samples = [
        0.0,
        -0.0,
        1.0,
        -1.0,
        0.1,
        1e308,
        -1e308,
        5e-324,
        -5e-324,
        f64::INFINITY,
        f64::NEG_INFINITY,
        f64::NAN,
    ];
    for a in samples {
        for b in samples {
            assert_eq!(d(a).less(d(b)), a < b);
            if a != b || a.is_sign_positive() == b.is_sign_positive() {
                let larger = max_double(d(a), d(b));
                if a.is_nan() && b.is_nan() {
                    assert!(larger.is_nan());
                } else {
                    assert_eq!(larger.bits, a.max(b).to_bits());
                }
            }
        }
        assert_eq!(d(a).is_nan(), a.is_nan());
    }
    assert_eq!(d(0.0).place(), d(-0.0).place());
}

#[test]
fn items_with_equal_keys_keep_their_order() {
    assert_eq!(stable_order(&vec![3, 1, 2, 1, 3, 1]), vec![1, 3, 5, 2, 0, 4]);
    assert_eq!(stable_order(&Vec::new()), Vec::<usize>::new());
    let keys: Vec<i64> = (0..200).map(|i| (i * 7919) % 31).collect();
    let mut expected: Vec<usize> = (0..200).collect();
    expected.sort_by_key(|i| keys[*i]);
    assert_eq!(stable_order(&keys), expected);
}

#[test]
fn signals_are_padded_to_a_power_of_two() {
    for n in [0u64, 1, 2, 3, 4, 5, 1000, 1024, 1025, 1 << 62, (1 << 62) + 1, 1 << 63] {
        assert_eq!(padded_length(n), n.next_power_of_two());
    }
}

#[test]
fn dominant_peaks_come_first() {
    let f = doubles(&[1.0, 2.0, 3.0, 4.0, 5.0, 6.0, 7.0, 8.0, 9.0]);
    let m = doubles(&[0.0, 2.0, 1.0, 5.0, 0.5, 2.0, 1.0, 7.0, 8.0]);
    let peaks = find_peaks(&f, &m, 5);
    assert_eq!(peaks, vec![(d(4.0), d(5.0)), (d(2.0), d(2.0)), (d(6.0), d(2.0))]);
    assert_eq!(find_peaks(&f, &m, 2), peaks[..2].to_vec());
    assert!(find_peaks(&f, &m, 0).is_empty());
}

#[test]
fn flat_or_short_spectra_have_no_peaks() {
    assert!(find_peaks(&doubles(&[1.0, 2.0]), &doubles(&[1.0, 2.0]), 5).is_empty());
    assert!(find_peaks(&doubles(&[1.0, 2.0, 3.0]), &doubles(&[1.0, 1.0, 1.0]), 5).is_empty());
    assert!(find_peaks(&doubles(&[1.0, 2.0, 3.0]), &doubles(&[0.0, f64::NAN, 0.0]), 5).is_empty());
    assert!(find_peaks(&doubles(&[1.0, 2.0, 3.0]), &doubles(&[f64::NAN, 1.0, 0.0]), 5).is_empty());
}

#[test]
fn short_signals_have_no_spectrum() {
    let f = doubles(&[1.0, 2.0, 3.0]);
    let m = doubles(&[0.0, 1.0, 0.0]);
    let s = compute_spectrum(3, f.clone(), m.clone(), 5);
    assert!(s.frequencies_hz.is_empty() && s.magnitudes.is_empty() && s.dominant_peaks.is_empty());
    let s = compute_spectrum(4, f.clone(), m.clone(), 5);
    assert_eq!(s.frequencies_hz, f);
    assert_eq!(s.magnitudes, m);
    assert_eq!(s.dominant_peaks, vec![(d(2.0), d(1.0))]);
}

#[test]
fn a_hundredth_is_still() {
    assert_eq!(STILL_BITS, 0.01f64.to_bits());
}

#[test]
fn spikes_are_far_from_both_neighbours() {
    let found = detect_anomalies_in_signal(&doubles(&[5.0, -5.0, 0.5, 4.0, 0.5]), d(3.0));
    assert_eq!(found.spikes, vec![1]);
    assert!(found.losses.is_empty());
    assert_eq!(found.crossings, 2);
}

#[test]
fn short_signals_are_not_searched() {
    let found = detect_anomalies_in_signal(&doubles(&[5.0, -5.0, 5.0]), d(1.0));
    assert!(found.spikes.is_empty());
    assert_eq!(found.crossings, 0);
}

#[test]
fn long_stretches_without_change_are_losses() {
    let mut steps = vec![1.0];
    steps.extend(vec![0.0; 11]);
    steps.push(1.0);
    steps.extend(vec![0.001; 10]);
    steps.push(1.0);
    steps.extend(vec![0.0; 50]);
    let found = detect_anomalies_in_signal(&doubles(&steps), d(100.0));
    assert_eq!(found.losses, vec![Loss { start: 2, last: 12, steps: 11 }]);
}

#[test]
fn a_step_that_is_no_number_turns_always() {
    let found =
        detect_anomalies_in_signal(&doubles(&[1.0, f64::NAN, f64::NAN, 1.0, 1.0]), d(9.0));
    assert_eq!(found.crossings, 3);
    let found = detect_anomalies_in_signal(&doubles(&[0.0, -1.0, -0.0, 0.0]), d(9.0));
    assert_eq!(found.crossings, 2);
}

#[test]
fn oscillations_turn_neither_slowly_nor_fast() {
    for f in [0.0, 2.0, 2.0000001, 10.0, 14.99, 15.0, 99.0, f64::NAN, f64::INFINITY, -3.0] {
        assert_eq!(is_oscillation(d(f)), f > 2.0 && f < 15.0);
    }
}

#[test]
fn peaks_meet_that_are_close() {
    let distances =
        vec![doubles(&[3.0, 0.49]), doubles(&[0.5, f64::NAN]), Vec::new(), doubles(&[0.0])];
    assert_eq!(meeting_peaks(&distances), vec![0, 3]);
}

#[test]
fn a_single_anomaly_needs_no_time() {
    let one = vec![anomaly(f64::NAN, AnomalyType::Spike, 5.0, "s")];
    let r = analyze_flight_anomalies("f", &one);
    assert_eq!(r.total_anomalies, 1);
    assert_eq!(r.summary.overall_quality_score, 95);
}

#[test]
fn short_spectra_need_no_magnitudes() {
    assert!(find_peaks(&doubles(&[1.0, 2.0]), &Vec::new(), 5).is_empty());
    assert!(compute_spectrum(3, doubles(&[1.0, 2.0, 3.0]), Vec::new(), 5).magnitudes.is_empty());
}

#[test]
fn fields_that_vary_by_no_number_are_not_compared() {
    let nan = f64::NAN;
    let list = |a: (usize, f64), b: (usize, f64), c: (usize, f64)| {
        spreads([a, b, c, (0, nan), (0, nan), (0, nan), (0, nan)])
    };
    assert!(are_comparable(&list((11, nan), (11, nan), (10, 1.0))));
    assert!(!are_comparable(&list((11, nan), (11, 1.0), (11, 1.0))));
    assert!(are_comparable(&list((11, 1.0), (11, 1.0), (11, 1.0))));
}

#[test]
fn few_points_choose_the_default_fields() {
    let points: Vec<FlightPoint> = (0..10)
        .map(|i| point(i, r#"{"roll":1,"AngleRoll_raw":2,"KalmanAngleRoll":3}"#))
        .collect();
    for count in 0..=10 {
        let few: Vec<FlightPoint> = points[..count].to_vec();
        let spreads: Vec<Spread> = roll_field_names()
            .iter()
            .map(|name| Spread { count: judged_numbers(&few, name).len(), variance: d(0.0) })
            .collect();
        assert_eq!(
            identify_filtrado_vs_crudo(&spreads),
            ("AngleRoll_est".to_string(), "AngleRoll".to_string())
        );
    }
}

#[test]
fn noise_is_searched_window_by_window() {
    assert_eq!(noise_windows(10, 10), 0);
    assert_eq!(noise_windows(9, 10), 0);
    assert_eq!(noise_windows(13, 10), 3);
    assert_eq!(
        detect_noise_regions(&doubles(&[0.1, 0.4, 0.3, f64::NAN, 2.0]), d(0.3)),
        vec![1, 4]
    );
}

fn anomaly(t: f64, kind: AnomalyType, severity: f64, name: &str) -> Anomaly {
    Anomaly {
        timestamp: d(t),
        anomaly_type: kind,
        severity: d(severity),
        description: name.to_string(),
        affected_axis: "roll_error".to_string(),
        value: None,
    }
}

#[test]
fn reports_are_in_the_order_of_time() {
    let found = vec![
        anomaly(2.0, AnomalyType::Spike, 40.0, "a"),
        anomaly(1.0, AnomalyType::ExcessiveNoise, 70.0, "b"),
        anomaly(2.0, AnomalyType::Oscillation, 10.0, "c"),
        anomaly(0.5, AnomalyType::SignalLoss, f64::NAN, "d"),
        anomaly(3.0, AnomalyType::AbnormalDrift, 1.0, "e"),
    ];
    let r = analyze_flight_anomalies("f", &found);
    let order: Vec<&str> = r.anomalies.iter().map(|a| a.description.as_str()).collect();
    assert_eq!(order, vec!["d", "b", "a", "c", "e"]);
    assert_eq!(r.flight_id, "f");
    assert_eq!(r.total_anomalies, 5);
    assert_eq!(r.summary.spikes_count, 1);
    assert_eq!(r.summary.noise_count, 1);
    assert_eq!(r.summary.signal_loss_count, 1);
    assert_eq!(r.summary.drift_count, 1);
    assert_eq!(r.summary.oscillation_count, 1);
    assert_eq!(r.summary.max_severity, d(70.0));
    assert_eq!(r.summary.overall_quality_score, 50);
}

#[test]
fn quality_does_not_fall_below_zero() {
    let many: Vec<Anomaly> =
        (0..21).map(|i| anomaly(i as f64, AnomalyType::Spike, 1.0, "s")).collect();
    assert_eq!(analyze_flight_anomalies("f", &many).summary.overall_quality_score, 0);
    let none = analyze_flight_anomalies("f", &Vec::new());
    assert_eq!(none.summary.overall_quality_score, 100);
    assert_eq!(none.summary.max_severity, d(0.0));
}

#[test]
fn kinds_of_values_have_names() {
    let names: Vec<&str> = ["null", "true", "1", "\"s\"", "[]", "{}"]
        .iter()
        .map(|t| type_str(&json(t)))
        .collect();
    assert_eq!(names, vec!["null", "bool", "number", "string", "array", "object"]);
}

#[test]
fn numbers_are_found_under_any_name() {
    let none: Vec<String> = Vec::new();
    let j = json(r#"{"roll":5,"x":"7.5","y":"no","values":{"z":2,"y":"1e3","w":"inf"}}"#);
    assert_eq!(get_any(&j, FIELD_ROLL, &alternatives(FIELD_ROLL)), Some(whole(5)));
    assert_eq!(get_any(&j, "x", &none), Some(Reading::Text("7.5".to_string())));
    assert_eq!(get_any(&j, "y", &none), Some(Reading::Text("1e3".to_string())));
    assert_eq!(get_any(&j, "z", &none), Some(whole(2)));
    assert_eq!(get_any(&j, "w", &none), Some(Reading::Text("inf".to_string())));
    assert_eq!(get_any(&j, "missing", &strings(&["also", "z", "roll"])), Some(whole(2)));
    assert_eq!(get_any(&j, "missing", &none), None);
    assert_eq!(get_any(&json("[1]"), "x", &none), None);
    let own = json(r#"{"AngleRoll":1,"Roll":2}"#);
    assert_eq!(get_any(&own, FIELD_ROLL, &alternatives(FIELD_ROLL)), Some(whole(1)));
}

#[test]
fn numbers_are_found_whatever_their_case() {
    let n = |i: i64| Some(JsonNumber::Int(i));
    assert_eq!(get_f64_from(&json(r#"{"AngleRoll":1}"#), "AngleRoll"), n(1));
    assert_eq!(get_f64_from(&json(r#"{"values":{"AngleRoll":2}}"#), "AngleRoll"), n(2));
    assert_eq!(get_f64_from(&json(r#"{"values":{"ANGLEroll":3}}"#), "AngleRoll"), n(3));
    assert_eq!(get_f64_from(&json(r#"{"roll":4}"#), "AngleRoll"), n(4));
    assert_eq!(get_f64_from(&json(r#"{"values":{"TARGET_PITCH":5}}"#), FIELD_DES_PITCH), n(5));
    assert_eq!(
        get_f64_from(&json(r#"{"values":{"ANGLEROLL":"x","angleroll":6}}"#), "AngleRoll"),
        n(6)
    );
    assert_eq!(get_f64_from(&json(r#"{"AngleRoll":"1"}"#), "AngleRoll"), None);
    assert_eq!(get_f64_from(&json(r#"{"angleroll":1}"#), "AngleRoll"), None);
    assert_eq!(get_f64_from(&json(r#"{"roll":1}"#), "other"), None);
}

#[test]
fn spans_are_whole_milliseconds() {
    assert_eq!(span_ms(0, 1999), 1);
    assert_eq!(span_ms(1999, 0), -1);
    assert_eq!(span_ms(5, 5), 0);
    assert_eq!(span_ms(i64::MIN, i64::MAX), 18_446_744_073_709_551);
}

#[test]
fn angles_are_read_from_points() {
    let points = vec![
        point(1_000_000, r#"{"AngleRoll":1,"des_roll":2}"#),
        point(1_040_500, r#"{"pitch":3,"values":{"target_pitch":4}}"#),
    ];
    let r = angle_readings(&points);
    assert_eq!(r[0].t_ms, 0);
    assert_eq!((&r[0].roll, &r[0].des_roll), (&Some(whole(1)), &Some(whole(2))));
    assert_eq!((&r[0].pitch, &r[0].des_pitch), (&None, &None));
    assert_eq!(r[1].t_ms, 40);
    assert_eq!((&r[1].pitch, &r[1].des_pitch), (&Some(whole(3)), &Some(whole(4))));
    assert_eq!(metrics_plan(&r), MetricsPlan::Compute);
    assert_eq!(metrics_plan(&angle_readings(&points[..1].to_vec())), MetricsPlan::TooFewPoints);
    let empty = vec![point(0, r#"{"roll":1}"#), point(1, r#"{"des_pitch":1}"#)];
    assert_eq!(metrics_plan(&angle_readings(&empty)), MetricsPlan::NoPairs);
    assert!(angle_readings(&Vec::new()).is_empty());
}

fn sample(t: f64, roll: bool, pitch: bool) -> AngleSample {
    let some = |on: bool| if on { Some(d(1.0)) } else { None };
    AngleSample {
        t_rel: d(t),
        roll: some(roll),
        des_roll: some(roll),
        pitch: some(pitch),
        des_pitch: some(pitch),
    }
}

#[test]
fn stretches_that_take_time_count() {
    let samples = vec![
        sample(0.0, true, true),
        sample(0.1, true, false),
        sample(0.1, false, true),
        sample(0.3, true, true),
    ];
    let s = angle_segments(&samples).unwrap();
    assert_eq!(s.roll, vec![0]);
    assert_eq!(s.pitch, vec![0, 2]);
    assert_eq!(s.used(), 3);
    assert!(angle_segments(&samples[..1].to_vec()).is_none());
    assert!(angle_segments(&vec![sample(1.0, true, true), sample(1.0, true, true)]).is_none());
    assert!(angle_segments(&vec![sample(1.0, true, true), sample(0.5, true, true)]).is_none());
    let s = angle_segments(&vec![
        sample(f64::INFINITY, true, true),
        sample(f64::INFINITY, true, true),
    ])
    .unwrap();
    assert!(s.roll.is_empty());
}

#[test]
fn plotted_fields() {
    let fields = plot_fields();
    assert_eq!(fields.len(), 15);
    assert_eq!(fields[0], "AccX");
    assert_eq!(fields[14], "tau_z");
}

#[test]
fn flights_with_too_few_points_are_refused() {
    assert_eq!(comparison_possible("f", 2), Ok(()));
    assert_eq!(
        comparison_possible("f", 1),
        Err(ApiError::NotFound("Flight f has insufficient data".to_string()))
    );
    assert_eq!(uncertainty_possible("f", 10), Ok(()));
    assert_eq!(
        uncertainty_possible("f", 9),
        Err(ApiError::NotFound("Flight f has insufficient data".to_string()))
    );
    assert_eq!(spectrum_possible("f", 10), Ok(()));
    assert_eq!(
        spectrum_possible("f", 9),
        Err(ApiError::NotFound("Flight f has insufficient data (9 points)".to_string()))
    );
    assert_eq!(fetch_failed(), ApiError::Internal("Failed to fetch flight points".to_string()));
    assert_eq!(metrics::fetch_failed("x"), ApiError::Internal("DB error: x".to_string()));
}

#[test]
fn fields_are_judged_by_their_first_points() {
    let points: Vec<FlightPoint> = (0..600)
        .map(|i| point(i, if i % 2 == 0 { r#"{"roll":1}"# } else { r#"{"roll":"2"}"# }))
        .collect();
    assert_eq!(judged_numbers(&points, "roll").len(), 250);
    assert!(judged_numbers(&points, "Roll").is_empty());
}

fn spreads(list: [(usize, f64); 7]) -> Vec<Spread> {
    list.iter().map(|(count, v)| Spread { count: *count, variance: d(*v) }).collect()
}

#[test]
fn the_filtered_field_varies_least_and_the_raw_one_most() {
    assert_eq!(roll_field_names()[1], "AngleRoll_est");
    let pick = |list: [(usize, f64); 7]| identify_filtrado_vs_crudo(&spreads(list));
    let pair = |raw: &str, filtered: &str| (raw.to_string(), filtered.to_string());
    assert_eq!(
        pick([(0, 0.0); 7]),
        pair("AngleRoll_est", "AngleRoll")
    );
    assert_eq!(
        pick([(11, 3.0), (11, 1.0), (11, 2.0), (10, 0.0), (11, 2.0), (11, 5.0), (11, 2.0)]),
        pair("AngleRoll_raw", "KalmanAngleRoll")
    );
    assert_eq!(
        pick([(0, 0.0), (11, 4.0), (0, 0.0), (0, 0.0), (0, 0.0), (11, 4.0), (11, 9.0)]),
        pair("AngleRoll_raw", "filtered_roll")
    );
    assert_eq!(
        pick([(11, f64::NAN), (11, f64::NAN), (0, 0.0), (0, 0.0), (0, 0.0), (0, 4.0), (0, 9.0)]),
        pair("AngleRoll_est", "AngleRoll")
    );
}

#[test]
fn pauses_between_points() {
    let points = vec![
        point(0, "{}"),
        point(40_000, "{}"),
        point(40_500, "{}"),
        point(2_000_000, "{}"),
        point(1_900_000, "{}"),
        point(2_899_999, "{}"),
    ];
    assert_eq!(usable_intervals(&points), vec![40, 999]);
    assert!(usable_intervals(&Vec::new()).is_empty());
}

#[test]
fn signals_are_taken_from_points() {
    let points = vec![
        point(0, r#"{"phi_ref":1,"roll":2,"MotorInput1":3,"MotorInput4":"4","AccX":5}"#),
        point(1, r#"{"DesiredAngleRoll":6,"roll":7,"values":{"AccX":8}}"#),
        point(2, r#"{"phi_ref":9}"#),
    ];
    assert_eq!(errors_of(&points, "roll"), vec![(whole(1), whole(2)), (whole(6), whole(7))]);
    assert_eq!(motors_of(&points), vec![vec![whole(3), Reading::Text("4".to_string())]]);
    assert_eq!(series_of(&points, "AccX"), vec![whole(5), whole(8)]);
    assert!(series_of(&points, "AccY").is_empty());
}

#[test]
fn vibration_needs_readings() {
    assert!(vibration_measurable(11, 11));
    assert!(!vibration_measurable(10, 11));
    assert!(!vibration_measurable(11, 10));
}

#[test]
fn filtered_angles_are_read_from_points() {
    let points = vec![
        point(0, r#"{"r":1,"k":2,"DesiredAngleRoll":3,"AnglePitch":4,"des_pitch":5}"#),
        point(2_000, r#"{"AnglePitch_est":6,"AnglePitch":7}"#),
    ];
    let with = filtered_readings(&points, "r", "k", true);
    assert_eq!((&with[0].roll, &with[0].kalman_roll), (&Some(whole(1)), &Some(whole(2))));
    assert_eq!((&with[0].des_roll, &with[0].des_pitch), (&Some(whole(3)), &Some(whole(5))));
    assert_eq!((&with[0].pitch, &with[0].kalman_pitch), (&Some(whole(4)), &Some(whole(4))));
    assert_eq!(with[1].t_ms, 2);
    assert_eq!((&with[1].pitch, &with[1].kalman_pitch), (&Some(whole(6)), &Some(whole(7))));
    let without = filtered_readings(&points, "r", "k", false);
    assert_eq!(without[0].pitch, None);
    assert_eq!(without[0].des_roll, Some(whole(3)));
}

#[test]
fn doubles_round_half_away_from_zero() {
    let mut samples = vec![
        0.0, -0.0, 0.1, 0.49999999999999994, 0.5, 0.5000000000000001, 0.75, 1.0, 1.5, 2.5, 2.4999999,
        1234.5, 1e15, 1e300, f64::MAX, f64::MIN_POSITIVE, 5e-324, f64::INFINITY, f64::NAN,
        4503599627370495.5, 4503599627370496.0, 4503599627370497.0, 9007199254740991.0,
        9007199254740993.0, 9.2e18, 9223372036854775807.0, 9223372036854774784.0, 1e19,
    ];
    for e in -60..70 {
        samples.push(2f64.powi(e));
        samples.push(2f64.powi(e) * 1.5);
        samples.push(2f64.powi(e) * 1.999999);
    }
    for x in samples {
        assert_eq!(d(x).round(), x.round() as i64, "{}", x);
        assert_eq!(d(-x).round(), (-x).round() as i64, "{}", -x);
    }
    assert_eq!(d(2.5).round(), 3);
    assert_eq!(d(-2.5).round(), -3);
    assert_eq!(d(1e19).round(), i64::MAX);
    assert_eq!(d(-1e19).round(), i64::MIN);
    assert_eq!(d(f64::NAN).round(), 0);
}

#[test]
fn spans_are_shown() {
    let points = vec![point(0, "{}"), point(5, "{}"), point(1_700_000_000_123_456, "{}")];
    assert_eq!(
        flight_span(&points),
        FlightSpan {
            start: Some("1970-01-01T00:00:00+00:00".to_string()),
            end: Some("2023-11-14T22:13:20.123456+00:00".to_string()),
            span_ms: 1_700_000_000_123,
        }
    );
    assert_eq!(flight_span(&vec![point(i64::MAX, "{}")]).start, None);
    assert_eq!(
        flight_span(&vec![point(253_402_300_799_999_999, "{}")]).end,
        Some("9999-12-31T23:59:59.999999+00:00".to_string())
    );
}

#[test]
fn too_short_a_flight_is_shown_now() {
    let s = no_span_at("t".to_string());
    assert_eq!((s.start, s.end, s.span_ms), (Some("t".to_string()), Some("t".to_string()), 0));
    let s = no_span();
    assert_eq!(s.start, s.end);
    assert!(s.start.unwrap().ends_with("+00:00"));
    assert_eq!(s.span_ms, 0);
}

#[test]
fn the_vibration_is_the_largest_peak_that_meets_another() {
    let far = || doubles(&[3.0, 0.5]);
    let near = || doubles(&[3.0, 0.4]);
    let distances = vec![near(), far(), near()];
    let magnitudes = doubles(&[0.2, 9.0, 0.7]);
    assert_eq!(vibration_amplitude(11, 11, &distances, &magnitudes), d(0.7));
    assert_eq!(vibration_amplitude(10, 11, &distances, &magnitudes), d(0.5));
    assert_eq!(vibration_amplitude(11, 10, &distances, &magnitudes), d(0.5));
    assert_eq!(vibration_amplitude(11, 11, &vec![far()], &doubles(&[9.0])), d(0.1));
    assert_eq!(vibration_amplitude(11, 11, &vec![near()], &doubles(&[0.05])), d(0.1));
    assert_eq!(vibration_amplitude(11, 11, &vec![near()], &doubles(&[f64::NAN])), d(0.1));
    assert_eq!(vibration_amplitude(11, 11, &Vec::new(), &Vec::new()), d(0.1));
}

#[test]
fn what_is_missing_has_a_default() {
    assert_eq!(errors_or_rest(Vec::new()), doubles(&[0.016]));
    assert_eq!(errors_or_rest(doubles(&[2.0, 3.0])), doubles(&[2.0, 3.0]));
    assert_eq!(sensor_noise(0, d(7.0)), d(0.5));
    assert_eq!(sensor_noise(1, d(7.0)), d(7.0));
    assert_eq!(DEFAULT_RATE_BITS, 25f64.to_bits());
    assert_eq!(DOMINANT_PEAKS, 5);
}

#[test]
fn a_flight_is_searched_in_order() {
    let shape = || Search::Shape { multiplier: d(3.0) };
    let noise = |x: f64| Search::Noise { window: 10, threshold: d(x) };
    let found: Vec<(String, Search)> =
        flight_searches().into_iter().map(|(s, what)| (s.axis().to_string(), what)).collect();
    let expected = vec![
        ("roll_error".to_string(), shape()),
        ("pitch_error".to_string(), shape()),
        ("roll_error".to_string(), noise(0.3)),
        ("pitch_error".to_string(), noise(0.3)),
        ("raw_roll".to_string(), noise(0.5)),
        ("raw_pitch".to_string(), noise(0.5)),
    ];
    assert_eq!(found, expected);
}

#[test]
fn severities_end_at_a_hundred() {
    for x in [0.0, 12.5, 100.0, 100.5, -3.0, f64::INFINITY, f64::NAN] {
        assert_eq!(cap_severity(d(x)), d(x.min(100.0)));
        assert_eq!(spike_deviation(d(x)), d(x.max(0.1)));
    }
    assert_eq!(LOSS_STEPS_BITS, 50f64.to_bits());
    assert_eq!(OSCILLATION_WORST_BITS, 10f64.to_bits());
}
