//! Requests about a flight: when its points suffice, which of its fields are
//! filtered and which raw, and which signals are taken from it.

use crate::double;
use crate::double::Double;
use crate::fft;
use crate::http_server::ApiError;
use crate::json::{Json, JsonNumber, JsonView, NumberView};
use crate::lists;
use crate::metrics;
use crate::metrics::{Reading, ReadingView};
use crate::questdb::FlightPoint;
use crate::text;
use vstd::prelude::*;

verus! {

/// So many points of a flight are read at most.
pub const POINTS_LIMIT: i64 = 1_000_000;

/// So many peaks of a spectrum are looked at.
pub const DOMINANT_PEAKS: usize = 5;

/// The bits of 25: the samples in a second where no pause between points says
/// how many there are.
pub const DEFAULT_RATE_BITS: u64 = 0x4039_0000_0000_0000;

/// A comparison needs so many points.
pub const COMPARISON_POINTS: usize = 2;

/// A spectrum, and an uncertainty, needs so many points.
pub const SPECTRUM_POINTS: usize = 10;

/// A field is judged by so many points at most.
pub const JUDGED_POINTS: usize = 500;

/// A field is judged only with more numbers than that.
pub const JUDGED_NUMBERS: usize = 10;

/// What is answered where the points could not be read.
pub fn fetch_failed() -> (r: ApiError)
    ensures
        r.shown() == "Internal server error: "@ + "Failed to fetch flight points"@,
        r is Internal,
{
    ApiError::Internal(String::from_str("Failed to fetch flight points"))
}

/// Refuses a comparison of a flight with too few points.
pub fn comparison_possible(flight_id: &str, points: usize) -> (r: Result<(), ApiError>)
    ensures
        match r {
            Ok(_) => points >= COMPARISON_POINTS,
            Err(ApiError::NotFound(why)) => points < COMPARISON_POINTS && why@ == "Flight "@
                + flight_id@ + " has insufficient data"@,
            Err(_) => false,
        },
{
    if points >= COMPARISON_POINTS {
        return Ok(());
    }
    Err(ApiError::NotFound(insufficient(flight_id)))
}

/// Refuses an uncertainty of a flight with too few points.
pub fn uncertainty_possible(flight_id: &str, points: usize) -> (r: Result<(), ApiError>)
    ensures
        match r {
            Ok(_) => points >= SPECTRUM_POINTS,
            Err(ApiError::NotFound(why)) => points < SPECTRUM_POINTS && why@ == "Flight "@
                + flight_id@ + " has insufficient data"@,
            Err(_) => false,
        },
{
    if points >= SPECTRUM_POINTS {
        return Ok(());
    }
    Err(ApiError::NotFound(insufficient(flight_id)))
}

/// Refuses a spectrum of a flight with too few points.
pub fn spectrum_possible(flight_id: &str, points: usize) -> (r: Result<(), ApiError>)
    ensures
        match r {
            Ok(_) => points >= SPECTRUM_POINTS,
            Err(ApiError::NotFound(why)) => points < SPECTRUM_POINTS && why@ == "Flight "@
                + flight_id@ + " has insufficient data"@ + " ("@ + text::nat_text(points as nat)
                + " points)"@,
            Err(_) => false,
        },
{
    if points >= SPECTRUM_POINTS {
        return Ok(());
    }
    let mut why = insufficient(flight_id);
    why.append(" (");
    why.append(text::nat_to_text(points as u64).as_str());
    why.append(" points)");
    Err(ApiError::NotFound(why))
}

/// That a flight has too few points.
fn insufficient(flight_id: &str) -> (r: String)
    ensures
        r@ == "Flight "@ + flight_id@ + " has insufficient data"@,
{
    let mut r = String::from_str("Flight ");
    r.append(flight_id);
    r.append(" has insufficient data");
    r
}

/// The fields that may hold the roll.
pub open spec fn roll_fields() -> Seq<Seq<char>> {
    seq![
        "AngleRoll"@,
        "AngleRoll_est"@,
        "KalmanAngleRoll"@,
        "roll"@,
        "Roll"@,
        "AngleRoll_raw"@,
        "filtered_roll"@,
    ]
}

/// The fields that may hold the roll.
pub fn roll_field_names() -> (r: Vec<String>)
    ensures
        text::texts(r@) == roll_fields(),
{
    vec![
        String::from_str("AngleRoll"),
        String::from_str("AngleRoll_est"),
        String::from_str("KalmanAngleRoll"),
        String::from_str("roll"),
        String::from_str("Roll"),
        String::from_str("AngleRoll_raw"),
        String::from_str("filtered_roll"),
    ]
}

/// The numbers under `field` in the first `n` points.
pub open spec fn numbers(points: Seq<FlightPoint>, field: Seq<char>, n: nat) -> Seq<NumberView>
    decreases n,
{
    if n == 0 {
        seq![]
    } else {
        let rest = numbers(points, field, (n - 1) as nat);
        match points[n - 1].payload@.get(field) {
            Some(JsonView::Number(v)) => rest.push(v),
            _ => rest,
        }
    }
}

/// The numbers that a list holds.
pub open spec fn shown(list: Seq<JsonNumber>) -> Seq<NumberView> {
    list.map_values(|n: JsonNumber| n@)
}

/// The numbers under `field` by which it is judged: those in the first points.
pub open spec fn judged(points: Seq<FlightPoint>, field: Seq<char>) -> Seq<NumberView> {
    numbers(
        points,
        field,
        if points.len() < JUDGED_POINTS {
            points.len()
        } else {
            JUDGED_POINTS as nat
        },
    )
}

/// The numbers under `field` by which it is judged.
#[verifier::loop_isolation(false)]
pub fn judged_numbers(points: &Vec<FlightPoint>, field: &str) -> (r: Vec<JsonNumber>)
    ensures
        shown(r@) == judged(points@, field@),
{
    let count: usize = if points.len() < JUDGED_POINTS { points.len() } else { JUDGED_POINTS };
    let mut r: Vec<JsonNumber> = Vec::new();
    for i in 0..count
        invariant
            shown(r@) == numbers(points@, field@, i as nat),
    {
        let ghost before = shown(r@);
        match points[i].payload.get(field) {
            Some(Json::Number(n)) => {
                let n = n.clone();
                r.push(n);
                assert(shown(r@) == before.push(n@));
            },
            _ => {},
        }
    }
    r
}

/// What is known of a field: how many numbers it had, and how much they vary.
#[derive(Debug, PartialEq, Eq, Clone, Copy)]
pub struct Spread {
    pub count: usize,
    pub variance: Double,
}

/// A field whose name says that it is raw or estimated.
pub open spec fn is_raw_name(name: Seq<char>) -> bool {
    text::has_part(name, "est"@) || text::has_part(name, "raw"@)
}

/// Field `i` is judged, and is raw or not, as asked.
pub open spec fn is_candidate(spreads: Seq<Spread>, raw: bool, i: int) -> bool {
    spreads[i].count > JUDGED_NUMBERS && is_raw_name(roll_fields()[i]) == raw
}

/// The first, of the first `n` fields that are not raw, that varies least.
pub open spec fn steadiest(spreads: Seq<Spread>, n: nat) -> Option<nat>
    decreases n,
{
    if n == 0 {
        None
    } else {
        let best = steadiest(spreads, (n - 1) as nat);
        if !is_candidate(spreads, false, n - 1) {
            best
        } else {
            match best {
                Some(i) if spreads[i as int].variance.rank() <= spreads[n - 1].variance.rank() => best,
                _ => Some((n - 1) as nat),
            }
        }
    }
}

/// The last, of the first `n` raw fields, that varies most.
pub open spec fn wildest(spreads: Seq<Spread>, n: nat) -> Option<nat>
    decreases n,
{
    if n == 0 {
        None
    } else {
        let best = wildest(spreads, (n - 1) as nat);
        if !is_candidate(spreads, true, n - 1) {
            best
        } else {
            match best {
                Some(i) if spreads[i as int].variance.rank() > spreads[n - 1].variance.rank() => best,
                _ => Some((n - 1) as nat),
            }
        }
    }
}

/// Of two judged fields of one sort, neither varies by what is no number.
pub open spec fn comparable(spreads: Seq<Spread>) -> bool {
    forall|raw: bool, i: int, j: int|
        0 <= i < j < spreads.len() && #[trigger] is_candidate(spreads, raw, i)
            && #[trigger] is_candidate(spreads, raw, j) ==> !spreads[i].variance.nan()
            && !spreads[j].variance.nan()
}

/// The raw field of the roll and the filtered one.
pub open spec fn chosen_fields(spreads: Seq<Spread>) -> (Seq<char>, Seq<char>) {
    (
        match wildest(spreads, roll_fields().len()) {
            Some(i) => roll_fields()[i as int],
            None => "AngleRoll_est"@,
        },
        match steadiest(spreads, roll_fields().len()) {
            Some(i) => roll_fields()[i as int],
            None => "AngleRoll"@,
        },
    )
}

/// Whether the fields can be told apart by how they spread.
#[verifier::loop_isolation(false)]
pub fn are_comparable(spreads: &Vec<Spread>) -> (r: bool)
    requires
        spreads@.len() == roll_fields().len(),
    ensures
        r == comparable(spreads@),
{
    let names = roll_field_names();
    assert(names@.len() == roll_fields().len()) by {
        assert(text::texts(names@).len() == roll_fields().len());
    }
    let mut raw: Vec<bool> = Vec::new();
    for i in 0..names.len()
        invariant
            raw@.len() == i,
            forall|k: int| 0 <= k < i ==> #[trigger] raw@[k] == is_raw_name(roll_fields()[k]),
    {
        let chars = text::chars_of(names[i].as_str());
        assert(chars@ == roll_fields()[i as int]) by {
            assert(text::texts(names@)[i as int] == names@[i as int]@);
        }
        raw.push(text::is_part(&chars, "est") || text::is_part(&chars, "raw"));
    }
    for j in 0..spreads.len()
        invariant
            forall|sort: bool, i: int, k: int|
                0 <= i < k < j && #[trigger] is_candidate(spreads@, sort, i)
                    && #[trigger] is_candidate(spreads@, sort, k) ==> !spreads@[i].variance.nan()
                    && !spreads@[k].variance.nan(),
    {
        for i in 0..j
            invariant
                j < spreads@.len(),
                forall|sort: bool, k: int|
                    0 <= k < i && #[trigger] is_candidate(spreads@, sort, k) && is_candidate(
                        spreads@,
                        sort,
                        j as int,
                    ) ==> !spreads@[k].variance.nan() && !spreads@[j as int].variance.nan(),
        {
            let both = spreads[i].count > JUDGED_NUMBERS && spreads[j].count > JUDGED_NUMBERS;
            if both && raw[i] == raw[j] && (spreads[i].variance.is_nan()
                || spreads[j].variance.is_nan()) {
                assert(is_candidate(spreads@, raw@[i as int], i as int));
                assert(is_candidate(spreads@, raw@[i as int], j as int));
                return false;
            }
        }
    }
    true
}

/// The raw field of the roll and the filtered one, given how each field of
/// [`roll_field_names`] spreads: the raw one varies most, the filtered one least.
#[verifier::loop_isolation(false)]
pub fn identify_filtrado_vs_crudo(spreads: &Vec<Spread>) -> (r: (String, String))
    requires
        spreads@.len() == roll_fields().len(),
        comparable(spreads@),
    ensures
        (r.0@, r.1@) == chosen_fields(spreads@),
{
    let names = roll_field_names();
    assert(names@.len() == roll_fields().len()) by {
        assert(text::texts(names@).len() == roll_fields().len());
    }
    let mut raw: Option<usize> = None;
    let mut filtered: Option<usize> = None;
    for i in 0..names.len()
        invariant
            match raw {
                Some(k) => k < i && wildest(spreads@, i as nat) == Some(k as nat),
                None => wildest(spreads@, i as nat) is None,
            },
            match filtered {
                Some(k) => k < i && steadiest(spreads@, i as nat) == Some(k as nat),
                None => steadiest(spreads@, i as nat) is None,
            },
    {
        let chars = text::chars_of(names[i].as_str());
        assert(chars@ == roll_fields()[i as int]) by {
            assert(text::texts(names@)[i as int] == names@[i as int]@);
        }
        let own = spreads[i];
        if own.count > JUDGED_NUMBERS {
            if text::is_part(&chars, "est") || text::is_part(&chars, "raw") {
                raw = match raw {
                    Some(k) => if spreads[k].variance.place() > own.variance.place() {
                        Some(k)
                    } else {
                        Some(i)
                    },
                    None => Some(i),
                };
            } else {
                filtered = match filtered {
                    Some(k) => if spreads[k].variance.place() <= own.variance.place() {
                        Some(k)
                    } else {
                        Some(i)
                    },
                    None => Some(i),
                };
            }
        }
    }
    assert(forall|k: int| 0 <= k < names@.len() ==> #[trigger] text::texts(names@)[k] == names@[k]@);
    let raw_name = match raw {
        Some(k) => names[k].clone(),
        None => String::from_str("AngleRoll_est"),
    };
    let filtered_name = match filtered {
        Some(k) => names[k].clone(),
        None => String::from_str("AngleRoll"),
    };
    (raw_name, filtered_name)
}

/// The pauses in milliseconds between the first `n + 1` points that are longer
/// than none and shorter than a second.
pub open spec fn usable_pauses(points: Seq<FlightPoint>, n: nat) -> Seq<i64>
    decreases n,
{
    if n == 0 {
        seq![]
    } else {
        let rest = usable_pauses(points, (n - 1) as nat);
        let pause = metrics::millis_between(points[n - 1].ts_micros, points[n as int].ts_micros);
        if 0 < pause < 1000 {
            rest.push(pause as i64)
        } else {
            rest
        }
    }
}

/// The pauses between points from which the rate of sampling is estimated.
#[verifier::loop_isolation(false)]
pub fn usable_intervals(points: &Vec<FlightPoint>) -> (r: Vec<i64>)
    ensures
        points@.len() == 0 ==> r@.len() == 0,
        points@.len() > 0 ==> r@ == usable_pauses(points@, (points@.len() - 1) as nat),
{
    let mut r: Vec<i64> = Vec::new();
    if points.len() == 0 {
        return r;
    }
    for i in 1..points.len()
        invariant
            r@ == usable_pauses(points@, (i - 1) as nat),
    {
        let pause: i64 = metrics::span_ms(points[i - 1].ts_micros, points[i].ts_micros);
        if 0 < pause && pause < 1000 {
            r.push(pause);
        }
    }
    r
}

/// The readings that a list holds.
pub open spec fn readings(list: Seq<Reading>) -> Seq<ReadingView> {
    list.map_values(|r: Reading| r@)
}

/// The readings under one name in the first `n` points that have one.
pub open spec fn series(points: Seq<FlightPoint>, field: Seq<char>, n: nat) -> Seq<ReadingView>
    decreases n,
{
    if n == 0 {
        seq![]
    } else {
        let rest = series(points, field, (n - 1) as nat);
        match metrics::reading_under(points[n - 1].payload@, field) {
            Some(r) => rest.push(r),
            None => rest,
        }
    }
}

/// The readings under one name in the points that have one.
#[verifier::loop_isolation(false)]
pub fn series_of(points: &Vec<FlightPoint>, field: &str) -> (r: Vec<Reading>)
    ensures
        readings(r@) == series(points@, field@, points@.len()),
{
    let none: Vec<String> = Vec::new();
    let mut r: Vec<Reading> = Vec::new();
    for i in 0..points.len()
        invariant
            readings(r@) == series(points@, field@, i as nat),
    {
        let ghost before = readings(r@);
        assert(text::texts(none@).len() == 0);
        match metrics::get_any(&points[i].payload, field, &none) {
            Some(x) => {
                r.push(x);
                assert(readings(r@) == before.push(x@));
            },
            None => {},
        }
    }
    r
}

/// The pairs of readings that a list holds.
pub open spec fn pairs(list: Seq<(Reading, Reading)>) -> Seq<(ReadingView, ReadingView)> {
    list.map_values(|p: (Reading, Reading)| (p.0@, p.1@))
}

/// What the roll should be and what the filter says it is, in the first `n`
/// points that have both.
pub open spec fn errors(points: Seq<FlightPoint>, filtered: Seq<char>, n: nat) -> Seq<
    (ReadingView, ReadingView),
>
    decreases n,
{
    if n == 0 {
        seq![]
    } else {
        let rest = errors(points, filtered, (n - 1) as nat);
        let payload = points[n - 1].payload@;
        match (
            metrics::any_reading(payload, "phi_ref"@, seq!["DesiredAngleRoll"@]),
            metrics::reading_under(payload, filtered),
        ) {
            (Some(want), Some(have)) => rest.push((want, have)),
            _ => rest,
        }
    }
}

/// What the roll should be and what the filter says it is.
#[verifier::loop_isolation(false)]
pub fn errors_of(points: &Vec<FlightPoint>, filtered: &str) -> (r: Vec<(Reading, Reading)>)
    ensures
        pairs(r@) == errors(points@, filtered@, points@.len()),
{
    let none: Vec<String> = Vec::new();
    let desired: Vec<String> = vec![String::from_str("DesiredAngleRoll")];
    assert(text::texts(desired@) == seq!["DesiredAngleRoll"@]);
    let mut r: Vec<(Reading, Reading)> = Vec::new();
    for i in 0..points.len()
        invariant
            pairs(r@) == errors(points@, filtered@, i as nat),
    {
        let ghost before = pairs(r@);
        assert(text::texts(none@).len() == 0);
        let payload = &points[i].payload;
        match (
            metrics::get_any(payload, "phi_ref", &desired),
            metrics::get_any(payload, filtered, &none),
        ) {
            (Some(want), Some(have)) => {
                let ghost pair = (want@, have@);
                r.push((want, have));
                assert(pairs(r@) == before.push(pair));
            },
            _ => {},
        }
    }
    r
}

/// The fields of the motors.
pub open spec fn motor_fields() -> Seq<Seq<char>> {
    seq!["MotorInput1"@, "MotorInput2"@, "MotorInput3"@, "MotorInput4"@]
}

/// The readings of the first `n` motors that a point has.
pub open spec fn motor_readings(payload: JsonView, n: nat) -> Seq<ReadingView>
    decreases n,
{
    if n == 0 {
        seq![]
    } else {
        let rest = motor_readings(payload, (n - 1) as nat);
        match metrics::reading_under(payload, motor_fields()[n - 1]) {
            Some(r) => rest.push(r),
            None => rest,
        }
    }
}

/// The readings of the motors in the first `n` points that have any.
pub open spec fn motors(points: Seq<FlightPoint>, n: nat) -> Seq<Seq<ReadingView>>
    decreases n,
{
    if n == 0 {
        seq![]
    } else {
        let rest = motors(points, (n - 1) as nat);
        let own = motor_readings(points[n - 1].payload@, 4);
        if own.len() == 0 {
            rest
        } else {
            rest.push(own)
        }
    }
}

/// The lists of readings that a list holds.
pub open spec fn groups(list: Seq<Vec<Reading>>) -> Seq<Seq<ReadingView>> {
    list.map_values(|g: Vec<Reading>| readings(g@))
}

/// The readings of the motors that a point has.
#[verifier::loop_isolation(false)]
fn motors_at(payload: &Json) -> (r: Vec<Reading>)
    ensures
        readings(r@) == motor_readings(payload@, 4),
{
    let names: Vec<String> = vec![
        String::from_str("MotorInput1"),
        String::from_str("MotorInput2"),
        String::from_str("MotorInput3"),
        String::from_str("MotorInput4"),
    ];
    assert(text::texts(names@) == motor_fields());
    let none: Vec<String> = Vec::new();
    let mut r: Vec<Reading> = Vec::new();
    for i in 0..names.len()
        invariant
            readings(r@) == motor_readings(payload@, i as nat),
    {
        let ghost before = readings(r@);
        assert(text::texts(none@).len() == 0);
        assert(motor_fields()[i as int] == names@[i as int]@) by {
            assert(text::texts(names@)[i as int] == names@[i as int]@);
        }
        match metrics::get_any(payload, names[i].as_str(), &none) {
            Some(x) => {
                r.push(x);
                assert(readings(r@) == before.push(x@));
            },
            None => {},
        }
    }
    r
}

/// The readings of the motors in the points that have any.
#[verifier::loop_isolation(false)]
pub fn motors_of(points: &Vec<FlightPoint>) -> (r: Vec<Vec<Reading>>)
    ensures
        groups(r@) == motors(points@, points@.len()),
{
    let mut r: Vec<Vec<Reading>> = Vec::new();
    for i in 0..points.len()
        invariant
            groups(r@) == motors(points@, i as nat),
    {
        let ghost before = groups(r@);
        let own = motors_at(&points[i].payload);
        assert(readings(own@).len() == own@.len());
        if own.len() > 0 {
            let ghost held = readings(own@);
            r.push(own);
            assert(groups(r@) == before.push(held));
        }
    }
    r
}

/// Whether the vibration is measured by spectra: there are more than ten
/// readings of the motors and of the error.
pub fn vibration_measurable(motor_readings: usize, error_readings: usize) -> (r: bool)
    ensures
        r == (motor_readings > 10 && error_readings > 10),
{
    motor_readings > 10 && error_readings > 10
}

/// The bits of a half: the amplitude of a vibration that is not measured.
pub const VIBRATION_UNKNOWN_BITS: u64 = 0x3fe0_0000_0000_0000;

/// The bits of a tenth: a vibration that is measured has no less amplitude.
pub const VIBRATION_LEAST_BITS: u64 = 0x3fb9_9999_9999_999a;

/// The largest magnitude of those, of the first `n` peaks of the error, that meet
/// a peak of the motors, and a tenth at least.
pub open spec fn largest_meeting(
    distances: Seq<Vec<Double>>,
    magnitudes: Seq<Double>,
    n: nat,
) -> Double
    decreases n,
{
    if n == 0 {
        Double { bits: VIBRATION_LEAST_BITS }
    } else {
        let rest = largest_meeting(distances, magnitudes, (n - 1) as nat);
        if fft::meets(distances[n - 1]@) {
            double::larger(rest, magnitudes[n - 1])
        } else {
            rest
        }
    }
}

/// The amplitude of the vibration: the largest magnitude of a peak of the error
/// that meets a peak of the motors, given for each peak of the error how far it
/// is from those of the motors. It is a half where there are too few readings.
#[verifier::loop_isolation(false)]
pub fn vibration_amplitude(
    motor_readings: usize,
    error_readings: usize,
    distances: &Vec<Vec<Double>>,
    magnitudes: &Vec<Double>,
) -> (r: Double)
    requires
        distances@.len() == magnitudes@.len(),
    ensures
        r == (if motor_readings > 10 && error_readings > 10 {
            largest_meeting(distances@, magnitudes@, distances@.len())
        } else {
            Double { bits: VIBRATION_UNKNOWN_BITS }
        }),
{
    if !vibration_measurable(motor_readings, error_readings) {
        return Double { bits: VIBRATION_UNKNOWN_BITS };
    }
    let mut r = Double { bits: VIBRATION_LEAST_BITS };
    for i in 0..distances.len()
        invariant
            r == largest_meeting(distances@, magnitudes@, i as nat),
    {
        if fft::is_meeting(&distances[i]) {
            r = double::max_double(r, magnitudes[i]);
        }
    }
    r
}

/// The amplitude is a number; it is a tenth or the magnitude of a peak that
/// meets another; and no tenth and no peak that meets another is larger.
pub proof fn law_vibration(distances: Seq<Vec<Double>>, magnitudes: Seq<Double>, n: nat)
    ensures
        !largest_meeting(distances, magnitudes, n).nan(),
        !largest_meeting(distances, magnitudes, n).lt(Double { bits: VIBRATION_LEAST_BITS }),
        forall|i: int|
            0 <= i < n && fft::meets(distances[i]@) ==> !largest_meeting(
                distances,
                magnitudes,
                n,
            ).lt(#[trigger] magnitudes[i]),
        largest_meeting(distances, magnitudes, n) == (Double { bits: VIBRATION_LEAST_BITS })
            || exists|i: int|
            0 <= i < n && fft::meets(distances[i]@) && largest_meeting(distances, magnitudes, n)
                == #[trigger] magnitudes[i],
    decreases n,
{
    if n > 0 {
        law_vibration(distances, magnitudes, (n - 1) as nat);
        assert(magnitudes[n - 1] == magnitudes[n - 1]);
    }
}

/// The bits of sixteen thousandths: the error of a flight in which none is
/// found, that of a craft at rest.
pub const ERROR_AT_REST_BITS: u64 = 0x3f90_624d_d2f1_a9fc;

/// The errors of a flight, or the one of a craft at rest where none was found.
pub fn errors_or_rest(errors: Vec<Double>) -> (r: Vec<Double>)
    ensures
        r@ == (if errors@.len() == 0 {
            seq![Double { bits: ERROR_AT_REST_BITS }]
        } else {
            errors@
        }),
{
    if errors.len() == 0 {
        vec![Double { bits: ERROR_AT_REST_BITS }]
    } else {
        errors
    }
}

/// The bits of a half: the noise of a sensor without readings.
pub const SENSOR_NOISE_BITS: u64 = 0x3fe0_0000_0000_0000;

/// The noise of the sensor: how much its readings deviate, where there are any.
pub fn sensor_noise(raw_readings: usize, deviation: Double) -> (r: Double)
    ensures
        r == (if raw_readings > 0 {
            deviation
        } else {
            Double { bits: SENSOR_NOISE_BITS }
        }),
{
    if raw_readings > 0 {
        deviation
    } else {
        Double { bits: SENSOR_NOISE_BITS }
    }
}

/// The angles of one point with what the filter says of them: milliseconds
/// since the start of the flight, and the numbers that were found.
#[derive(Debug, PartialEq)]
pub struct FilteredReadings {
    pub t_ms: i64,
    pub roll: Option<Reading>,
    pub des_roll: Option<Reading>,
    pub kalman_roll: Option<Reading>,
    pub pitch: Option<Reading>,
    pub des_pitch: Option<Reading>,
    pub kalman_pitch: Option<Reading>,
}

/// `r` holds the roll of a point, where the flight starts at `start`.
pub open spec fn reads_roll(
    start: i64,
    p: FlightPoint,
    raw: Seq<char>,
    filtered: Seq<char>,
    r: FilteredReadings,
) -> bool {
    &&& r.t_ms == metrics::millis_between(start, p.ts_micros)
    &&& metrics::viewed(r.roll) == metrics::reading_under(p.payload@, raw)
    &&& metrics::viewed(r.kalman_roll) == metrics::reading_under(p.payload@, filtered)
    &&& metrics::viewed(r.des_roll) == metrics::any_reading(
        p.payload@,
        metrics::FIELD_DES_ROLL@,
        metrics::alternative_names(metrics::FIELD_DES_ROLL@),
    )
}

/// `r` holds the pitch of a point, or none, as asked.
pub open spec fn reads_pitch(p: FlightPoint, with_pitch: bool, r: FilteredReadings) -> bool {
    if with_pitch {
        &&& metrics::viewed(r.pitch) == metrics::any_reading(
            p.payload@,
            "AnglePitch_est"@,
            seq!["AnglePitch"@],
        )
        &&& metrics::viewed(r.kalman_pitch) == metrics::reading_under(p.payload@, "AnglePitch"@)
        &&& metrics::viewed(r.des_pitch) == metrics::any_reading(
            p.payload@,
            metrics::FIELD_DES_PITCH@,
            metrics::alternative_names(metrics::FIELD_DES_PITCH@),
        )
    } else {
        r.pitch is None && r.kalman_pitch is None && r.des_pitch is None
    }
}

/// The angles of the points of a flight with what the filter says of them; for
/// a comparison of errors, without the pitch.
#[verifier::loop_isolation(false)]
pub fn filtered_readings(
    points: &Vec<FlightPoint>,
    raw: &str,
    filtered: &str,
    with_pitch: bool,
) -> (r: Vec<FilteredReadings>)
    ensures
        r@.len() == points@.len(),
        forall|i: int|
            0 <= i < r@.len() ==> reads_roll(
                points@[0].ts_micros,
                points@[i],
                raw@,
                filtered@,
                #[trigger] r@[i],
            ) && reads_pitch(points@[i], with_pitch, r@[i]),
{
    let mut r: Vec<FilteredReadings> = Vec::new();
    if points.len() == 0 {
        return r;
    }
    let start: i64 = points[0].ts_micros;
    let none: Vec<String> = Vec::new();
    let own_pitch: Vec<String> = vec![String::from_str("AnglePitch")];
    assert(text::texts(own_pitch@) == seq!["AnglePitch"@]);
    let des_roll_names = metrics::alternatives(metrics::FIELD_DES_ROLL);
    let des_pitch_names = metrics::alternatives(metrics::FIELD_DES_PITCH);
    for i in 0..points.len()
        invariant
            r@.len() == i,
            forall|k: int|
                0 <= k < i ==> reads_roll(
                    start,
                    points@[k],
                    raw@,
                    filtered@,
                    #[trigger] r@[k],
                ) && reads_pitch(points@[k], with_pitch, r@[k]),
    {
        assert(text::texts(none@).len() == 0);
        let obj = &points[i].payload;
        let t_ms: i64 = metrics::span_ms(start, points[i].ts_micros);
        let roll = metrics::get_any(obj, raw, &none);
        let kalman_roll = metrics::get_any(obj, filtered, &none);
        let des_roll = metrics::get_any(obj, metrics::FIELD_DES_ROLL, &des_roll_names);
        if with_pitch {
            let pitch = metrics::get_any(obj, "AnglePitch_est", &own_pitch);
            let kalman_pitch = metrics::get_any(obj, "AnglePitch", &none);
            let des_pitch = metrics::get_any(obj, metrics::FIELD_DES_PITCH, &des_pitch_names);
            r.push(
                FilteredReadings { t_ms, roll, des_roll, kalman_roll, pitch, des_pitch, kalman_pitch },
            );
        } else {
            r.push(
                FilteredReadings {
                    t_ms,
                    roll,
                    des_roll,
                    kalman_roll,
                    pitch: None,
                    des_pitch: None,
                    kalman_pitch: None,
                },
            );
        }
    }
    r
}

/// The field that is chosen as filtered varies no more than any judged field
/// that is not raw.
pub proof fn law_filtered_is_steadiest(spreads: Seq<Spread>, n: nat, i: int)
    requires
        0 <= i < n <= spreads.len(),
        is_candidate(spreads, false, i),
    ensures
        steadiest(spreads, n) is Some,
        steadiest(spreads, n)->0 < n,
        is_candidate(spreads, false, steadiest(spreads, n)->0 as int),
        spreads[steadiest(spreads, n)->0 as int].variance.rank() <= spreads[i].variance.rank(),
    decreases n,
{
    if i < n - 1 {
        law_filtered_is_steadiest(spreads, (n - 1) as nat, i);
    } else if steadiest(spreads, (n - 1) as nat) is Some {
        lemma_steadiest_is_candidate(spreads, (n - 1) as nat);
    }
}

proof fn lemma_steadiest_is_candidate(spreads: Seq<Spread>, n: nat)
    ensures
        steadiest(spreads, n) matches Some(i) ==> i < n && is_candidate(spreads, false, i as int),
    decreases n,
{
    if n > 0 {
        lemma_steadiest_is_candidate(spreads, (n - 1) as nat);
    }
}

/// The field that is chosen as raw varies no less than any judged raw field.
pub proof fn law_raw_is_wildest(spreads: Seq<Spread>, n: nat, i: int)
    requires
        0 <= i < n <= spreads.len(),
        is_candidate(spreads, true, i),
    ensures
        wildest(spreads, n) is Some,
        wildest(spreads, n)->0 < n,
        is_candidate(spreads, true, wildest(spreads, n)->0 as int),
        spreads[wildest(spreads, n)->0 as int].variance.rank() >= spreads[i].variance.rank(),
    decreases n,
{
    if i < n - 1 {
        law_raw_is_wildest(spreads, (n - 1) as nat, i);
    } else if wildest(spreads, (n - 1) as nat) is Some {
        lemma_wildest_is_candidate(spreads, (n - 1) as nat);
    }
}

proof fn lemma_wildest_is_candidate(spreads: Seq<Spread>, n: nat)
    ensures
        wildest(spreads, n) matches Some(i) ==> i < n && is_candidate(spreads, true, i as int),
    decreases n,
{
    if n > 0 {
        lemma_wildest_is_candidate(spreads, (n - 1) as nat);
    }
}


/// The pauses from which the rate of sampling is estimated are longer than none
/// and shorter than a second.
pub proof fn law_usable_pauses(points: Seq<FlightPoint>, n: nat, k: int)
    requires
        0 <= k < usable_pauses(points, n).len(),
    ensures
        0 < usable_pauses(points, n)[k] < 1000,
    decreases n,
{
    if n > 0 {
        let rest = usable_pauses(points, (n - 1) as nat);
        if k < rest.len() {
            law_usable_pauses(points, (n - 1) as nat, k);
        }
    }
}


/// How the fields of the roll spread in `points`, where `variance` says how much
/// numbers vary.
pub open spec fn spreads_of(
    points: Seq<FlightPoint>,
    variance: spec_fn(Seq<NumberView>) -> Double,
) -> Seq<Spread> {
    Seq::new(
        roll_fields().len(),
        |i: int|
            Spread {
                count: judged(points, roll_fields()[i]).len() as usize,
                variance: variance(judged(points, roll_fields()[i])),
            },
    )
}

/// Which fields of the roll are chosen depends on the first five hundred points
/// alone, whatever way to measure how numbers vary.
pub proof fn law_first_points_decide(
    points: Seq<FlightPoint>,
    variance: spec_fn(Seq<NumberView>) -> Double,
)
    ensures
        ({
            let count: int = if points.len() < JUDGED_POINTS {
                points.len() as int
            } else {
                JUDGED_POINTS as int
            };
            chosen_fields(spreads_of(points.take(count), variance)) == chosen_fields(
                spreads_of(points, variance),
            )
        }),
{
    let count: int = if points.len() < JUDGED_POINTS {
        points.len() as int
    } else {
        JUDGED_POINTS as int
    };
    assert forall|i: int| 0 <= i < roll_fields().len() implies judged(
        points.take(count),
        #[trigger] roll_fields()[i],
    ) == judged(points, roll_fields()[i]) by {
        lemma_numbers_of_prefix(points, roll_fields()[i], count, count as nat);
    }
    assert(spreads_of(points.take(count), variance) =~= spreads_of(points, variance));
}

/// Up to `n`, the points before `count` are all that is read.
proof fn lemma_numbers_of_prefix(
    points: Seq<FlightPoint>,
    field: Seq<char>,
    count: int,
    n: nat,
)
    requires
        n <= count <= points.len(),
    ensures
        numbers(points.take(count), field, n) == numbers(points, field, n),
    decreases n,
{
    if n > 0 {
        lemma_numbers_of_prefix(points, field, count, (n - 1) as nat);
        assert(points.take(count)[n - 1] == points[n - 1]);
    }
}

/// Ten points or fewer, also none, give the fields that are chosen by default,
/// whatever they hold.
pub proof fn law_few_points_choose_defaults(
    points: Seq<FlightPoint>,
    variance: spec_fn(Seq<NumberView>) -> Double,
)
    requires
        points.len() <= JUDGED_NUMBERS,
    ensures
        chosen_fields(spreads_of(points, variance)) == ("AngleRoll_est"@, "AngleRoll"@),
        comparable(spreads_of(points, variance)),
{
    let spreads = spreads_of(points, variance);
    assert forall|i: int| 0 <= i < roll_fields().len() implies (#[trigger] spreads[i]).count
        <= JUDGED_NUMBERS by {
        lemma_numbers_bound(points, roll_fields()[i], points.len());
    }
    lemma_none_judged(spreads, roll_fields().len());
}

proof fn lemma_numbers_bound(points: Seq<FlightPoint>, field: Seq<char>, n: nat)
    ensures
        numbers(points, field, n).len() <= n,
    decreases n,
{
    if n > 0 {
        lemma_numbers_bound(points, field, (n - 1) as nat);
    }
}

proof fn lemma_none_judged(spreads: Seq<Spread>, n: nat)
    requires
        n <= spreads.len(),
        forall|i: int| 0 <= i < spreads.len() ==> (#[trigger] spreads[i]).count <= JUDGED_NUMBERS,
    ensures
        wildest(spreads, n) is None,
        steadiest(spreads, n) is None,
    decreases n,
{
    if n > 0 {
        lemma_none_judged(spreads, (n - 1) as nat);
        assert(spreads[n - 1].count <= JUDGED_NUMBERS);
    }
}

/// The number under `field` in point `i`, whole or not.
pub open spec fn number_in(points: Seq<FlightPoint>, field: Seq<char>) -> spec_fn(int) -> Option<NumberView> {
    |i: int|
        match points[i].payload@.get(field) {
            Some(JsonView::Number(v)) => Some(v),
            _ => None,
        }
}

/// The numbers of a field are those that the points hold under it, all of them, in
/// order.
pub proof fn law_numbers(points: Seq<FlightPoint>, field: Seq<char>, n: nat)
    ensures
        lists::gathers(number_in(points, field), 0, n as int, numbers(points, field, n)),
    decreases n,
{
    let f = number_in(points, field);
    if n == 0 {
        lists::lemma_gathers_nothing(f, 0, 0);
    } else {
        law_numbers(points, field, (n - 1) as nat);
        lists::lemma_gathers_next(f, 0, n - 1, numbers(points, field, (n - 1) as nat));
    }
}

/// A field is judged by the numbers under it in the first five hundred points.
pub proof fn law_judged(points: Seq<FlightPoint>, field: Seq<char>)
    ensures
        lists::gathers(
            number_in(points, field),
            0,
            if points.len() < 500 {
                points.len() as int
            } else {
                500
            },
            judged(points, field),
        ),
{
    law_numbers(
        points,
        field,
        if points.len() < 500 {
            points.len()
        } else {
            500
        },
    );
}

/// The reading under `field` in point `i`.
pub open spec fn reading_in(points: Seq<FlightPoint>, field: Seq<char>) -> spec_fn(int) -> Option<ReadingView> {
    |i: int|
        metrics::reading_under(points[i].payload@, field)
}

/// A signal is the readings that the points have under its name, all of them, in
/// order.
pub proof fn law_series(points: Seq<FlightPoint>, field: Seq<char>, n: nat)
    ensures
        lists::gathers(reading_in(points, field), 0, n as int, series(points, field, n)),
    decreases n,
{
    let f = reading_in(points, field);
    if n == 0 {
        lists::lemma_gathers_nothing(f, 0, 0);
    } else {
        law_series(points, field, (n - 1) as nat);
        lists::lemma_gathers_next(f, 0, n - 1, series(points, field, (n - 1) as nat));
    }
}

/// What the roll should be in point `i`, and what the filter says it is.
pub open spec fn error_in(points: Seq<FlightPoint>, filtered: Seq<char>) -> spec_fn(int) -> Option<(ReadingView, ReadingView)> {
    |i: int|
        match (
            metrics::first_reading(points[i].payload@, seq!["phi_ref"@, "DesiredAngleRoll"@]),
            metrics::reading_under(points[i].payload@, filtered),
        ) {
            (Some(want), Some(have)) => Some((want, have)),
            _ => None,
        }
}

/// The errors are taken from every point that has both what the roll should be and
/// what the filter says, in order.
pub proof fn law_errors(points: Seq<FlightPoint>, filtered: Seq<char>, n: nat)
    ensures
        lists::gathers(error_in(points, filtered), 0, n as int, errors(points, filtered, n)),
    decreases n,
{
    let f = error_in(points, filtered);
    if n == 0 {
        lists::lemma_gathers_nothing(f, 0, 0);
    } else {
        law_errors(points, filtered, (n - 1) as nat);
        metrics::law_any_reading(
            points[n - 1].payload@,
            "phi_ref"@,
            seq!["DesiredAngleRoll"@],
        );
        assert(seq!["phi_ref"@] + seq!["DesiredAngleRoll"@] == seq![
            "phi_ref"@,
            "DesiredAngleRoll"@,
        ]);
        lists::lemma_gathers_next(f, 0, n - 1, errors(points, filtered, (n - 1) as nat));
    }
}

/// The reading of motor `i`, of four.
pub open spec fn motor_in(payload: JsonView) -> spec_fn(int) -> Option<ReadingView> {
    |i: int|
        metrics::reading_under(
            payload,
            if i == 0 {
                "MotorInput1"@
            } else if i == 1 {
                "MotorInput2"@
            } else if i == 2 {
                "MotorInput3"@
            } else {
                "MotorInput4"@
            },
        )
}

/// The motors of a point are those of the four that have a reading, in order.
pub proof fn law_motor_readings(payload: JsonView)
    ensures
        lists::gathers(motor_in(payload), 0, 4, motor_readings(payload, 4)),
{
    let f = motor_in(payload);
    lists::lemma_gathers_nothing(f, 0, 0);
    assert(motor_readings(payload, 0) == Seq::<ReadingView>::empty());
    lists::lemma_gathers_next(f, 0, 0, motor_readings(payload, 0));
    assert(lists::gathers(f, 0, 1, motor_readings(payload, 1)));
    lists::lemma_gathers_next(f, 0, 1, motor_readings(payload, 1));
    assert(lists::gathers(f, 0, 2, motor_readings(payload, 2)));
    lists::lemma_gathers_next(f, 0, 2, motor_readings(payload, 2));
    assert(lists::gathers(f, 0, 3, motor_readings(payload, 3)));
    lists::lemma_gathers_next(f, 0, 3, motor_readings(payload, 3));
}

/// The readings of the motors in point `i`, where it has any.
pub open spec fn motors_in(points: Seq<FlightPoint>) -> spec_fn(int) -> Option<Seq<ReadingView>> {
    |i: int|
        if motor_readings(points[i].payload@, 4).len() == 0 {
            None
        } else {
            Some(motor_readings(points[i].payload@, 4))
        }
}

/// The motors are taken from every point that has a reading of one, in order.
pub proof fn law_motors(points: Seq<FlightPoint>, n: nat)
    ensures
        lists::gathers(motors_in(points), 0, n as int, motors(points, n)),
    decreases n,
{
    let f = motors_in(points);
    if n == 0 {
        lists::lemma_gathers_nothing(f, 0, 0);
    } else {
        law_motors(points, (n - 1) as nat);
        lists::lemma_gathers_next(f, 0, n - 1, motors(points, (n - 1) as nat));
    }
}

/// The pause after point `i`, where it is longer than none and shorter than a
/// second.
pub open spec fn pause_after(points: Seq<FlightPoint>) -> spec_fn(int) -> Option<i64> {
    |i: int|
        if 0 < metrics::millis_between(points[i].ts_micros, points[i + 1].ts_micros) < 1000 {
            Some(metrics::millis_between(points[i].ts_micros, points[i + 1].ts_micros) as i64)
        } else {
            None
        }
}

/// The rate of sampling is estimated from every pause between neighbours that is
/// longer than none and shorter than a second, in order.
pub proof fn law_pauses(points: Seq<FlightPoint>, n: nat)
    ensures
        lists::gathers(pause_after(points), 0, n as int, usable_pauses(points, n)),
    decreases n,
{
    let f = pause_after(points);
    if n == 0 {
        lists::lemma_gathers_nothing(f, 0, 0);
    } else {
        law_pauses(points, (n - 1) as nat);
        lists::lemma_gathers_next(f, 0, n - 1, usable_pauses(points, (n - 1) as nat));
    }
}

/// Which fields of the roll may be chosen as raw and which as filtered: those
/// with more than ten numbers, the first where their name says that they are
/// estimated or raw, and the second where it does not.
pub proof fn law_candidates(spreads: Seq<Spread>, i: int)
    requires
        0 <= i < 7,
    ensures
        is_candidate(spreads, true, i) <==> spreads[i].count > 10 && (i == 1 || i == 5),
        is_candidate(spreads, false, i) <==> spreads[i].count > 10 && i != 1 && i != 5,
        roll_fields()[0] == "AngleRoll"@,
        roll_fields()[1] == "AngleRoll_est"@,
        roll_fields()[2] == "KalmanAngleRoll"@,
        roll_fields()[3] == "roll"@,
        roll_fields()[4] == "Roll"@,
        roll_fields()[5] == "AngleRoll_raw"@,
        roll_fields()[6] == "filtered_roll"@,
{
    reveal_strlit("est");
    reveal_strlit("raw");
    reveal_strlit("AngleRoll");
    reveal_strlit("AngleRoll_est");
    reveal_strlit("KalmanAngleRoll");
    reveal_strlit("roll");
    reveal_strlit("Roll");
    reveal_strlit("AngleRoll_raw");
    reveal_strlit("filtered_roll");
    lemma_no_raw_name("AngleRoll"@);
    lemma_no_raw_name("KalmanAngleRoll"@);
    lemma_no_raw_name("roll"@);
    lemma_no_raw_name("Roll"@);
    lemma_no_raw_name("filtered_roll"@);
    assert("AngleRoll_est"@ == "AngleRoll"@ + seq!['_'] + "est"@ + Seq::<char>::empty());
    assert("AngleRoll_raw"@ == "AngleRoll"@ + seq!['_'] + "raw"@ + Seq::<char>::empty());
    text::law_parts("AngleRoll"@ + seq!['_'], "est"@, Seq::<char>::empty());
    text::law_parts("AngleRoll"@ + seq!['_'], "raw"@, Seq::<char>::empty());
}

/// A name without an `s` that stands before a `t`, and without a `w`, is not that
/// of a raw field.
proof fn lemma_no_raw_name(name: Seq<char>)
    requires
        forall|k: int| 0 <= k < name.len() ==> #[trigger] name[k] != 's' && name[k] != 'w',
    ensures
        !is_raw_name(name),
{
    reveal_strlit("est");
    reveal_strlit("raw");
    if text::has_part(name, "est"@) {
        let i = choose|i: int| 0 <= i <= name.len() && text::starts_with(#[trigger] name.skip(i), "est"@);
        assert(name.skip(i).take(3)[1] == 's');
        assert(name[i + 1] == 's');
    }
    if text::has_part(name, "raw"@) {
        let i = choose|i: int| 0 <= i <= name.len() && text::starts_with(#[trigger] name.skip(i), "raw"@);
        assert(name.skip(i).take(3)[2] == 'w');
        assert(name[i + 2] == 'w');
    }
}

/// Of fields that vary as little, the first is filtered; of fields that vary as
/// much, the last is raw.
pub proof fn law_ties(spreads: Seq<Spread>, n: nat)
    ensures
        steadiest(spreads, n) matches Some(i) ==> i < n && is_candidate(spreads, false, i as int)
            && forall|j: int|
            0 <= j < i && #[trigger] is_candidate(spreads, false, j)
                ==> spreads[i as int].variance.rank() < spreads[j].variance.rank(),
        wildest(spreads, n) matches Some(i) ==> i < n && is_candidate(spreads, true, i as int)
            && forall|j: int|
            i < j < n && #[trigger] is_candidate(spreads, true, j)
                ==> spreads[j].variance.rank() < spreads[i as int].variance.rank(),
    decreases n,
{
    if n > 0 {
        law_ties(spreads, (n - 1) as nat);
        if steadiest(spreads, n) == Some((n - 1) as nat) {
            assert forall|j: int| 0 <= j < n - 1 && #[trigger] is_candidate(spreads, false, j) implies spreads[n
                - 1].variance.rank() < spreads[j].variance.rank() by {
                lemma_steadiest_bound(spreads, (n - 1) as nat, j);
            }
        }
    }
}

proof fn lemma_steadiest_bound(spreads: Seq<Spread>, n: nat, i: int)
    requires
        0 <= i < n,
        is_candidate(spreads, false, i),
    ensures
        steadiest(spreads, n) is Some,
        spreads[steadiest(spreads, n)->0 as int].variance.rank() <= spreads[i].variance.rank(),
    decreases n,
{
    if i < n - 1 {
        lemma_steadiest_bound(spreads, (n - 1) as nat, i);
    }
}

/// Field `i` of the roll has more than ten numbers, and its name says neither
/// that it is estimated nor that it is raw.
pub open spec fn may_be_filtered(spreads: Seq<Spread>, i: int) -> bool {
    spreads[i].count > 10 && i != 1 && i != 5
}

/// Field `i` of the roll has more than ten numbers, and its name says that it is
/// estimated or raw.
pub open spec fn may_be_raw(spreads: Seq<Spread>, i: int) -> bool {
    spreads[i].count > 10 && (i == 1 || i == 5)
}

/// The fields that are chosen: of those that may be filtered the one that varies
/// least, the first of them, and of those that may be raw the one that varies
/// most, the last of them; where there is none, the defaults.
pub proof fn law_chosen_fields(spreads: Seq<Spread>)
    requires
        spreads.len() == 7,
    ensures
        ({
            &&& (forall|i: int| 0 <= i < 7 ==> !#[trigger] may_be_filtered(spreads, i)) ==> chosen_fields(spreads).1
                == "AngleRoll"@
            &&& (forall|i: int| 0 <= i < 7 ==> !#[trigger] may_be_raw(spreads, i)) ==> chosen_fields(spreads).0
                == "AngleRoll_est"@
            &&& forall|i: int|
                0 <= i < 7 && #[trigger] may_be_filtered(spreads, i) && (forall|j: int|
                    0 <= j < 7 && #[trigger] may_be_filtered(spreads, j) && j != i ==> if j < i {
                        spreads[i].variance.rank() < spreads[j].variance.rank()
                    } else {
                        spreads[i].variance.rank() <= spreads[j].variance.rank()
                    }) ==> chosen_fields(spreads).1 == roll_fields()[i]
            &&& forall|i: int|
                0 <= i < 7 && #[trigger] may_be_raw(spreads, i) && (forall|j: int|
                    0 <= j < 7 && #[trigger] may_be_raw(spreads, j) && j != i ==> if j > i {
                        spreads[j].variance.rank() < spreads[i].variance.rank()
                    } else {
                        spreads[j].variance.rank() <= spreads[i].variance.rank()
                    }) ==> chosen_fields(spreads).0 == roll_fields()[i]
        }),
{
    assert forall|i: int| 0 <= i < 7 implies is_candidate(spreads, false, i) == #[trigger] may_be_filtered(spreads, i) by {
        law_candidates(spreads, i);
    }
    assert forall|i: int| 0 <= i < 7 implies is_candidate(spreads, true, i) == #[trigger] may_be_raw(spreads, i) by {
        law_candidates(spreads, i);
    }
    law_candidates(spreads, 0);
    law_ties(spreads, 7);
    assert(roll_fields().len() == 7);
    match steadiest(spreads, 7) {
        Some(k) => {
            assert(may_be_filtered(spreads, k as int));
            assert forall|i: int| 0 <= i < 7 && #[trigger] may_be_filtered(spreads, i) implies spreads[k as int].variance.rank()
                <= spreads[i].variance.rank() by {
                lemma_steadiest_bound(spreads, 7, i);
            }
        },
        None => {
            assert forall|i: int| 0 <= i < 7 implies !#[trigger] may_be_filtered(spreads, i) by {
                if may_be_filtered(spreads, i) {
                    lemma_steadiest_bound(spreads, 7, i);
                }
            }
        },
    }
    match wildest(spreads, 7) {
        Some(k) => {
            assert(may_be_raw(spreads, k as int));
            assert forall|i: int| 0 <= i < 7 && #[trigger] may_be_raw(spreads, i) implies spreads[i].variance.rank()
                <= spreads[k as int].variance.rank() by {
                law_raw_is_wildest(spreads, 7, i);
            }
        },
        None => {
            assert forall|i: int| 0 <= i < 7 implies !#[trigger] may_be_raw(spreads, i) by {
                if may_be_raw(spreads, i) {
                    law_raw_is_wildest(spreads, 7, i);
                }
            }
        },
    }
}

/// The roll of a point is found under the raw field, what the filter says of it
/// under the filtered one, and what it should be under its own name or else its
/// other ones.
pub proof fn law_filtered_roll(
    start: i64,
    p: FlightPoint,
    raw: Seq<char>,
    filtered: Seq<char>,
    r: FilteredReadings,
)
    requires
        reads_roll(start, p, raw, filtered, r),
    ensures
        start <= p.ts_micros ==> 1000 * r.t_ms <= p.ts_micros - start < 1000 * (r.t_ms + 1),
        metrics::viewed(r.roll) == metrics::reading_under(p.payload@, raw),
        metrics::viewed(r.kalman_roll) == metrics::reading_under(p.payload@, filtered),
        metrics::viewed(r.des_roll) == metrics::first_reading(
            p.payload@,
            seq!["DesiredAngleRoll"@, "des_roll"@, "roll_setpoint"@, "target_roll"@],
        ),
{
    metrics::law_alternative_names("AngleRoll"@);
    metrics::lemma_all_names(
        p.payload@,
        "DesiredAngleRoll"@,
        "des_roll"@,
        "roll_setpoint"@,
        "target_roll"@,
    );
}

/// The pitch of a point, where it is asked for, is the estimated one or else its
/// own, the filter says what stands under its own name, and what it should be is
/// found under its name or else its other ones; where it is not asked for, there
/// is none.
pub proof fn law_filtered_pitch(p: FlightPoint, with_pitch: bool, r: FilteredReadings)
    requires
        reads_pitch(p, with_pitch, r),
    ensures
        with_pitch ==> metrics::viewed(r.pitch) == metrics::first_reading(
            p.payload@,
            seq!["AnglePitch_est"@, "AnglePitch"@],
        ),
        with_pitch ==> metrics::viewed(r.kalman_pitch) == metrics::reading_under(
            p.payload@,
            "AnglePitch"@,
        ),
        with_pitch ==> metrics::viewed(r.des_pitch) == metrics::first_reading(
            p.payload@,
            seq!["DesiredAnglePitch"@, "des_pitch"@, "pitch_setpoint"@, "target_pitch"@],
        ),
        !with_pitch ==> r.pitch is None && r.kalman_pitch is None && r.des_pitch is None,
{
    metrics::law_alternative_names("AngleRoll"@);
    metrics::lemma_all_names(
        p.payload@,
        "DesiredAnglePitch"@,
        "des_pitch"@,
        "pitch_setpoint"@,
        "target_pitch"@,
    );
    metrics::law_any_reading(p.payload@, "AnglePitch_est"@, seq!["AnglePitch"@]);
    assert(seq!["AnglePitch_est"@] + seq!["AnglePitch"@] == seq!["AnglePitch_est"@, "AnglePitch"@]);
}

/// Fields can be told apart exactly where, of two that may both be filtered or
/// both be raw, neither varies by what is no number.
pub proof fn law_comparable(spreads: Seq<Spread>)
    requires
        spreads.len() == 7,
    ensures
        comparable(spreads) <==> forall|i: int, j: int|
            0 <= i < j < 7 && ((#[trigger] may_be_filtered(spreads, i)
                && #[trigger] may_be_filtered(spreads, j)) || (may_be_raw(spreads, i) && may_be_raw(
                spreads,
                j,
            ))) ==> !spreads[i].variance.nan() && !spreads[j].variance.nan(),
{
    assert forall|i: int| 0 <= i < 7 implies is_candidate(spreads, false, i)
        == #[trigger] may_be_filtered(spreads, i) by {
        law_candidates(spreads, i);
    }
    assert forall|i: int| 0 <= i < 7 implies is_candidate(spreads, true, i) == #[trigger] may_be_raw(
        spreads,
        i,
    ) by {
        law_candidates(spreads, i);
    }
    if comparable(spreads) {
        assert forall|i: int, j: int|
            0 <= i < j < 7 && ((#[trigger] may_be_filtered(spreads, i)
                && #[trigger] may_be_filtered(spreads, j)) || (may_be_raw(spreads, i) && may_be_raw(
                spreads,
                j,
            ))) implies !spreads[i].variance.nan() && !spreads[j].variance.nan() by {
            if may_be_filtered(spreads, i) && may_be_filtered(spreads, j) {
                assert(is_candidate(spreads, false, i) && is_candidate(spreads, false, j));
            } else {
                assert(is_candidate(spreads, true, i) && is_candidate(spreads, true, j));
            }
        }
    } else {
        let (raw, i, j) = choose|raw: bool, i: int, j: int|
            0 <= i < j < spreads.len() && #[trigger] is_candidate(spreads, raw, i)
                && #[trigger] is_candidate(spreads, raw, j) && !(!spreads[i].variance.nan()
                && !spreads[j].variance.nan());
        law_candidates(spreads, i);
        law_candidates(spreads, j);
        if raw {
            assert(may_be_raw(spreads, i) && may_be_raw(spreads, j));
            assert(!may_be_filtered(spreads, i) && !may_be_filtered(spreads, j));
        } else {
            assert(may_be_filtered(spreads, i) && may_be_filtered(spreads, j));
        }
    }
}

}
