//! Numbers in the points of a flight, and how its angles are measured against
//! what was desired.

use crate::clock;
use crate::double::Double;
use crate::http_server::ApiError;
use crate::json;
use crate::json::{Json, JsonNumber, JsonView, NumberView};
use crate::lists;
use crate::questdb::FlightPoint;
use crate::text;
use vstd::prelude::*;

verus! {

pub const FIELD_ROLL: &'static str = "AngleRoll";

pub const FIELD_PITCH: &'static str = "AnglePitch";

pub const FIELD_DES_ROLL: &'static str = "DesiredAngleRoll";

pub const FIELD_DES_PITCH: &'static str = "DesiredAnglePitch";

/// The other names under which a field is found.
pub open spec fn alternative_names(name: Seq<char>) -> Seq<Seq<char>> {
    if name == FIELD_ROLL@ {
        seq!["AngleRoll_est"@, "roll"@, "Roll"@]
    } else if name == FIELD_PITCH@ {
        seq!["AnglePitch_est"@, "pitch"@, "Pitch"@]
    } else if name == FIELD_DES_ROLL@ {
        seq!["des_roll"@, "roll_setpoint"@, "target_roll"@]
    } else if name == FIELD_DES_PITCH@ {
        seq!["des_pitch"@, "pitch_setpoint"@, "target_pitch"@]
    } else {
        seq![]
    }
}

/// The other names under which a field is found.
pub fn alternatives(name: &str) -> (r: Vec<String>)
    ensures
        text::texts(r@) == alternative_names(name@),
{
    proof {
        assert(text::texts(Seq::<String>::empty()) =~= Seq::<Seq<char>>::empty());
    }
    if text::same(name, FIELD_ROLL) {
        vec![
            String::from_str("AngleRoll_est"),
            String::from_str("roll"),
            String::from_str("Roll"),
        ]
    } else if text::same(name, FIELD_PITCH) {
        vec![
            String::from_str("AnglePitch_est"),
            String::from_str("pitch"),
            String::from_str("Pitch"),
        ]
    } else if text::same(name, FIELD_DES_ROLL) {
        vec![
            String::from_str("des_roll"),
            String::from_str("roll_setpoint"),
            String::from_str("target_roll"),
        ]
    } else if text::same(name, FIELD_DES_PITCH) {
        vec![
            String::from_str("des_pitch"),
            String::from_str("pitch_setpoint"),
            String::from_str("target_pitch"),
        ]
    } else {
        Vec::new()
    }
}

/// The fields that are plotted beside the angles.
pub open spec fn plotted() -> Seq<Seq<char>> {
    seq!["AccX"@, "AccY"@, "AccZ"@, "DesiredAnglePitch"@, "DesiredAngleRoll"@, "DesiredRateYaw"@, "g1"@, "g2"@, "k1"@, "k2"@, "m1"@, "m2"@, "tau_x"@, "tau_y"@, "tau_z"@]
}

/// The fields that are plotted beside the angles.
pub fn plot_fields() -> (r: Vec<String>)
    ensures
        text::texts(r@) == plotted(),
{
    vec![
        String::from_str("AccX"),
        String::from_str("AccY"),
        String::from_str("AccZ"),
        String::from_str("DesiredAnglePitch"),
        String::from_str("DesiredAngleRoll"),
        String::from_str("DesiredRateYaw"),
        String::from_str("g1"),
        String::from_str("g2"),
        String::from_str("k1"),
        String::from_str("k2"),
        String::from_str("m1"),
        String::from_str("m2"),
        String::from_str("tau_x"),
        String::from_str("tau_y"),
        String::from_str("tau_z"),
    ]
}

/// The kind of a JSON value, by name.
pub fn type_str(j: &Json) -> (r: &'static str)
    ensures
        r@ == (match j@ {
            JsonView::Null => "null"@,
            JsonView::Bool(_) => "bool"@,
            JsonView::Number(_) => "number"@,
            JsonView::Text(_) => "string"@,
            JsonView::Array(_) => "array"@,
            JsonView::Object(_) => "object"@,
        }),
{
    match j {
        Json::Null => "null",
        Json::Bool(_) => "bool",
        Json::Number(_) => "number",
        Json::Text(_) => "string",
        Json::Array(_) => "array",
        Json::Object(_) => "object",
    }
}

/// A number as it was found: a JSON number, or a text that reads as a double.
#[derive(Debug, PartialEq)]
pub enum Reading {
    Number(JsonNumber),
    Text(String),
}

#[verifier::ext_equal]
pub enum ReadingView {
    Number(NumberView),
    Text(Seq<char>),
}

impl View for Reading {
    type V = ReadingView;

    open spec fn view(&self) -> ReadingView {
        match self {
            Reading::Number(n) => ReadingView::Number(n@),
            Reading::Text(s) => ReadingView::Text(s@),
        }
    }
}

/// The reading that an optional reading holds.
pub open spec fn viewed(r: Option<Reading>) -> Option<ReadingView> {
    match r {
        Some(x) => Some(x@),
        None => None,
    }
}

/// `str::parse` reads `s` as a double.
pub uninterp spec fn reads_as_double(s: Seq<char>) -> bool;

/// Whether a text reads as a double, by `str::parse`; that it is a double that
/// is asked for is said by `serde_json::Number::from_f64`, which takes one.
#[verifier::external_body]
fn parses(s: &str) -> (r: bool)
    ensures
        r == reads_as_double(s@),
{
    s.parse().map(serde_json::Number::from_f64).is_ok()
}

/// The number that a value shows.
pub open spec fn reading(j: JsonView) -> Option<ReadingView> {
    match j {
        JsonView::Number(n) => Some(ReadingView::Number(n)),
        JsonView::Text(s) => if reads_as_double(s) {
            Some(ReadingView::Text(s))
        } else {
            None
        },
        _ => None,
    }
}

/// The number that an optional value shows.
pub open spec fn reading_at(j: Option<JsonView>) -> Option<ReadingView> {
    match j {
        Some(v) => reading(v),
        None => None,
    }
}

/// The number under `key`, or else under `key` among the member `values`.
pub open spec fn reading_under(obj: JsonView, key: Seq<char>) -> Option<ReadingView> {
    match reading_at(obj.get(key)) {
        Some(r) => Some(r),
        None => reading_at(json::get2(obj, "values"@, key)),
    }
}

/// The number under the first of `keys` that has one.
pub open spec fn first_reading(obj: JsonView, keys: Seq<Seq<char>>) -> Option<ReadingView>
    decreases keys.len(),
{
    if keys.len() == 0 {
        None
    } else {
        match reading_under(obj, keys[0]) {
            Some(r) => Some(r),
            None => first_reading(obj, keys.drop_first()),
        }
    }
}

/// The number under `primary`, or else under the first of `alts` that has one.
pub open spec fn any_reading(
    obj: JsonView,
    primary: Seq<char>,
    alts: Seq<Seq<char>>,
) -> Option<ReadingView> {
    match reading_under(obj, primary) {
        Some(r) => Some(r),
        None => first_reading(obj, alts),
    }
}

/// The number that a value shows.
fn read_num(v: &Json) -> (r: Option<Reading>)
    ensures
        viewed(r) == reading(v@),
{
    match v {
        Json::Number(n) => Some(Reading::Number(n.clone())),
        Json::Text(s) => if parses(s.as_str()) {
            Some(Reading::Text(s.clone()))
        } else {
            None
        },
        _ => None,
    }
}

/// The number under `key`.
fn get_one(obj: &Json, key: &str) -> (r: Option<Reading>)
    ensures
        viewed(r) == reading_under(obj@, key@),
{
    match obj.get(key) {
        Some(v) => match read_num(v) {
            Some(x) => {
                return Some(x);
            },
            None => {},
        },
        None => {},
    }
    match obj.get2("values", key) {
        Some(v) => read_num(v),
        None => None,
    }
}

/// The number under `primary`, or else under the first of `alts` that has one.
#[verifier::loop_isolation(false)]
pub fn get_any(obj: &Json, primary: &str, alts: &Vec<String>) -> (r: Option<Reading>)
    ensures
        viewed(r) == any_reading(obj@, primary@, text::texts(alts@)),
{
    match get_one(obj, primary) {
        Some(x) => {
            return Some(x);
        },
        None => {},
    }
    let ghost all = text::texts(alts@);
    assert(all.skip(0) == all);
    for i in 0..alts.len()
        invariant
            first_reading(obj@, all) == first_reading(obj@, all.skip(i as int)),
    {
        assert(all.skip(i as int)[0] == alts@[i as int]@);
        assert(all.skip(i as int).drop_first() == all.skip(i + 1));
        match get_one(obj, alts[i].as_str()) {
            Some(x) => {
                return Some(x);
            },
            None => {},
        }
    }
    None
}

/// The number that an optional value is.
pub open spec fn number_at(j: Option<JsonView>) -> Option<NumberView> {
    match j {
        Some(JsonView::Number(n)) => Some(n),
        _ => None,
    }
}

/// The first number whose name is `key`, whatever the case of its letters.
pub open spec fn folded_number(e: Seq<(Seq<char>, JsonView)>, key: Seq<char>) -> Option<NumberView>
    decreases e.len(),
{
    if e.len() == 0 {
        None
    } else {
        match e[0].1 {
            JsonView::Number(n) if text::same_ignoring_case(e[0].0, key) => Some(n),
            _ => folded_number(e.drop_first(), key),
        }
    }
}

/// The number under `key`, or else among the member `values` under `key`, or
/// else there under `key` whatever the case of its letters.
pub open spec fn number_under(obj: JsonView, key: Seq<char>) -> Option<NumberView> {
    match number_at(obj.get(key)) {
        Some(n) => Some(n),
        None => match number_at(json::get2(obj, "values"@, key)) {
            Some(n) => Some(n),
            None => match obj.get("values"@) {
                Some(JsonView::Object(e)) => folded_number(e, key),
                _ => None,
            },
        },
    }
}

/// The number under the first of `keys` that has one.
pub open spec fn first_number(obj: JsonView, keys: Seq<Seq<char>>) -> Option<NumberView>
    decreases keys.len(),
{
    if keys.len() == 0 {
        None
    } else {
        match number_under(obj, keys[0]) {
            Some(n) => Some(n),
            None => first_number(obj, keys.drop_first()),
        }
    }
}

/// The number that an optional number is.
pub open spec fn counted(n: Option<JsonNumber>) -> Option<NumberView> {
    match n {
        Some(x) => Some(x@),
        None => None,
    }
}

/// The number under `key` at the three places.
#[verifier::loop_isolation(false)]
#[verifier::spinoff_prover]
fn number_of(obj: &Json, key: &str) -> (r: Option<JsonNumber>)
    ensures
        counted(r) == number_under(obj@, key@),
{
    match obj.get(key) {
        Some(Json::Number(n)) => {
            return Some(n.clone());
        },
        _ => {},
    }
    match obj.get2("values", key) {
        Some(Json::Number(n)) => {
            return Some(n.clone());
        },
        _ => {},
    }
    match obj.get("values") {
        Some(Json::Object(e)) => {
            proof {
                json::lemma_views(Json::Object(*e));
            }
            let ghost all = json::entries(e@);
            assert(all.skip(0) == all);
            for i in 0..e.len()
                invariant
                    folded_number(all, key@) == folded_number(all.skip(i as int), key@),
            {
                assert(all.skip(i as int)[0] == (e@[i as int].0@, e@[i as int].1@));
                assert(all.skip(i as int).drop_first() == all.skip(i + 1));
                if text::alike(e[i].0.as_str(), key) {
                    match &e[i].1 {
                        Json::Number(n) => {
                            return Some(n.clone());
                        },
                        _ => {},
                    }
                }
            }
            None
        },
        _ => None,
    }
}

/// The number under the first of `keys` that has one.
#[verifier::loop_isolation(false)]
fn first_of(obj: &Json, keys: &Vec<String>) -> (r: Option<JsonNumber>)
    ensures
        counted(r) == first_number(obj@, text::texts(keys@)),
{
    let ghost all = text::texts(keys@);
    assert(all.skip(0) == all);
    for i in 0..keys.len()
        invariant
            first_number(obj@, all) == first_number(obj@, all.skip(i as int)),
    {
        assert(all.skip(i as int)[0] == keys@[i as int]@);
        assert(all.skip(i as int).drop_first() == all.skip(i + 1));
        match number_of(obj, keys[i].as_str()) {
            Some(n) => {
                return Some(n);
            },
            None => {},
        }
    }
    None
}

/// The number under `key` or one of its other names.
pub fn get_f64_from(obj: &Json, key: &str) -> (r: Option<JsonNumber>)
    ensures
        counted(r) == first_number(obj@, seq![key@] + alternative_names(key@)),
{
    let mut keys = alternatives(key);
    let ghost others = text::texts(keys@);
    keys.insert(0, String::from_str(key));
    assert(text::texts(keys@) == seq![key@] + others);
    first_of(obj, &keys)
}

/// The whole milliseconds from one time in microseconds to another, what is
/// left over dropped.
pub open spec fn millis_between(from: i64, to: i64) -> int {
    if to >= from {
        (to - from) / 1000
    } else {
        -((from - to) / 1000)
    }
}

/// The whole milliseconds from one time in microseconds to another.
pub fn span_ms(from: i64, to: i64) -> (r: i64)
    ensures
        r == millis_between(from, to),
{
    if to >= from {
        ((to as i128 - from as i128) as u64 / 1000) as i64
    } else {
        -(((from as i128 - to as i128) as u64 / 1000) as i64)
    }
}

/// When a flight starts and ends, as it is shown, and how many milliseconds it
/// takes. A time that the calendar does not reach is not shown.
#[derive(Debug, PartialEq)]
pub struct FlightSpan {
    pub start: Option<String>,
    pub end: Option<String>,
    pub span_ms: i64,
}

/// From when to when a flight goes: from its first point to its last.
pub fn flight_span(points: &Vec<FlightPoint>) -> (r: FlightSpan)
    requires
        points@.len() > 0,
    ensures
        text::held(r.start) == clock::rfc3339_text(points@[0].ts_micros),
        text::held(r.end) == clock::rfc3339_text(points@.last().ts_micros),
        r.span_ms == millis_between(points@[0].ts_micros, points@.last().ts_micros),
        0 <= points@[0].ts_micros <= clock::LAST_MICROS ==> r.start is Some && clock::is_utc_text(
            r.start->0@,
        ),
        0 <= points@.last().ts_micros <= clock::LAST_MICROS ==> r.end is Some
            && clock::is_utc_text(r.end->0@),
{
    let first: i64 = points[0].ts_micros;
    let last: i64 = points[points.len() - 1].ts_micros;
    FlightSpan {
        start: clock::moment_text(first),
        end: clock::moment_text(last),
        span_ms: span_ms(first, last),
    }
}

/// The span that is shown of a flight of which too little is known, at `now`:
/// it starts and ends then.
pub fn no_span_at(now: String) -> (r: FlightSpan)
    ensures
        text::held(r.start) == Some(now@),
        text::held(r.end) == Some(now@),
        r.span_ms == 0,
{
    FlightSpan { start: Some(now.clone()), end: Some(now), span_ms: 0 }
}

/// The span that is shown of a flight of which too little is known: it starts
/// and ends now.
pub fn no_span() -> (r: FlightSpan)
    ensures
        r.start is Some,
        clock::is_utc_text(r.start->0@),
        text::held(r.end) == text::held(r.start),
        r.span_ms == 0,
{
    no_span_at(clock::now_text())
}

/// The angles of one point: milliseconds since the start of the flight, and the
/// numbers that were found.
#[derive(Debug, PartialEq)]
pub struct AngleReadings {
    pub t_ms: i64,
    pub roll: Option<Reading>,
    pub des_roll: Option<Reading>,
    pub pitch: Option<Reading>,
    pub des_pitch: Option<Reading>,
}

/// `r` holds the angles of a point, where the flight starts at `start`.
pub open spec fn reads_angles(start: i64, p: FlightPoint, r: AngleReadings) -> bool {
    &&& r.t_ms == millis_between(start, p.ts_micros)
    &&& viewed(r.roll) == any_reading(p.payload@, FIELD_ROLL@, alternative_names(FIELD_ROLL@))
    &&& viewed(r.des_roll) == any_reading(
        p.payload@,
        FIELD_DES_ROLL@,
        alternative_names(FIELD_DES_ROLL@),
    )
    &&& viewed(r.pitch) == any_reading(p.payload@, FIELD_PITCH@, alternative_names(FIELD_PITCH@))
    &&& viewed(r.des_pitch) == any_reading(
        p.payload@,
        FIELD_DES_PITCH@,
        alternative_names(FIELD_DES_PITCH@),
    )
}

/// The angles of the points of a flight.
#[verifier::loop_isolation(false)]
pub fn angle_readings(points: &Vec<FlightPoint>) -> (r: Vec<AngleReadings>)
    ensures
        r@.len() == points@.len(),
        forall|i: int|
            0 <= i < r@.len() ==> reads_angles(points@[0].ts_micros, points@[i], #[trigger] r@[i]),
{
    let mut r: Vec<AngleReadings> = Vec::new();
    if points.len() == 0 {
        return r;
    }
    let start: i64 = points[0].ts_micros;
    let roll_names = alternatives(FIELD_ROLL);
    let des_roll_names = alternatives(FIELD_DES_ROLL);
    let pitch_names = alternatives(FIELD_PITCH);
    let des_pitch_names = alternatives(FIELD_DES_PITCH);
    for i in 0..points.len()
        invariant
            r@.len() == i,
            forall|k: int| 0 <= k < i ==> reads_angles(start, points@[k], #[trigger] r@[k]),
    {
        let obj = &points[i].payload;
        r.push(
            AngleReadings {
                t_ms: span_ms(start, points[i].ts_micros),
                roll: get_any(obj, FIELD_ROLL, &roll_names),
                des_roll: get_any(obj, FIELD_DES_ROLL, &des_roll_names),
                pitch: get_any(obj, FIELD_PITCH, &pitch_names),
                des_pitch: get_any(obj, FIELD_DES_PITCH, &des_pitch_names),
            },
        );
    }
    r
}

/// What is answered where the points could not be read.
pub fn fetch_failed(why: &str) -> (r: ApiError)
    ensures
        r matches ApiError::Internal(e) && e@ == "DB error: "@ + why@,
{
    let mut e = String::from_str("DB error: ");
    e.append(why);
    ApiError::Internal(e)
}

/// What is answered about the angles of a flight: nothing where there are fewer
/// than two points, or where no point has an angle together with the one that
/// was desired; or else what is computed.
#[derive(Debug, PartialEq, Eq, Clone, Copy)]
pub enum MetricsPlan {
    TooFewPoints,
    NoPairs,
    Compute,
}

/// An angle was found together with the one that was desired.
pub open spec fn has_pair(s: AngleReadings) -> bool {
    (s.roll is Some && s.des_roll is Some) || (s.pitch is Some && s.des_pitch is Some)
}

/// What is answered about the angles of a flight.
#[verifier::loop_isolation(false)]
pub fn metrics_plan(samples: &Vec<AngleReadings>) -> (r: MetricsPlan)
    ensures
        (r is TooFewPoints) == (samples@.len() < 2),
        (r is NoPairs) == (samples@.len() >= 2 && forall|i: int|
            0 <= i < samples@.len() ==> !has_pair(#[trigger] samples@[i])),
{
    if samples.len() < 2 {
        return MetricsPlan::TooFewPoints;
    }
    for i in 0..samples.len()
        invariant
            forall|k: int| 0 <= k < i ==> !has_pair(#[trigger] samples@[k]),
    {
        let s = &samples[i];
        if (s.roll.is_some() && s.des_roll.is_some()) || (s.pitch.is_some()
            && s.des_pitch.is_some()) {
            assert(has_pair(samples@[i as int]));
            return MetricsPlan::Compute;
        }
    }
    MetricsPlan::NoPairs
}

/// The angles of one point in seconds since the start of the flight.
#[derive(Debug, PartialEq, Eq, Clone, Copy)]
pub struct AngleSample {
    pub t_rel: Double,
    pub roll: Option<Double>,
    pub des_roll: Option<Double>,
    pub pitch: Option<Double>,
    pub des_pitch: Option<Double>,
}

/// An axis of a sample.
#[derive(Debug, PartialEq, Eq, Clone, Copy)]
pub enum Axis {
    Roll,
    Pitch,
}

/// `later - earlier` is not above zero, as doubles compute. The difference of
/// an infinity and itself, like anything with no number, is none.
pub open spec fn not_after(later: Double, earlier: Double) -> bool {
    &&& !later.nan()
    &&& !earlier.nan()
    &&& later.rank() <= earlier.rank()
    &&& !(later.bits == earlier.bits && later.size() == crate::double::INFINITE)
}

/// The samples are measured: there are two, and the last comes after the first.
pub open spec fn measurable(samples: Seq<AngleSample>) -> bool {
    samples.len() >= 2 && !not_after(samples.last().t_rel, samples[0].t_rel)
}

/// The stretch from sample `i` to the next takes time, and sample `i` has the
/// angle of `axis` together with the one that was desired.
pub open spec fn counts(samples: Seq<AngleSample>, axis: Axis, i: int) -> bool {
    &&& samples[i].t_rel.lt(samples[i + 1].t_rel)
    &&& match axis {
        Axis::Roll => samples[i].roll is Some && samples[i].des_roll is Some,
        Axis::Pitch => samples[i].pitch is Some && samples[i].des_pitch is Some,
    }
}

/// The stretches, of the first `n`, that count for `axis`.
pub open spec fn stretches(samples: Seq<AngleSample>, axis: Axis, n: nat) -> Seq<usize>
    decreases n,
{
    if n == 0 {
        seq![]
    } else {
        let rest = stretches(samples, axis, (n - 1) as nat);
        if counts(samples, axis, n - 1) {
            rest.push((n - 1) as usize)
        } else {
            rest
        }
    }
}

/// The stretches over which the errors of each axis are summed.
#[derive(Debug, PartialEq)]
pub struct AngleSegments {
    pub roll: Vec<usize>,
    pub pitch: Vec<usize>,
}

impl AngleSegments {
    /// How many stretches were used, those of both axes together.
    pub fn used(&self) -> (r: usize)
        requires
            self.roll@.len() + self.pitch@.len() <= usize::MAX,
        ensures
            r == self.roll@.len() + self.pitch@.len(),
    {
        self.roll.len() + self.pitch.len()
    }
}

/// Whether the last sample comes after the first.
fn is_not_after(later: Double, earlier: Double) -> (r: bool)
    ensures
        r == not_after(later, earlier),
{
    if later.is_nan() || earlier.is_nan() || later.place() > earlier.place() {
        return false;
    }
    let endless = later.bits == crate::double::INFINITE || later.bits == crate::double::INFINITE
        + crate::double::SIGN;
    !(later.bits == earlier.bits && endless)
}

/// There are fewer stretches than samples before them.
proof fn lemma_stretches_bound(samples: Seq<AngleSample>, axis: Axis, n: nat)
    ensures
        stretches(samples, axis, n).len() <= n,
    decreases n,
{
    if n > 0 {
        lemma_stretches_bound(samples, axis, (n - 1) as nat);
    }
}

/// The stretches over which the errors of each axis are summed; none where the
/// samples are not measured.
#[verifier::loop_isolation(false)]
pub fn angle_segments(samples: &Vec<AngleSample>) -> (r: Option<AngleSegments>)
    ensures
        match r {
            Some(s) => measurable(samples@) && s.roll@ == stretches(
                samples@,
                Axis::Roll,
                (samples@.len() - 1) as nat,
            ) && s.pitch@ == stretches(samples@, Axis::Pitch, (samples@.len() - 1) as nat)
                && s.roll@.len() < samples@.len() && s.pitch@.len() < samples@.len(),
            None => !measurable(samples@),
        },
{
    if samples.len() < 2 || is_not_after(samples[samples.len() - 1].t_rel, samples[0].t_rel) {
        return None;
    }
    let mut roll: Vec<usize> = Vec::new();
    let mut pitch: Vec<usize> = Vec::new();
    let end: usize = samples.len() - 1;
    for i in 0..end
        invariant
            roll@ == stretches(samples@, Axis::Roll, i as nat),
            pitch@ == stretches(samples@, Axis::Pitch, i as nat),
    {
        let a = samples[i];
        if a.t_rel.less(samples[i + 1].t_rel) {
            if a.roll.is_some() && a.des_roll.is_some() {
                roll.push(i);
            }
            if a.pitch.is_some() && a.des_pitch.is_some() {
                pitch.push(i);
            }
        }
    }
    proof {
        lemma_stretches_bound(samples@, Axis::Roll, end as nat);
        lemma_stretches_bound(samples@, Axis::Pitch, end as nat);
    }
    Some(AngleSegments { roll, pitch })
}

/// A number that stands under its own name is found before one that stands
/// under another.
pub proof fn law_own_name_first(obj: JsonView, key: Seq<char>, n: NumberView)
    requires
        obj.get(key) == Some(JsonView::Number(n)),
    ensures
        first_number(obj, seq![key] + alternative_names(key)) == Some(n),
        any_reading(obj, key, alternative_names(key)) == Some(ReadingView::Number(n)),
{
    assert((seq![key] + alternative_names(key))[0] == key);
}

/// Times that go forward give milliseconds that do not go back.
pub proof fn law_millis_monotone(start: i64, a: i64, b: i64)
    requires
        a <= b,
    ensures
        millis_between(start, a) <= millis_between(start, b),
        millis_between(start, start) == 0,
        millis_between(a, start) == -millis_between(start, a),
{
}


/// The stretches that are summed are exactly those that count.
pub proof fn law_stretches(samples: Seq<AngleSample>, axis: Axis, n: nat, i: usize)
    requires
        n <= usize::MAX,
    ensures
        stretches(samples, axis, n).contains(i) <==> i < n && counts(samples, axis, i as int),
    decreases n,
{
    if n > 0 {
        law_stretches(samples, axis, (n - 1) as nat, i);
        let rest = stretches(samples, axis, (n - 1) as nat);
        let longer = rest.push((n - 1) as usize);
        assert(longer[rest.len() as int] == (n - 1) as usize);
        if rest.contains(i) {
            let k = choose|k: int| 0 <= k < rest.len() && rest[k] == i;
            assert(longer[k] == i);
        }
    }
}

/// What a value shows: a number itself, a text where it reads as a double, and
/// nothing else anything.
pub proof fn law_reading(n: NumberView, s: Seq<char>, b: bool, a: Seq<JsonView>)
    ensures
        reading(JsonView::Number(n)) == Some(ReadingView::Number(n)),
        reads_as_double(s) ==> reading(JsonView::Text(s)) == Some(ReadingView::Text(s)),
        !reads_as_double(s) ==> reading(JsonView::Text(s)) is None,
        reading(JsonView::Null) is None,
        reading(JsonView::Bool(b)) is None,
        reading(JsonView::Array(a)) is None,
{
}

/// A reading is taken from where the name stands, or else from among the values;
/// there is none exactly where neither shows one.
pub proof fn law_reading_under(obj: JsonView, key: Seq<char>, v: JsonView)
    ensures
        obj.get(key) == Some(v) && reading(v) is Some ==> reading_under(obj, key) == reading(v),
        (obj.get(key) is None || reading(obj.get(key)->0) is None) && json::get2(
            obj,
            "values"@,
            key,
        ) == Some(v) ==> reading_under(obj, key) == reading(v),
        (obj.get(key) is None || reading(obj.get(key)->0) is None) && json::get2(
            obj,
            "values"@,
            key,
        ) is None ==> reading_under(obj, key) is None,
{
}

/// A reading under one of several names is that of the first that has one; there
/// is none exactly where no name has one.
pub proof fn law_first_reading(obj: JsonView, keys: Seq<Seq<char>>)
    ensures
        match first_reading(obj, keys) {
            Some(r) => exists|i: int|
                0 <= i < keys.len() && reading_under(obj, #[trigger] keys[i]) == Some(r) && forall|
                    j: int,
                |
                    0 <= j < i ==> reading_under(obj, #[trigger] keys[j]) is None,
            None => forall|i: int|
                0 <= i < keys.len() ==> reading_under(obj, #[trigger] keys[i]) is None,
        },
    decreases keys.len(),
{
    if keys.len() > 0 {
        let rest = keys.drop_first();
        if reading_under(obj, keys[0]) is None {
            law_first_reading(obj, rest);
            match first_reading(obj, rest) {
                Some(r) => {
                    let i = choose|i: int|
                        0 <= i < rest.len() && reading_under(obj, #[trigger] rest[i]) == Some(r)
                            && forall|j: int|
                            0 <= j < i ==> reading_under(obj, #[trigger] rest[j]) is None;
                    assert(keys[i + 1] == rest[i]);
                    assert forall|j: int| 0 <= j < i + 1 implies reading_under(
                        obj,
                        #[trigger] keys[j],
                    ) is None by {
                        if j > 0 {
                            assert(rest[j - 1] == keys[j]);
                        }
                    }
                },
                None => {
                    assert forall|i: int| 0 <= i < keys.len() implies reading_under(
                        obj,
                        #[trigger] keys[i],
                    ) is None by {
                        if i > 0 {
                            assert(rest[i - 1] == keys[i]);
                        }
                    }
                },
            }
        } else {
            assert(reading_under(obj, keys[0]) is Some);
        }
    }
}

/// The name that is asked for goes before its other names.
pub proof fn law_any_reading(obj: JsonView, primary: Seq<char>, alts: Seq<Seq<char>>)
    ensures
        any_reading(obj, primary, alts) == first_reading(obj, seq![primary] + alts),
{
    let keys = seq![primary] + alts;
    assert(keys[0] == primary);
    assert(keys.drop_first() == alts);
}

/// Under which other names the angles, and those that were desired, are found.
pub proof fn law_alternative_names(name: Seq<char>)
    ensures
        alternative_names("AngleRoll"@) == seq!["AngleRoll_est"@, "roll"@, "Roll"@],
        alternative_names("AnglePitch"@) == seq!["AnglePitch_est"@, "pitch"@, "Pitch"@],
        alternative_names("DesiredAngleRoll"@) == seq![
            "des_roll"@,
            "roll_setpoint"@,
            "target_roll"@,
        ],
        alternative_names("DesiredAnglePitch"@) == seq![
            "des_pitch"@,
            "pitch_setpoint"@,
            "target_pitch"@,
        ],
        name != "AngleRoll"@ && name != "AnglePitch"@ && name != "DesiredAngleRoll"@ && name
            != "DesiredAnglePitch"@ ==> alternative_names(name).len() == 0,
{
    reveal_strlit("AngleRoll");
    reveal_strlit("AnglePitch");
    reveal_strlit("DesiredAngleRoll");
    reveal_strlit("DesiredAnglePitch");
    assert("AngleRoll"@.len() == 9 && "AnglePitch"@.len() == 10 && "DesiredAngleRoll"@.len() == 16
        && "DesiredAnglePitch"@.len() == 17);
}

/// Entry `i` is a number whose name is `key`, whatever the case of its letters.
pub open spec fn folds_at(e: Seq<(Seq<char>, JsonView)>, key: Seq<char>, i: int) -> bool {
    e[i].1 is Number && text::same_ignoring_case(e[i].0, key)
}

/// Whatever the case of its letters, the first number of that name is found, and
/// none exactly where there is none.
pub proof fn law_folded_number(e: Seq<(Seq<char>, JsonView)>, key: Seq<char>)
    ensures
        match folded_number(e, key) {
            Some(n) => exists|i: int|
                0 <= i < e.len() && #[trigger] folds_at(e, key, i) && e[i].1 == JsonView::Number(n)
                    && forall|j: int| 0 <= j < i ==> !#[trigger] folds_at(e, key, j),
            None => forall|i: int| 0 <= i < e.len() ==> !#[trigger] folds_at(e, key, i),
        },
    decreases e.len(),
{
    if e.len() > 0 {
        let rest = e.drop_first();
        if folds_at(e, key, 0) {
            assert(folds_at(e, key, 0));
        } else {
            law_folded_number(rest, key);
            assert forall|i: int| 0 < i < e.len() implies #[trigger] folds_at(e, key, i) == folds_at(
                rest,
                key,
                i - 1,
            ) by {
                assert(rest[i - 1] == e[i]);
            }
            match folded_number(rest, key) {
                Some(n) => {
                    let i = choose|i: int|
                        0 <= i < rest.len() && #[trigger] folds_at(rest, key, i) && rest[i].1
                            == JsonView::Number(n) && forall|j: int|
                            0 <= j < i ==> !#[trigger] folds_at(rest, key, j);
                    assert(folds_at(e, key, i + 1));
                    assert forall|j: int| 0 <= j < i + 1 implies !#[trigger] folds_at(e, key, j) by {
                        if j > 0 {
                            assert(!folds_at(rest, key, j - 1));
                        }
                    }
                },
                None => {
                    assert forall|i: int| 0 <= i < e.len() implies !#[trigger] folds_at(e, key, i) by {
                        if i > 0 {
                            assert(!folds_at(rest, key, i - 1));
                        }
                    }
                },
            }
        }
    }
}

/// A number is taken from where its name stands, or else from among the values
/// under its name, or else from there under its name in any case.
pub proof fn law_number_under(
    obj: JsonView,
    key: Seq<char>,
    n: NumberView,
    e: Seq<(Seq<char>, JsonView)>,
)
    ensures
        obj.get(key) == Some(JsonView::Number(n)) ==> number_under(obj, key) == Some(n),
        !(obj.get(key) matches Some(JsonView::Number(_))) && json::get2(obj, "values"@, key) == Some(
            JsonView::Number(n),
        ) ==> number_under(obj, key) == Some(n),
        !(obj.get(key) matches Some(JsonView::Number(_))) && !(json::get2(obj, "values"@, key)
            matches Some(JsonView::Number(_))) && obj.get("values"@) == Some(JsonView::Object(e))
            ==> number_under(obj, key) == folded_number(e, key),
        !(obj.get(key) matches Some(JsonView::Number(_))) && !(obj.get("values"@) matches Some(
            JsonView::Object(_),
        )) ==> number_under(obj, key) is None,
{
}

/// A number under one of several names is that of the first that has one; there
/// is none exactly where no name has one.
pub proof fn law_first_number(obj: JsonView, keys: Seq<Seq<char>>)
    ensures
        match first_number(obj, keys) {
            Some(n) => exists|i: int|
                0 <= i < keys.len() && number_under(obj, #[trigger] keys[i]) == Some(n) && forall|
                    j: int,
                |
                    0 <= j < i ==> number_under(obj, #[trigger] keys[j]) is None,
            None => forall|i: int|
                0 <= i < keys.len() ==> number_under(obj, #[trigger] keys[i]) is None,
        },
    decreases keys.len(),
{
    if keys.len() > 0 {
        let rest = keys.drop_first();
        if number_under(obj, keys[0]) is None {
            law_first_number(obj, rest);
            match first_number(obj, rest) {
                Some(n) => {
                    let i = choose|i: int|
                        0 <= i < rest.len() && number_under(obj, #[trigger] rest[i]) == Some(n)
                            && forall|j: int|
                            0 <= j < i ==> number_under(obj, #[trigger] rest[j]) is None;
                    assert(keys[i + 1] == rest[i]);
                    assert forall|j: int| 0 <= j < i + 1 implies number_under(
                        obj,
                        #[trigger] keys[j],
                    ) is None by {
                        if j > 0 {
                            assert(rest[j - 1] == keys[j]);
                        }
                    }
                },
                None => {
                    assert forall|i: int| 0 <= i < keys.len() implies number_under(
                        obj,
                        #[trigger] keys[i],
                    ) is None by {
                        if i > 0 {
                            assert(rest[i - 1] == keys[i]);
                        }
                    }
                },
            }
        } else {
            assert(number_under(obj, keys[0]) is Some);
        }
    }
}

/// Milliseconds are thousands of microseconds, what is left over dropped.
pub proof fn law_millis(from: i64, to: i64)
    requires
        from <= to,
    ensures
        1000 * millis_between(from, to) <= to - from < 1000 * (millis_between(from, to) + 1),
{
}

/// A flight is measured exactly where it has two samples and the last does not
/// come at the time of the first or before it.
pub proof fn law_measurable(samples: Seq<AngleSample>)
    ensures
        samples.len() < 2 ==> !measurable(samples),
        samples.len() >= 2 && !samples[0].t_rel.nan() && !samples.last().t_rel.nan()
            && samples[0].t_rel.size() < 0x7ff0_0000_0000_0000 ==> (measurable(samples)
            <==> samples[0].t_rel.lt(samples.last().t_rel)),
        samples.len() >= 2 && (samples[0].t_rel.nan() || samples.last().t_rel.nan()) ==> measurable(
            samples,
        ),
{
}

/// The stretch from sample `i` on, where it takes time and the sample has the
/// angle of the axis together with the one that was desired.
pub open spec fn stretch_at(samples: Seq<AngleSample>, axis: Axis) -> spec_fn(int) -> Option<usize> {
    |i: int|
        if samples[i].t_rel.lt(samples[i + 1].t_rel) && ((axis is Roll && samples[i].roll is Some
            && samples[i].des_roll is Some) || (axis is Pitch && samples[i].pitch is Some
            && samples[i].des_pitch is Some)) {
            Some(i as usize)
        } else {
            None
        }
}

/// The stretches of an axis are all that count, in their order, each once.
pub proof fn law_stretches_in_order(samples: Seq<AngleSample>, axis: Axis, n: nat)
    ensures
        lists::gathers(stretch_at(samples, axis), 0, n as int, stretches(samples, axis, n)),
    decreases n,
{
    if n == 0 {
        lists::lemma_gathers_nothing(stretch_at(samples, axis), 0, 0);
    } else {
        law_stretches_in_order(samples, axis, (n - 1) as nat);
        lists::lemma_gathers_next(
            stretch_at(samples, axis),
            0,
            n - 1,
            stretches(samples, axis, (n - 1) as nat),
        );
    }
}

/// The angles of a point are found under their own names or else under their
/// other ones, in that order, and its time counts from the start of the flight.
pub proof fn law_angles_read(start: i64, p: FlightPoint, r: AngleReadings)
    requires
        reads_angles(start, p, r),
    ensures
        start <= p.ts_micros ==> 1000 * r.t_ms <= p.ts_micros - start < 1000 * (r.t_ms + 1),
        viewed(r.roll) == first_reading(
            p.payload@,
            seq!["AngleRoll"@, "AngleRoll_est"@, "roll"@, "Roll"@],
        ),
        viewed(r.pitch) == first_reading(
            p.payload@,
            seq!["AnglePitch"@, "AnglePitch_est"@, "pitch"@, "Pitch"@],
        ),
        viewed(r.des_roll) == first_reading(
            p.payload@,
            seq!["DesiredAngleRoll"@, "des_roll"@, "roll_setpoint"@, "target_roll"@],
        ),
        viewed(r.des_pitch) == first_reading(
            p.payload@,
            seq!["DesiredAnglePitch"@, "des_pitch"@, "pitch_setpoint"@, "target_pitch"@],
        ),
{
    law_alternative_names("AngleRoll"@);
    lemma_all_names(p.payload@, "AngleRoll"@, "AngleRoll_est"@, "roll"@, "Roll"@);
    lemma_all_names(p.payload@, "AnglePitch"@, "AnglePitch_est"@, "pitch"@, "Pitch"@);
    lemma_all_names(
        p.payload@,
        "DesiredAngleRoll"@,
        "des_roll"@,
        "roll_setpoint"@,
        "target_roll"@,
    );
    lemma_all_names(
        p.payload@,
        "DesiredAnglePitch"@,
        "des_pitch"@,
        "pitch_setpoint"@,
        "target_pitch"@,
    );
}

/// A name and its three other names are four names.
pub proof fn lemma_all_names(
    obj: JsonView,
    own: Seq<char>,
    a: Seq<char>,
    b: Seq<char>,
    c: Seq<char>,
)
    ensures
        any_reading(obj, own, seq![a, b, c]) == first_reading(obj, seq![own, a, b, c]),
{
    law_any_reading(obj, own, seq![a, b, c]);
    assert(seq![own] + seq![a, b, c] == seq![own, a, b, c]);
}

/// A point has a pair exactly where the roll, or the pitch, was found together
/// with the one that was desired.
pub proof fn law_has_pair(s: AngleReadings)
    ensures
        s.roll is Some && s.des_roll is Some ==> has_pair(s),
        s.pitch is Some && s.des_pitch is Some ==> has_pair(s),
        s.roll is None && s.pitch is None ==> !has_pair(s),
        s.des_roll is None && s.des_pitch is None ==> !has_pair(s),
        s.roll is None && s.des_pitch is None ==> !has_pair(s),
        s.des_roll is None && s.pitch is None ==> !has_pair(s),
{
}

/// A reading is shown as what it is.
pub proof fn law_reading_view(n: JsonNumber, s: String)
    ensures
        Reading::Number(n)@ == ReadingView::Number(n@),
        Reading::Text(s)@ == ReadingView::Text(s@),
{
}

}
