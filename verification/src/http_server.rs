//! The HTTP side: recordings, the configuration of the logger, the fields that
//! are known.

use crate::double::Double;
use crate::json;
use crate::json::{Json, JsonView};
use crate::server::AvailableFieldIndex;
use crate::telemetry;
use crate::text;
use vstd::prelude::*;

verus! {

/// Why a request could not be served.
#[derive(Debug, PartialEq)]
pub enum ApiError {
    BadRequest(String),
    Internal(String),
    NotFound(String),
}

impl ApiError {
    /// How the error is shown.
    pub open spec fn shown(self) -> Seq<char> {
        match self {
            ApiError::BadRequest(why) => "Bad request: "@ + why@,
            ApiError::Internal(why) => "Internal server error: "@ + why@,
            ApiError::NotFound(why) => "Not found: "@ + why@,
        }
    }

    /// How the error is shown.
    pub fn message(&self) -> (r: String)
        ensures
            r@ == self.shown(),
    {
        let (head, why) = match self {
            ApiError::BadRequest(why) => ("Bad request: ", why),
            ApiError::Internal(why) => ("Internal server error: ", why),
            ApiError::NotFound(why) => ("Not found: ", why),
        };
        let mut r = String::from_str(head);
        r.append(why.as_str());
        r
    }
}

/// `c` is a hexadecimal digit in small letters.
pub open spec fn is_hex(c: char) -> bool {
    ('0' <= c && c <= '9') || ('a' <= c && c <= 'f')
}

/// `s` is a random UUID in its hyphenated form.
pub open spec fn is_random_uuid(s: Seq<char>) -> bool {
    &&& s.len() == 36
    &&& forall|i: int|
        0 <= i < 36 ==> if i == 8 || i == 13 || i == 18 || i == 23 {
            #[trigger] s[i] == '-'
        } else {
            is_hex(s[i])
        }
    &&& s[14] == '4'
    &&& (s[19] == '8' || s[19] == '9' || s[19] == 'a' || s[19] == 'b')
}

/// A random UUID as a text, by `uuid::Uuid::new_v4` and its `Display`, which is
/// hyphenated, in small letters. Which one it is, is left to chance.
#[verifier::external_body]
fn random_uuid() -> (r: String)
    ensures
        is_random_uuid(r@),
{
    uuid::Uuid::new_v4().to_string()
}

/// When a recording starts: while the value under `key` lies in a range.
#[derive(Debug, PartialEq)]
pub struct StartCondition {
    pub key: String,
    pub between: (Double, Double),
}

/// When a recording stops: once the value under `key` has been outside a range
/// for a while.
#[derive(Debug, PartialEq)]
pub struct StopCondition {
    pub key: String,
    pub outside_for_seconds: u64,
    pub range: (Double, Double),
}

/// When a recording starts and stops.
#[derive(Debug, PartialEq)]
pub struct TriggerConfig {
    pub start_when: StartCondition,
    pub stop_when: Option<StopCondition>,
}

/// How long what is recorded is kept.
#[derive(Debug, PartialEq)]
pub enum RetentionConfig {
    Infinite { mode: String },
    Ttl { mode: String, seconds: u64 },
}

/// What is known of the craft.
#[derive(Debug, PartialEq)]
pub struct MetadataConfig {
    pub mass: Option<Double>,
    pub arm_length: Option<Double>,
}

/// The configuration of a recording.
#[derive(Debug, PartialEq)]
pub struct LoggerConfig {
    pub schema_version: u8,
    pub selected_fields: Vec<String>,
    pub retention: RetentionConfig,
    pub triggers: TriggerConfig,
    pub metadata: Option<MetadataConfig>,
}

/// The recordings: the flight that is being recorded, if any, and the
/// configuration of the last recording that was started.
#[derive(Debug, PartialEq)]
pub struct Recordings {
    pub current_flight_id: Option<String>,
    pub current_config: Option<LoggerConfig>,
}

/// What a change of the recordings gives: a text for all clients and the answer
/// to the request.
#[derive(Debug, PartialEq)]
pub struct Announcement {
    pub broadcast: String,
    pub response: Json,
}

/// A request that was refused: the number of its status and the reason.
#[derive(Debug, PartialEq)]
pub struct Refusal {
    pub status: u16,
    pub message: String,
}

/// A flight under the key `flight_id`, and `what` under `key`, which comes
/// later in the alphabet.
pub open spec fn flight_note(key: Seq<char>, what: Seq<char>, flight_id: Seq<char>) -> JsonView {
    JsonView::Object(
        seq![("flight_id"@, JsonView::Text(flight_id)), (key, JsonView::Text(what))],
    )
}

/// What is announced of a flight: that `what` has happened to its recording.
pub open spec fn announced(a: Announcement, what: Seq<char>, flight_id: Seq<char>) -> bool {
    &&& a.broadcast@ == json::json_text(flight_note("type"@, what, flight_id))
    &&& a.response@ == flight_note("status"@, what, flight_id)
}

/// A flight under the key `flight_id`, and `what` under `key`.
fn note(key: &str, what: &str, flight_id: &str) -> (r: Json)
    ensures
        r@ == flight_note(key@, what@, flight_id@),
{
    let members: Vec<(String, Json)> = vec![
        (String::from_str("flight_id"), Json::Text(String::from_str(flight_id))),
        (String::from_str(key), Json::Text(String::from_str(what))),
    ];
    assert(json::entries(members@) == seq![
        ("flight_id"@, JsonView::Text(flight_id@)),
        (key@, JsonView::Text(what@)),
    ]);
    let r = Json::Object(members);
    proof {
        json::lemma_views(r);
    }
    r
}

/// What is announced of a flight.
fn announce(what: &str, flight_id: &str) -> (r: Announcement)
    ensures
        announced(r, what@, flight_id@),
{
    Announcement {
        broadcast: note("type", what, flight_id).to_text(),
        response: note("status", what, flight_id),
    }
}

/// What starting to record as `flight_id` does. `decoded` is the configuration
/// that was read, or why it could not be.
pub open spec fn started(
    before: Recordings,
    decoded: Result<LoggerConfig, String>,
    config: JsonView,
    flight_id: Seq<char>,
    after: Recordings,
    r: Result<Announcement, Refusal>,
) -> bool {
    match decoded {
        Ok(read) => {
            &&& r is Ok
            &&& announced(r->Ok_0, "recording_started"@, flight_id)
            &&& text::held(after.current_flight_id) == Some(flight_id)
            &&& after.current_config == Some(read)
        },
        Err(why) => {
            &&& after == before
            &&& r is Err
            &&& r->Err_0.status == 400
            &&& r->Err_0.message@ == "Invalid config format: "@ + why@ + "\nConfig: "@
                + json::json_text(config)
        },
    }
}

/// What stopping the recording does.
pub open spec fn stopped(
    before: Recordings,
    after: Recordings,
    r: Result<Announcement, Refusal>,
) -> bool {
    &&& after.current_flight_id is None
    &&& after.current_config == before.current_config
    &&& match before.current_flight_id {
        Some(id) => r is Ok && announced(r->Ok_0, "recording_stopped"@, id@),
        None => r is Err && r->Err_0.status == 400 && r->Err_0.message@ == "No active recording"@,
    }
}

/// A recording that was started is stopped once, under its number; to stop it
/// again is refused. Its configuration stays.
pub proof fn law_start_then_stop(
    before: Recordings,
    read: LoggerConfig,
    config: JsonView,
    flight_id: Seq<char>,
    on: Recordings,
    start: Result<Announcement, Refusal>,
    off: Recordings,
    stop: Result<Announcement, Refusal>,
    still_off: Recordings,
    stop_again: Result<Announcement, Refusal>,
)
    requires
        started(before, Ok(read), config, flight_id, on, start),
        stopped(on, off, stop),
        stopped(off, still_off, stop_again),
    ensures
        stop is Ok,
        announced(stop->Ok_0, "recording_stopped"@, flight_id),
        off.current_flight_id is None,
        stop_again is Err,
        still_off.current_config == Some(read),
{
}

impl Recordings {
    /// No recording, and no configuration.
    pub fn new() -> (r: Recordings)
        ensures
            r.current_flight_id is None,
            r.current_config is None,
    {
        Recordings { current_flight_id: None, current_config: None }
    }

    /// Starts to record as `flight_id`, where the configuration could be read:
    /// `decoded` is what was read, or why it could not be.
    pub fn start_recording_as(
        &mut self,
        decoded: Result<LoggerConfig, String>,
        config: &Json,
        flight_id: String,
    ) -> (r: Result<Announcement, Refusal>)
        ensures
            started(*old(self), decoded, config@, flight_id@, *final(self), r),
    {
        match decoded {
            Ok(read) => {
                let a = announce("recording_started", flight_id.as_str());
                self.current_flight_id = Some(flight_id);
                self.current_config = Some(read);
                Ok(a)
            },
            Err(why) => {
                let mut message = String::from_str("Invalid config format: ");
                message.append(why.as_str());
                message.append("\nConfig: ");
                message.append(config.to_text().as_str());
                Err(Refusal { status: 400, message })
            },
        }
    }

    /// Starts to record under a new number, where the configuration could be
    /// read.
    pub fn start_recording(
        &mut self,
        decoded: Result<LoggerConfig, String>,
        config: &Json,
    ) -> (r: Result<Announcement, Refusal>)
        ensures
            exists|id: Seq<char>|
                is_random_uuid(id) && #[trigger] started(
                    *old(self),
                    decoded,
                    config@,
                    id,
                    *final(self),
                    r,
                ),
    {
        let flight_id = random_uuid();
        self.start_recording_as(decoded, config, flight_id)
    }

    /// Stops the recording, where there is one.
    pub fn stop_recording(&mut self) -> (r: Result<Announcement, Refusal>)
        ensures
            stopped(*old(self), *final(self), r),
    {
        match self.current_flight_id.take() {
            Some(id) => Ok(announce("recording_stopped", id.as_str())),
            None => Err(
                Refusal { status: 400, message: String::from_str("No active recording") },
            ),
        }
    }
}

/// What a new configuration leads to: it is the last one from now on, and its
/// text is stored.
#[derive(Debug, PartialEq)]
pub struct ConfigEffect {
    pub last_config: Json,
    pub stored: String,
    pub response: Json,
}

/// The fields that a configuration selects.
pub open spec fn selected_fields(config: JsonView) -> Set<Seq<char>> {
    match config.get("selectedFields"@) {
        Some(JsonView::Array(a)) => telemetry::strings(a),
        _ => Set::empty(),
    }
}

/// The answer that all is well.
pub open spec fn ok_answer() -> JsonView {
    JsonView::Object(seq![("status"@, JsonView::Text("ok"@))])
}

/// Takes a new configuration at `now`: its fields go into the index.
pub fn apply_config_at(config: &Json, index: &mut AvailableFieldIndex, now: String) -> (r:
    ConfigEffect)
    requires
        old(index).wf(),
    ensures
        final(index).wf(),
        final(index).fields() == old(index).fields().union(selected_fields(config@)),
        final(index).last_updated@ == (if final(index).fields() == old(index).fields() {
            old(index).last_updated@
        } else {
            now@
        }),
        r.last_config@ == config@,
        r.stored@ == json::json_text(config@),
        r.response@ == ok_answer(),
{
    let ghost before = index.fields();
    match config.get("selectedFields") {
        Some(Json::Array(a)) => {
            proof {
                json::lemma_views(Json::Array(*a));
            }
            let keys = telemetry::collect_strings(a);
            let _ = index.merge_keys_at(keys, now);
        },
        _ => {
            assert(before =~= before.union(selected_fields(config@)));
        },
    }
    let members: Vec<(String, Json)> = vec![
        (String::from_str("status"), Json::Text(String::from_str("ok"))),
    ];
    assert(json::entries(members@) == seq![("status"@, JsonView::Text("ok"@))]);
    let response = Json::Object(members);
    proof {
        json::lemma_views(response);
    }
    ConfigEffect { last_config: config.clone(), stored: config.to_text(), response }
}

/// Takes a new configuration: its fields go into the index.
pub fn apply_config(config: &Json, index: &mut AvailableFieldIndex) -> (r: ConfigEffect)
    requires
        old(index).wf(),
    ensures
        final(index).wf(),
        final(index).fields() == old(index).fields().union(selected_fields(config@)),
        if final(index).fields() == old(index).fields() {
            final(index).last_updated@ == old(index).last_updated@
        } else {
            crate::clock::is_utc_text(final(index).last_updated@)
        },
        r.last_config@ == config@,
        r.stored@ == json::json_text(config@),
        r.response@ == ok_answer(),
{
    apply_config_at(config, index, crate::clock::now_text())
}

/// A list of strings as JSON.
#[verifier::loop_isolation(false)]
fn string_array(list: &Vec<String>) -> (r: Json)
    ensures
        r@ == JsonView::Array(
            text::texts(list@).map_values(|s: Seq<char>| JsonView::Text(s)),
        ),
{
    let ghost all = text::texts(list@).map_values(|s: Seq<char>| JsonView::Text(s));
    let mut items: Vec<Json> = Vec::new();
    for i in 0..list.len()
        invariant
            json::values(items@) == all.take(i as int),
    {
        let item = Json::Text(list[i].clone());
        assert(all[i as int] == item@);
        items.push(item);
        assert(json::values(items@) == all.take(i + 1));
    }
    assert(json::values(items@) == all);
    let r = Json::Array(items);
    proof {
        json::lemma_views(r);
    }
    r
}

/// The answer that lists the known fields, ascending, and when the last came.
pub fn get_available_fields(index: &AvailableFieldIndex) -> (r: Json)
    requires
        index.wf(),
    ensures
        r@ == JsonView::Object(
            seq![
                (
                    "fields"@,
                    JsonView::Array(
                        text::texts(index.set@).map_values(|s: Seq<char>| JsonView::Text(s)),
                    ),
                ),
                ("last_updated"@, JsonView::Text(index.last_updated@)),
            ],
        ),
{
    let members: Vec<(String, Json)> = vec![
        (String::from_str("fields"), string_array(&index.set)),
        (String::from_str("last_updated"), Json::Text(index.last_updated.clone())),
    ];
    let r = Json::Object(members);
    proof {
        json::lemma_views(r);
        assert(r@->Object_0 =~= seq![
            (
                "fields"@,
                JsonView::Array(
                    text::texts(index.set@).map_values(|s: Seq<char>| JsonView::Text(s)),
                ),
            ),
            ("last_updated"@, JsonView::Text(index.last_updated@)),
        ]);
    }
    r
}

/// What is announced names the flight and what has happened to its recording,
/// and nothing else.
pub proof fn law_flight_note(key: Seq<char>, what: Seq<char>, flight_id: Seq<char>)
    requires
        key != "flight_id"@,
    ensures
        flight_note(key, what, flight_id).get("flight_id"@) == Some(JsonView::Text(flight_id)),
        flight_note(key, what, flight_id).get(key) == Some(JsonView::Text(what)),
        flight_note(key, what, flight_id)->Object_0.len() == 2,
{
    let e = seq![("flight_id"@, JsonView::Text(flight_id)), (key, JsonView::Text(what))];
    json::lemma_lookup_at(e, 0);
    assert(e[0].0 != e[1].0);
    json::lemma_lookup_at(e, 1);
}

/// Starting a recording announces it under its number, in the text for all
/// clients and in the answer; stopping it does so too.
pub proof fn law_announcement(a: Announcement, what: Seq<char>, flight_id: Seq<char>)
    requires
        announced(a, what, flight_id),
    ensures
        a.broadcast@ == json::json_text(flight_note("type"@, what, flight_id)),
        a.response@ == flight_note("status"@, what, flight_id),
        a.response@.get("flight_id"@) == Some(JsonView::Text(flight_id)),
        a.response@.get("status"@) == Some(JsonView::Text(what)),
{
    reveal_strlit("status");
    reveal_strlit("flight_id");
    assert("status"@.len() != "flight_id"@.len());
    law_flight_note("status"@, what, flight_id);
}

/// A configuration that can be read starts the recording of a flight and is the
/// current one; one that cannot changes nothing and is refused.
pub proof fn law_start(
    before: Recordings,
    decoded: Result<LoggerConfig, String>,
    config: JsonView,
    flight_id: Seq<char>,
    after: Recordings,
    r: Result<Announcement, Refusal>,
)
    requires
        started(before, decoded, config, flight_id, after, r),
    ensures
        decoded is Ok <==> r is Ok,
        decoded matches Ok(c) ==> after.current_config == Some(c) && after.current_flight_id is Some
            && after.current_flight_id->0@ == flight_id && r->Ok_0.response@.get("flight_id"@)
            == Some(JsonView::Text(flight_id)) && r->Ok_0.response@.get("status"@) == Some(
            JsonView::Text("recording_started"@),
        ),
        decoded is Err ==> after == before && r->Err_0.status == 400,
{
    match decoded {
        Ok(_) => law_announcement(r->Ok_0, "recording_started"@, flight_id),
        Err(_) => {},
    }
}

/// Stopping ends the recording that is on, under its number, and is refused where
/// none is.
pub proof fn law_stop(before: Recordings, after: Recordings, r: Result<Announcement, Refusal>)
    requires
        stopped(before, after, r),
    ensures
        after.current_flight_id is None,
        before.current_flight_id is Some <==> r is Ok,
        before.current_flight_id matches Some(id) ==> r->Ok_0.response@.get("flight_id"@) == Some(
            JsonView::Text(id@),
        ) && r->Ok_0.response@.get("status"@) == Some(JsonView::Text("recording_stopped"@)),
        before.current_flight_id is None ==> r->Err_0.status == 400,
{
    match before.current_flight_id {
        Some(id) => law_announcement(r->Ok_0, "recording_stopped"@, id@),
        None => {},
    }
}

/// The fields that a configuration selects are the strings in its list.
pub proof fn law_selected_fields(config: JsonView, name: Seq<char>)
    ensures
        config.get("selectedFields"@) matches Some(JsonView::Array(a)) ==> (selected_fields(
            config,
        ).contains(name) <==> exists|i: int|
            0 <= i < a.len() && #[trigger] a[i] == JsonView::Text(name)),
        !(config.get("selectedFields"@) matches Some(JsonView::Array(_))) ==> !selected_fields(
            config,
        ).contains(name),
{
    match config.get("selectedFields"@) {
        Some(JsonView::Array(a)) => {
            if a.contains(JsonView::Text(name)) {
                let i = choose|i: int| 0 <= i < a.len() && a[i] == JsonView::Text(name);
                assert(a[i] == JsonView::Text(name));
            }
        },
        _ => {},
    }
}

/// The answer that all is well says so.
pub proof fn law_ok_answer()
    ensures
        ok_answer().get("status"@) == Some(JsonView::Text("ok"@)),
        ok_answer()->Object_0.len() == 1,
{
    let e = seq![("status"@, JsonView::Text("ok"@))];
    json::lemma_lookup_at(e, 0);
}

}
