//! Packets stored one by one: every packet that is text is searched, logged and
//! written as it comes.

use crate::clock::Moment;
use crate::json;
use crate::json::{Json, JsonView, NumberView};
use crate::questdb;
use crate::questdb::OptionalDb;
use crate::telemetry;
use crate::telemetry::Record;
use crate::text;
use vstd::prelude::*;

verus! {

/// The message that a packet gives, which has to be text.
pub open spec fn text_packet_message(bytes: Seq<u8>) -> Option<JsonView> {
    if vstd::utf8::valid_utf8(bytes) {
        let t = vstd::utf8::decode_utf8(bytes);
        match json::json_of_text(t) {
            Some(j) => Some(telemetry::normalized(j)),
            None => Some(telemetry::telemetry(JsonView::Text(t))),
        }
    } else {
        None
    }
}

/// The message that a packet gives, which has to be text.
pub fn normalize_text_packet(bytes: &[u8]) -> (r: Option<Json>)
    ensures
        match r {
            Some(j) => text_packet_message(bytes@) == Some(j@),
            None => text_packet_message(bytes@) is None,
        },
{
    match telemetry::utf8_text(bytes) {
        Some(s) => match json::parse_text(s.as_str()) {
            Some(j) => Some(telemetry::normalize(j)),
            None => Some(telemetry::wrap(Json::Text(s))),
        },
        None => None,
    }
}

/// What a string holds that is a JSON object or array, perhaps behind white
/// space.
pub open spec fn nested(s: Seq<char>) -> Option<JsonView> {
    let t = text::trimmed_start(s);
    match json::json_of_text(t) {
        Some(j) if telemetry::looks_nested(t) && json::longest(j) < s.len() => Some(j),
        _ => None,
    }
}

/// The names of the numbers in `j`, which is itself named `prefix`. The items
/// of an array bear the array's name; a string that holds a JSON object or
/// array is searched as that.
pub open spec fn found_keys(prefix: Seq<char>, j: JsonView) -> Set<Seq<char>>
    decreases json::longest(j), j, 0nat,
{
    match j {
        JsonView::Number(_) => if prefix.len() == 0 {
            Set::empty()
        } else {
            Set::empty().insert(prefix)
        },
        JsonView::Object(e) => found_member_keys(prefix, e, e.len()),
        JsonView::Array(a) => found_item_keys(prefix, a, a.len()),
        JsonView::Text(s) => match nested(s) {
            Some(inner) => found_keys(prefix, inner),
            None => Set::empty(),
        },
        _ => Set::empty(),
    }
}

/// The names of the numbers in the first `n` members of `e`. A number that is a
/// member counts even where its name is empty.
pub open spec fn found_member_keys(
    prefix: Seq<char>,
    e: Seq<(Seq<char>, JsonView)>,
    n: nat,
) -> Set<Seq<char>>
    decreases json::longest_member(e, e.len()), e, n,
{
    if n == 0 || n > e.len() {
        Set::empty()
    } else {
        proof {
            json::lemma_longest_member(e, e.len(), n - 1);
        }
        let rest = found_member_keys(prefix, e, (n - 1) as nat);
        let name = telemetry::member_name(prefix, e[n - 1].0);
        if e[n - 1].1 is Number {
            rest.insert(name)
        } else {
            rest.union(found_keys(name, e[n - 1].1))
        }
    }
}

/// The names of the numbers in the first `n` items of `a`.
pub open spec fn found_item_keys(prefix: Seq<char>, a: Seq<JsonView>, n: nat) -> Set<Seq<char>>
    decreases json::longest_item(a, a.len()), a, n,
{
    if n == 0 || n > a.len() {
        Set::empty()
    } else {
        proof {
            json::lemma_longest_item(a, a.len(), n - 1);
        }
        found_item_keys(prefix, a, (n - 1) as nat).union(found_keys(prefix, a[n - 1]))
    }
}

/// Trimming makes no text longer.
proof fn lemma_trimmed_length(s: Seq<char>)
    ensures
        text::trimmed_start(s).len() <= s.len(),
    decreases s.len(),
{
    if s.len() > 0 && text::white_space(s[0]) {
        lemma_trimmed_length(s.drop_first());
    }
}

/// What a string holds that is a JSON object or array.
fn try_parse_json_str(s: &str) -> (r: Option<Json>)
    ensures
        match r {
            Some(j) => nested(s@) == Some(j@) && json::longest(j@) < s@.len(),
            None => nested(s@) is None,
        },
{
    proof {
        lemma_trimmed_length(s@);
    }
    let t = text::trim_front(s);
    if telemetry::is_nested(t.as_str()) {
        json::parse_text(t.as_str())
    } else {
        None
    }
}

/// Adds the names of the numbers in `j` to `out`.
#[verifier::loop_isolation(false)]
fn walk(prefix: &str, j: &Json, out: &mut Vec<String>)
    requires
        text::ascending(text::texts(old(out)@)),
    ensures
        text::ascending(text::texts(final(out)@)),
        text::texts(final(out)@).to_set() == text::texts(old(out)@).to_set().union(
            found_keys(prefix@, j@),
        ),
    decreases json::longest(j@), j,
{
    let ghost before = text::texts(out@).to_set();
    proof {
        json::lemma_views(*j);
    }
    match j {
        Json::Number(_) => {
            if !prefix.is_empty() {
                let _ = text::insert_ascending(out, String::from_str(prefix));
                assert(before.insert(prefix@) =~= before.union(found_keys(prefix@, j@)));
            } else {
                assert(before =~= before.union(found_keys(prefix@, j@)));
            }
        },
        Json::Object(e) => {
            let ghost all = json::entries(e@);
            assert(before =~= before.union(found_member_keys(prefix@, all, 0)));
            for i in 0..e.len()
                invariant
                    text::ascending(text::texts(out@)),
                    text::texts(out@).to_set() == before.union(
                        found_member_keys(prefix@, all, i as nat),
                    ),
            {
                assert(all[i as int] == (e@[i as int].0@, e@[i as int].1@));
                proof {
                    json::lemma_longest_member(all, all.len(), i as int);
                }
                let name = telemetry::name_member(prefix, e[i].0.as_str());
                if e[i].1.is_number() {
                    let _ = text::insert_ascending(out, name);
                } else {
                    walk(name.as_str(), &e[i].1, out);
                }
                assert(text::texts(out@).to_set() =~= before.union(
                    found_member_keys(prefix@, all, (i + 1) as nat),
                ));
            }
        },
        Json::Array(a) => {
            let ghost all = json::values(a@);
            assert(before =~= before.union(found_item_keys(prefix@, all, 0)));
            for i in 0..a.len()
                invariant
                    text::ascending(text::texts(out@)),
                    text::texts(out@).to_set() == before.union(
                        found_item_keys(prefix@, all, i as nat),
                    ),
            {
                assert(all[i as int] == a@[i as int]@);
                proof {
                    json::lemma_longest_item(all, all.len(), i as int);
                }
                walk(prefix, &a[i], out);
                assert(text::texts(out@).to_set() =~= before.union(
                    found_item_keys(prefix@, all, (i + 1) as nat),
                ));
            }
        },
        Json::Text(s) => {
            match try_parse_json_str(s.as_str()) {
                Some(parsed) => {
                    walk(prefix, &parsed, out);
                },
                None => {
                    assert(before =~= before.union(found_keys(prefix@, j@)));
                },
            }
        },
        _ => {
            assert(before =~= before.union(found_keys(prefix@, j@)));
        },
    }
}

/// The names of the numbers in a message, ascending.
pub fn discover_numeric_keys(v: &Json) -> (r: Vec<String>)
    ensures
        text::ascending(text::texts(r@)),
        text::texts(r@).to_set() == found_keys(seq![], telemetry::root(v@)),
{
    let mut out: Vec<String> = Vec::new();
    proof {
        reveal_strlit("");
    }
    assert(""@ == Seq::<char>::empty());
    assert(text::texts(out@).to_set().union(found_keys(seq![], telemetry::root(v@)))
        =~= found_keys(seq![], telemetry::root(v@)));
    match v.get("payload") {
        Some(p) => walk("", p, &mut out),
        None => walk("", v, &mut out),
    }
    out
}

/// The lines of one record of flight `flight_id`. The database is connected.
pub fn record_lines(db: &OptionalDb, flight_id: &str, record: Record) -> (r: Result<
    Vec<String>,
    String,
>)
    requires
        db.inner is Some,
    ensures
        match r {
            Ok(lines) => db.inner->0.connected && exists|presents: Seq<Moment>|
                presents.len() == 1 && text::texts(lines@) == #[trigger] questdb::batch_lines(
                    db.inner->0.ilp.table@,
                    questdb::batch_tags(flight_id@, "1"@, record@.mode),
                    seq![JsonView::Object(record@.fields)],
                    record@.time_field,
                    presents,
                ),
            Err(e) => !db.inner->0.connected && e@ == "Not connected to QuestDB"@,
        },
{
    let ghost held = record@;
    let ghost fields = held.fields;
    let object = Json::Object(record.fields);
    proof {
        json::lemma_views(object);
    }
    let records: Vec<Json> = vec![object];
    assert(json::values(records@) == seq![JsonView::Object(fields)]);
    let mode = match &record.mode {
        Some(m) => Some(m.as_str()),
        None => None,
    };
    let time_field = match &record.time_field {
        Some(t) => Some(t.as_str()),
        None => None,
    };
    assert(questdb::all_objects(seq![JsonView::Object(fields)]));
    assert(text::optional(mode) == held.mode);
    assert(text::optional(time_field) == held.time_field);
    db.ingest_telemetry_batch(flight_id, "1", mode, &records, time_field)
}

/// Every packet that is text gives a message, and no other does.
pub proof fn law_text_packets(bytes: Seq<u8>)
    ensures
        text_packet_message(bytes) is Some <==> vstd::utf8::valid_utf8(bytes),
        text_packet_message(bytes) matches Some(m) ==> telemetry::is_message(m),
{
    let t = vstd::utf8::decode_utf8(bytes);
    match json::json_of_text(t) {
        Some(j) => telemetry::law_normalized_is_message(j),
        None => telemetry::lemma_telemetry_is_message(JsonView::Text(t)),
    }
}

/// A number is found under the name it stands under, whole or not; one without a
/// name is not.
pub proof fn law_number_is_found(prefix: Seq<char>, n: NumberView)
    ensures
        prefix.len() > 0 ==> found_keys(prefix, JsonView::Number(n)) == Set::<Seq<char>>::empty().insert(
            prefix,
        ),
        prefix.len() == 0 ==> found_keys(prefix, JsonView::Number(n)) == Set::<Seq<char>>::empty(),
{
}

/// What holds no number holds no field.
pub proof fn law_no_number_no_field(prefix: Seq<char>, b: bool)
    ensures
        found_keys(prefix, JsonView::Null) == Set::<Seq<char>>::empty(),
        found_keys(prefix, JsonView::Bool(b)) == Set::<Seq<char>>::empty(),
{
}

/// The fields of an array are those of its items, under the same name.
pub proof fn law_fields_of_array(prefix: Seq<char>, a: Seq<JsonView>, key: Seq<char>)
    ensures
        found_keys(prefix, JsonView::Array(a)).contains(key) <==> exists|i: int|
            0 <= i < a.len() && #[trigger] found_keys(prefix, a[i]).contains(key),
{
    lemma_fields_of_items(prefix, a, key, a.len());
}

proof fn lemma_fields_of_items(prefix: Seq<char>, a: Seq<JsonView>, key: Seq<char>, n: nat)
    requires
        n <= a.len(),
    ensures
        found_item_keys(prefix, a, n).contains(key) <==> exists|i: int|
            0 <= i < n && #[trigger] found_keys(prefix, a[i]).contains(key),
    decreases n,
{
    if n > 0 {
        lemma_fields_of_items(prefix, a, key, (n - 1) as nat);
        let here = found_keys(prefix, a[n - 1]);
        assert(found_item_keys(prefix, a, n) == found_item_keys(prefix, a, (n - 1) as nat).union(here));
        if found_item_keys(prefix, a, (n - 1) as nat).contains(key) {
            let i = choose|i: int| 0 <= i < n - 1 && #[trigger] found_keys(prefix, a[i]).contains(key);
            assert(0 <= i < n && found_keys(prefix, a[i]).contains(key));
        } else if here.contains(key) {
            assert(0 <= n - 1 < n && found_keys(prefix, a[n - 1]).contains(key));
        }
        if exists|i: int| 0 <= i < n && #[trigger] found_keys(prefix, a[i]).contains(key) {
            let i = choose|i: int| 0 <= i < n && #[trigger] found_keys(prefix, a[i]).contains(key);
            if i < n - 1 {
                assert(found_keys(prefix, a[i]).contains(key));
            }
        }
    }
}

/// The fields of an object are those of its members, each under the name of the
/// member, behind that of the object and a point where the object has one. A
/// number that is a member is found under its name, whole or not.
pub proof fn law_fields_of_object(
    prefix: Seq<char>,
    e: Seq<(Seq<char>, JsonView)>,
    key: Seq<char>,
)
    ensures
        found_keys(prefix, JsonView::Object(e)).contains(key) <==> exists|i: int|
            0 <= i < e.len() && #[trigger] holds_field(prefix, e[i].0, e[i].1, key),
{
    lemma_fields_of_members(prefix, e, key, e.len());
}

/// The member `value` named `name`, of what is named `prefix`, holds the field
/// `key`.
pub open spec fn holds_field(
    prefix: Seq<char>,
    name: Seq<char>,
    value: JsonView,
    key: Seq<char>,
) -> bool {
    let own = if prefix.len() == 0 {
        name
    } else {
        prefix + seq!['.'] + name
    };
    if value is Number {
        key == own
    } else {
        found_keys(own, value).contains(key)
    }
}

proof fn lemma_fields_of_members(
    prefix: Seq<char>,
    e: Seq<(Seq<char>, JsonView)>,
    key: Seq<char>,
    n: nat,
)
    requires
        n <= e.len(),
    ensures
        found_member_keys(prefix, e, n).contains(key) <==> exists|i: int|
            0 <= i < n && #[trigger] holds_field(prefix, e[i].0, e[i].1, key),
    decreases n,
{
    reveal_strlit(".");
    assert("."@ == seq!['.']);
    if n > 0 {
        lemma_fields_of_members(prefix, e, key, (n - 1) as nat);
        let before = found_member_keys(prefix, e, (n - 1) as nat);
        let all = found_member_keys(prefix, e, n);
        assert(all.contains(key) <==> before.contains(key) || holds_field(
            prefix,
            e[n - 1].0,
            e[n - 1].1,
            key,
        ));
        if before.contains(key) {
            let i = choose|i: int|
                0 <= i < n - 1 && #[trigger] holds_field(prefix, e[i].0, e[i].1, key);
            assert(0 <= i < n && holds_field(prefix, e[i].0, e[i].1, key));
        } else if all.contains(key) {
            assert(0 <= n - 1 < n && holds_field(prefix, e[n - 1].0, e[n - 1].1, key));
        }
        if exists|i: int| 0 <= i < n && #[trigger] holds_field(prefix, e[i].0, e[i].1, key) {
            let i = choose|i: int|
                0 <= i < n && #[trigger] holds_field(prefix, e[i].0, e[i].1, key);
            if i < n - 1 {
                assert(holds_field(prefix, e[i].0, e[i].1, key));
            }
        }
    }
}

/// A text that is, behind its white space, a JSON object or array is searched as
/// that, and any other text holds no field.
pub proof fn law_fields_of_text(
    prefix: Seq<char>,
    white: Seq<char>,
    t: Seq<char>,
    inner: JsonView,
)
    requires
        text::all_white(white),
        t.len() > 0 ==> !text::white_space(t[0]),
    ensures
        t.len() > 0 && json::json_of_text(t) == Some(inner) && json::longest(inner) < t.len() && (t[0]
            == '{' || t[0] == '[') ==> found_keys(prefix, JsonView::Text(white + t)) == found_keys(
            prefix,
            inner,
        ),
        t.len() == 0 || json::json_of_text(t) is None || (t[0] != '{' && t[0] != '[') ==> found_keys(
            prefix,
            JsonView::Text(white + t),
        ) == Set::<Seq<char>>::empty(),
{
    text::law_trimmed_start(white, t);
}

/// A packet that is text gives what it is as JSON, normalised, or else itself as
/// the payload of telemetry.
pub proof fn law_text_packet_contents(bytes: Seq<u8>)
    requires
        vstd::utf8::valid_utf8(bytes),
    ensures
        json::json_of_text(vstd::utf8::decode_utf8(bytes)) matches Some(j) ==> text_packet_message(
            bytes,
        ) == Some(telemetry::normalized(j)),
        json::json_of_text(vstd::utf8::decode_utf8(bytes)) is None ==> text_packet_message(
            bytes,
        ) is Some && (text_packet_message(bytes)->0).get("payload"@) == Some(
            JsonView::Text(vstd::utf8::decode_utf8(bytes)),
        ),
{
    telemetry::lemma_telemetry_is_message(JsonView::Text(vstd::utf8::decode_utf8(bytes)));
}

}
