//! Packets from the craft: how they are normalised, which numeric fields they
//! hold, and which records are made of them.

use crate::json;
use crate::json::{Json, JsonNumber, JsonView, NumberView};
use crate::lists;
use crate::questdb;
use crate::questdb::OptionalDb;
use crate::text;
use vstd::prelude::*;

verus! {

/// A telemetry message around `payload`.
pub open spec fn telemetry(payload: JsonView) -> JsonView {
    JsonView::Object(
        seq![("payload"@, payload), ("type"@, JsonView::Text("telemetry"@))],
    )
}

/// `j` says of itself that it is an acknowledgement or telemetry.
pub open spec fn is_message(j: JsonView) -> bool {
    match j.get("type"@) {
        Some(JsonView::Text(t)) => t == "ack"@ || t == "telemetry"@,
        _ => false,
    }
}

/// The message that `j` is, or else is carried by.
pub open spec fn normalized(j: JsonView) -> JsonView {
    if is_message(j) {
        j
    } else {
        telemetry(j)
    }
}

/// The message that a packet gives: its JSON normalised, or its text as the
/// payload of telemetry. A packet that is no text gives none.
pub open spec fn packet_message(bytes: Seq<u8>) -> Option<JsonView> {
    match json::json_of_bytes(bytes) {
        Some(j) => Some(normalized(j)),
        None => if vstd::utf8::valid_utf8(bytes) {
            Some(telemetry(JsonView::Text(vstd::utf8::decode_utf8(bytes))))
        } else {
            None
        },
    }
}

/// Reads bytes as UTF-8, by `std::str::from_utf8`.
#[verifier::external_body]
pub(crate) fn utf8_text(bytes: &[u8]) -> (r: Option<String>)
    ensures
        match r {
            Some(s) => vstd::utf8::valid_utf8(bytes@) && s@ == vstd::utf8::decode_utf8(bytes@),
            None => !vstd::utf8::valid_utf8(bytes@),
        },
{
    std::str::from_utf8(bytes).ok().map(|s| s.to_string())
}

/// A telemetry message around `payload`.
pub fn wrap(payload: Json) -> (r: Json)
    ensures
        r@ == telemetry(payload@),
{
    let members: Vec<(String, Json)> = vec![
        (String::from_str("payload"), payload),
        (String::from_str("type"), Json::Text(String::from_str("telemetry"))),
    ];
    assert(json::entries(members@) == seq![
        ("payload"@, payload@),
        ("type"@, JsonView::Text("telemetry"@)),
    ]);
    let r = Json::Object(members);
    proof {
        json::lemma_views(r);
    }
    r
}

/// The message that `j` is, or else is carried by.
pub fn normalize(j: Json) -> (r: Json)
    ensures
        r@ == normalized(j@),
{
    let known = match j.get("type") {
        Some(Json::Text(t)) => text::same(t.as_str(), "ack") || text::same(t.as_str(), "telemetry"),
        _ => false,
    };
    if known {
        j
    } else {
        wrap(j)
    }
}

/// The message that a packet gives.
pub fn normalize_packet(bytes: &[u8]) -> (r: Option<Json>)
    ensures
        match r {
            Some(j) => packet_message(bytes@) == Some(j@),
            None => packet_message(bytes@) is None,
        },
{
    match json::parse_bytes(bytes) {
        Some(j) => Some(normalize(j)),
        None => match utf8_text(bytes) {
            Some(s) => Some(wrap(Json::Text(s))),
            None => None,
        },
    }
}

/// What is searched for fields: the payload, or else all.
pub open spec fn root(j: JsonView) -> JsonView {
    match j.get("payload"@) {
        Some(p) => p,
        None => j,
    }
}

/// The name of the member `name` of what is named `prefix`.
pub open spec fn member_name(prefix: Seq<char>, name: Seq<char>) -> Seq<char> {
    if prefix.len() == 0 {
        name
    } else {
        prefix + "."@ + name
    }
}

/// `s` looks like a JSON object or array.
pub open spec fn looks_nested(s: Seq<char>) -> bool {
    s.len() > 0 && (s[0] == '{' || s[0] == '[')
}

/// The names of the numbers in `j`, which is itself named `prefix`. The items
/// of an array bear the array's name; a string that holds a JSON object or
/// array is searched as that.
pub open spec fn numeric_keys(prefix: Seq<char>, j: JsonView) -> Set<Seq<char>>
    decreases json::longest(j), j, 0nat,
{
    match j {
        JsonView::Number(_) => if prefix.len() == 0 {
            Set::empty()
        } else {
            Set::empty().insert(prefix)
        },
        JsonView::Object(e) => member_keys(prefix, e, e.len()),
        JsonView::Array(a) => item_keys(prefix, a, a.len()),
        JsonView::Text(s) => match json::json_of_text(s) {
            Some(inner) if looks_nested(s) && json::longest(inner) < s.len() => numeric_keys(
                prefix,
                inner,
            ),
            _ => Set::empty(),
        },
        _ => Set::empty(),
    }
}

/// The names of the numbers in the first `n` members of `e`.
pub open spec fn member_keys(prefix: Seq<char>, e: Seq<(Seq<char>, JsonView)>, n: nat) -> Set<
    Seq<char>,
>
    decreases json::longest_member(e, e.len()), e, n,
{
    if n == 0 || n > e.len() {
        Set::empty()
    } else {
        proof {
            json::lemma_longest_member(e, e.len(), n - 1);
        }
        member_keys(prefix, e, (n - 1) as nat).union(
            numeric_keys(member_name(prefix, e[n - 1].0), e[n - 1].1),
        )
    }
}

/// The names of the numbers in the first `n` items of `a`.
pub open spec fn item_keys(prefix: Seq<char>, a: Seq<JsonView>, n: nat) -> Set<Seq<char>>
    decreases json::longest_item(a, a.len()), a, n,
{
    if n == 0 || n > a.len() {
        Set::empty()
    } else {
        proof {
            json::lemma_longest_item(a, a.len(), n - 1);
        }
        item_keys(prefix, a, (n - 1) as nat).union(numeric_keys(prefix, a[n - 1]))
    }
}

/// The name of the member `name` of what is named `prefix`.
pub(crate) fn name_member(prefix: &str, name: &str) -> (r: String)
    ensures
        r@ == member_name(prefix@, name@),
{
    if prefix.is_empty() {
        String::from_str(name)
    } else {
        let mut r = String::from_str(prefix);
        r.append(".");
        r.append(name);
        r
    }
}

/// Whether `s` looks like a JSON object or array.
pub(crate) fn is_nested(s: &str) -> (r: bool)
    ensures
        r == looks_nested(s@),
{
    let chars = text::chars_of(s);
    chars.len() > 0 && (chars[0] == '{' || chars[0] == '[')
}

/// Adds the names of the numbers in `j` to `out`.
#[verifier::loop_isolation(false)]
fn walk(prefix: &str, j: &Json, out: &mut Vec<String>)
    requires
        text::ascending(text::texts(old(out)@)),
    ensures
        text::ascending(text::texts(final(out)@)),
        text::texts(final(out)@).to_set() == text::texts(old(out)@).to_set().union(
            numeric_keys(prefix@, j@),
        ),
    decreases json::longest(j@), j,
{
    let ghost before = text::texts(out@).to_set();
    proof {
        json::lemma_views(*j);
    }
    match j {
        Json::Number(_) => {
            if !prefix.is_empty() {
                let _ = text::insert_ascending(out, String::from_str(prefix));
                assert(before.insert(prefix@) =~= before.union(numeric_keys(prefix@, j@)));
            } else {
                assert(before =~= before.union(numeric_keys(prefix@, j@)));
            }
        },
        Json::Object(e) => {
            let ghost all = json::entries(e@);
            assert(before =~= before.union(member_keys(prefix@, all, 0)));
            for i in 0..e.len()
                invariant
                    text::ascending(text::texts(out@)),
                    text::texts(out@).to_set() == before.union(member_keys(prefix@, all, i as nat)),
            {
                assert(all[i as int] == (e@[i as int].0@, e@[i as int].1@));
                proof {
                    json::lemma_longest_member(all, all.len(), i as int);
                }
                let name = name_member(prefix, e[i].0.as_str());
                walk(name.as_str(), &e[i].1, out);
                assert(text::texts(out@).to_set() =~= before.union(
                    member_keys(prefix@, all, (i + 1) as nat),
                ));
            }
        },
        Json::Array(a) => {
            let ghost all = json::values(a@);
            assert(before =~= before.union(item_keys(prefix@, all, 0)));
            for i in 0..a.len()
                invariant
                    text::ascending(text::texts(out@)),
                    text::texts(out@).to_set() == before.union(item_keys(prefix@, all, i as nat)),
            {
                assert(all[i as int] == a@[i as int]@);
                proof {
                    json::lemma_longest_item(all, all.len(), i as int);
                }
                walk(prefix, &a[i], out);
                assert(text::texts(out@).to_set() =~= before.union(
                    item_keys(prefix@, all, (i + 1) as nat),
                ));
            }
        },
        Json::Text(s) => {
            let mut inner: Option<Json> = None;
            if is_nested(s.as_str()) {
                inner = json::parse_text(s.as_str());
            }
            match inner {
                Some(parsed) => {
                    walk(prefix, &parsed, out);
                },
                None => {
                    assert(before =~= before.union(numeric_keys(prefix@, j@)));
                },
            }
        },
        _ => {
            assert(before =~= before.union(numeric_keys(prefix@, j@)));
        },
    }
}

/// The names of the numbers in a message, ascending.
pub fn discover_numeric_keys(v: &Json) -> (r: Vec<String>)
    ensures
        text::ascending(text::texts(r@)),
        text::texts(r@).to_set() == numeric_keys(seq![], root(v@)),
{
    let mut out: Vec<String> = Vec::new();
    proof {
        reveal_strlit("");
    }
    assert(""@ == Seq::<char>::empty());
    assert(text::texts(out@).to_set().union(numeric_keys(seq![], root(v@))) =~= numeric_keys(
        seq![],
        root(v@),
    ));
    match v.get("payload") {
        Some(p) => walk("", p, &mut out),
        None => walk("", v, &mut out),
    }
    out
}

/// What is kept of the packets: only the numbers in `allow`, where there is
/// such a list; the names of the time and of the mode, where they are given.
#[derive(Debug)]
pub struct Selection {
    pub allow: Option<Vec<String>>,
    pub time_field: Option<String>,
    pub mode_field: Option<String>,
}

#[verifier::ext_equal]
pub struct SelectionView {
    pub allow: Option<Set<Seq<char>>>,
    pub time_field: Option<Seq<char>>,
    pub mode_field: Option<Seq<char>>,
}

/// The text that an optional string holds.
pub open spec fn held(t: Option<String>) -> Option<Seq<char>> {
    match t {
        Some(s) => Some(s@),
        None => None,
    }
}

impl View for Selection {
    type V = SelectionView;

    open spec fn view(&self) -> SelectionView {
        SelectionView {
            allow: match self.allow {
                Some(list) => Some(text::texts(list@).to_set()),
                None => None,
            },
            time_field: held(self.time_field),
            mode_field: held(self.mode_field),
        }
    }
}

/// The strings among `items`.
pub open spec fn strings(items: Seq<JsonView>) -> Set<Seq<char>> {
    Set::new(|s: Seq<char>| items.contains(JsonView::Text(s)))
}

/// The text of an optional value.
pub open spec fn string_of(j: Option<JsonView>) -> Option<Seq<char>> {
    match j {
        Some(v) => v.string(),
        None => None,
    }
}

/// What a configuration selects. Without one everything is kept; with one that
/// lists no fields nothing is.
pub open spec fn selection(config: Option<JsonView>) -> SelectionView {
    match config {
        None => SelectionView { allow: None, time_field: None, mode_field: None },
        Some(c) => SelectionView {
            allow: Some(
                match c.get("selectedFields"@) {
                    Some(JsonView::Array(a)) => strings(a),
                    _ => Set::empty(),
                },
            ),
            time_field: string_of(json::get2(c, "metadata"@, "timeField"@)),
            mode_field: string_of(json::get2(c, "metadata"@, "modeField"@)),
        },
    }
}

/// The strings among `items`.
#[verifier::loop_isolation(false)]
pub(crate) fn collect_strings(items: &Vec<Json>) -> (r: Vec<String>)
    ensures
        text::texts(r@).to_set() == strings(json::values(items@)),
{
    let ghost all = json::values(items@);
    let mut r: Vec<String> = Vec::new();
    assert(text::texts(r@).to_set() =~= strings(all.take(0)));
    for i in 0..items.len()
        invariant
            text::texts(r@).to_set() == strings(all.take(i as int)),
    {
        let ghost before = text::texts(r@);
        let ghost shorter = all.take(i as int);
        let ghost longer = all.take(i + 1);
        assert(longer == shorter.push(all[i as int]));
        assert(all[i as int] == items@[i as int]@);
        assert forall|v: JsonView| longer.contains(v) <==> (shorter.contains(v) || v == all[i as int]) by {
            if shorter.contains(v) {
                let k = choose|k: int| 0 <= k < shorter.len() && shorter[k] == v;
                assert(longer[k] == v);
            }
            assert(longer[i as int] == all[i as int]);
        }
        match &items[i] {
            Json::Text(s) => {
                r.push(s.clone());
                let ghost after = text::texts(r@);
                assert(after == before.push(s@));
                assert forall|t: Seq<char>| after.contains(t) <==> (before.contains(t) || t == s@) by {
                    if before.contains(t) {
                        let k = choose|k: int| 0 <= k < before.len() && before[k] == t;
                        assert(after[k] == t);
                    }
                    assert(after[before.len() as int] == s@);
                }
                assert forall|t: Seq<char>| before.contains(t) <==> shorter.contains(JsonView::Text(t)) by {
                    assert(before.to_set().contains(t) <==> strings(shorter).contains(t));
                }
                assert(after.to_set() =~= strings(longer));
            },
            _ => {
                assert(strings(longer) =~= strings(shorter));
            },
        }
    }
    assert(all.take(items@.len() as int) == all);
    r
}

impl Selection {
    /// What a configuration selects.
    pub fn of_config(config: Option<&Json>) -> (r: Selection)
        ensures
            r@ == selection(
                match config {
                    Some(c) => Some(c@),
                    None => None,
                },
            ),
    {
        match config {
            None => Selection { allow: None, time_field: None, mode_field: None },
            Some(c) => {
                let allow = match c.get("selectedFields") {
                    Some(Json::Array(a)) => {
                        proof {
                            json::lemma_views(Json::Array(*a));
                        }
                        collect_strings(a)
                    },
                    _ => {
                        let none: Vec<String> = Vec::new();
                        assert(text::texts(none@).to_set() =~= Set::empty());
                        none
                    },
                };
                let time_field = match c.get2("metadata", "timeField") {
                    Some(Json::Text(s)) => Some(s.clone()),
                    _ => None,
                };
                let mode_field = match c.get2("metadata", "modeField") {
                    Some(Json::Text(s)) => Some(s.clone()),
                    _ => None,
                };
                Selection { allow: Some(allow), time_field, mode_field }
            },
        }
    }
}

/// `name` names the time, given the name that was chosen for it.
pub open spec fn is_time_name(name: Seq<char>, chosen: Option<Seq<char>>) -> bool {
    (chosen == Some(name) && name.len() > 0) || name == "time"@ || name == "timestamp"@ || name == "ts"@ || name == "Time"@ || name == "Timestamp"@ || name == "TS"@
}

/// `name` names the mode, given the name that was chosen for it.
pub open spec fn is_mode_name(name: Seq<char>, chosen: Option<Seq<char>>) -> bool {
    (chosen == Some(name) && name.len() > 0) || name == "mode"@ || name == "modo"@ || name == "modoActual"@ || name == "Mode"@ || name == "MODE"@
}

/// The text of a mode: a string or a number.
pub open spec fn mode_text(j: JsonView) -> Option<Seq<char>> {
    match j {
        JsonView::Text(s) => Some(s),
        JsonView::Number(NumberView::Int(i)) => Some(text::int_text(i as int)),
        JsonView::Number(NumberView::Real(x)) => Some(x.plain),
        _ => None,
    }
}

/// The place of the first of the first `n` entries that names the time.
pub open spec fn time_place(
    e: Seq<(Seq<char>, JsonView)>,
    s: SelectionView,
    n: nat,
) -> Option<nat>
    decreases n,
{
    if n == 0 {
        None
    } else {
        match time_place(e, s, (n - 1) as nat) {
            Some(i) => Some(i),
            None => if is_time_name(e[n - 1].0, s.time_field) {
                Some((n - 1) as nat)
            } else {
                None
            },
        }
    }
}

/// The place of the first of the first `n` entries, but for the time, that
/// names the mode and has a text.
pub open spec fn mode_place(
    e: Seq<(Seq<char>, JsonView)>,
    s: SelectionView,
    n: nat,
) -> Option<nat>
    decreases n,
{
    if n == 0 {
        None
    } else {
        match mode_place(e, s, (n - 1) as nat) {
            Some(i) => Some(i),
            None => if time_place(e, s, n) != Some((n - 1) as nat) && is_mode_name(
                e[n - 1].0,
                s.mode_field,
            ) && mode_text(e[n - 1].1) is Some {
                Some((n - 1) as nat)
            } else {
                None
            },
        }
    }
}

/// `name` is among the fields that are kept.
pub open spec fn allowed(name: Seq<char>, s: SelectionView) -> bool {
    match s.allow {
        Some(list) => list.contains(name),
        None => true,
    }
}

/// The fields of the first `n` entries: the numbers that are kept, but for the
/// time and the mode.
pub open spec fn record_fields(
    e: Seq<(Seq<char>, JsonView)>,
    s: SelectionView,
    n: nat,
) -> Seq<(Seq<char>, JsonView)>
    decreases n,
{
    if n == 0 {
        seq![]
    } else {
        let rest = record_fields(e, s, (n - 1) as nat);
        let own = Some((n - 1) as nat);
        if e[n - 1].1 is Number && time_place(e, s, n) != own && mode_place(e, s, n) != own && allowed(
            e[n - 1].0,
            s,
        ) {
            json::put(rest, e[n - 1].0, e[n - 1].1)
        } else {
            rest
        }
    }
}

/// The entries that a record is made of: those of the payload, where that is an
/// object, or else those of the value itself.
pub open spec fn record_entries(j: JsonView) -> Option<Seq<(Seq<char>, JsonView)>> {
    match j {
        JsonView::Object(e) => match j.get("payload"@) {
            Some(JsonView::Object(p)) => Some(p),
            _ => Some(e),
        },
        _ => None,
    }
}

/// What a record holds: its fields, the name of its time, the text of its mode.
#[verifier::ext_equal]
pub struct RecordView {
    pub fields: Seq<(Seq<char>, JsonView)>,
    pub time_field: Option<Seq<char>>,
    pub mode: Option<Seq<char>>,
}

/// A record: its fields, the name of its time, the text of its mode.
#[derive(Debug)]
pub struct Record {
    pub fields: Vec<(String, Json)>,
    pub time_field: Option<String>,
    pub mode: Option<String>,
}

impl View for Record {
    type V = RecordView;

    open spec fn view(&self) -> RecordView {
        RecordView {
            fields: json::entries(self.fields@),
            time_field: held(self.time_field),
            mode: held(self.mode),
        }
    }
}

/// The record that a value gives, where any field of it is kept.
pub open spec fn record_of(j: JsonView, s: SelectionView) -> Option<RecordView> {
    match record_entries(j) {
        None => None,
        Some(e) => {
            let fields = record_fields(e, s, e.len());
            if fields.len() == 0 {
                None
            } else {
                Some(
                    RecordView {
                        fields,
                        time_field: match time_place(e, s, e.len()) {
                            Some(i) => Some(e[i as int].0),
                            None => None,
                        },
                        mode: match mode_place(e, s, e.len()) {
                            Some(i) => mode_text(e[i as int].1),
                            None => None,
                        },
                    },
                )
            }
        },
    }
}

/// Whether `name` is the name that was chosen.
fn is_chosen(name: &str, chosen: &Option<String>) -> (r: bool)
    ensures
        r == (held(*chosen) == Some(name@) && name@.len() > 0),
{
    match chosen {
        Some(c) => text::same(name, c.as_str()) && !name.is_empty(),
        None => false,
    }
}

/// Whether `name` names the time.
fn names_time(name: &str, chosen: &Option<String>) -> (r: bool)
    ensures
        r == is_time_name(name@, held(*chosen)),
{
    is_chosen(name, chosen) || text::same(name, "time") || text::same(name, "timestamp") || text::same(name, "ts") || text::same(name, "Time") || text::same(name, "Timestamp") || text::same(name, "TS")
}

/// Whether `name` names the mode.
fn names_mode(name: &str, chosen: &Option<String>) -> (r: bool)
    ensures
        r == is_mode_name(name@, held(*chosen)),
{
    is_chosen(name, chosen) || text::same(name, "mode") || text::same(name, "modo") || text::same(name, "modoActual") || text::same(name, "Mode") || text::same(name, "MODE")
}

/// The text of a mode.
fn text_of_mode(j: &Json) -> (r: Option<String>)
    ensures
        held(r) == mode_text(j@),
{
    match j {
        Json::Text(s) => Some(s.clone()),
        Json::Number(JsonNumber::Int(i)) => Some(text::int_to_text(*i)),
        Json::Number(JsonNumber::Real(x)) => Some(x.plain.clone()),
        _ => None,
    }
}

/// The record that a value gives, where any field of it is kept.
#[verifier::loop_isolation(false)]
pub fn extract_numeric_record_and_time(v: &Json, selected: &Selection) -> (r: Option<Record>)
    ensures
        match r {
            Some(rec) => record_of(v@, selected@) == Some(rec@),
            None => record_of(v@, selected@) is None,
        },
{
    proof {
        json::lemma_views(*v);
    }
    let members = match v {
        Json::Object(e) => match v.get("payload") {
            Some(Json::Object(p)) => {
                proof {
                    json::lemma_views(Json::Object(*p));
                }
                p
            },
            _ => e,
        },
        _ => {
            return None;
        },
    };
    let ghost all = json::entries(members@);
    let ghost sel = selected@;
    assert(record_entries(v@) == Some(all));
    let mut fields: Vec<(String, Json)> = Vec::new();
    let mut time_at: Option<usize> = None;
    let mut mode_at: Option<usize> = None;
    let mut mode: Option<String> = None;
    for i in 0..members.len()
        invariant
            json::entries(fields@) == record_fields(all, sel, i as nat),
            match time_at {
                Some(k) => k < i && time_place(all, sel, i as nat) == Some(k as nat),
                None => time_place(all, sel, i as nat) is None,
            },
            match mode_at {
                Some(k) => k < i && mode_place(all, sel, i as nat) == Some(k as nat) && held(mode)
                    == mode_text(all[k as int].1),
                None => mode_place(all, sel, i as nat) is None && mode is None,
            },
    {
        let name = members[i].0.as_str();
        let value = &members[i].1;
        assert(all[i as int] == (name@, value@));
        if time_at.is_none() && names_time(name, &selected.time_field) {
            time_at = Some(i);
        } else if mode_at.is_none() && names_mode(name, &selected.mode_field) {
            let t = text_of_mode(value);
            if t.is_some() {
                mode = t;
                mode_at = Some(i);
            }
        } else {
            let kept = match &selected.allow {
                Some(list) => text::listed(list, name),
                None => true,
            };
            assert(kept == allowed(name@, sel));
            if kept && value.is_number() {
                json::put_entry(&mut fields, String::from_str(name), value.clone());
            }
        }
    }
    assert(json::entries(fields@).len() == fields@.len());
    if fields.len() == 0 {
        return None;
    }
    let time_field = match time_at {
        Some(k) => Some(members[k].0.clone()),
        None => None,
    };
    Some(Record { fields, time_field, mode })
}

/// The records that the first `n` items of `a` give.
pub open spec fn item_records(a: Seq<JsonView>, s: SelectionView, n: nat) -> Seq<JsonView>
    decreases n,
{
    if n == 0 {
        seq![]
    } else {
        let rest = item_records(a, s, (n - 1) as nat);
        match record_of(a[n - 1], s) {
            Some(r) => rest.push(JsonView::Object(r.fields)),
            None => rest,
        }
    }
}

/// The records that a message gives: one for each item of its payload, where
/// that is an array, or else one.
pub open spec fn message_records(j: JsonView, s: SelectionView) -> Seq<JsonView> {
    match j.get("payload"@) {
        Some(JsonView::Array(a)) => item_records(a, s, a.len()),
        _ => item_records(seq![j], s, 1),
    }
}

/// Adds the record that `one` gives to `batch`.
fn push_numeric(one: &Json, selected: &Selection, batch: &mut Vec<Json>)
    ensures
        json::values(final(batch)@) == (match record_of(one@, selected@) {
            Some(r) => json::values(old(batch)@).push(JsonView::Object(r.fields)),
            None => json::values(old(batch)@),
        }),
{
    match extract_numeric_record_and_time(one, selected) {
        Some(rec) => {
            let ghost before = json::values(batch@);
            let ghost fields = json::entries(rec.fields@);
            let object = Json::Object(rec.fields);
            proof {
                json::lemma_views(object);
            }
            batch.push(object);
            assert(json::values(batch@) == before.push(JsonView::Object(fields)));
        },
        None => {},
    }
}

/// Adds the records that a message gives to `batch`.
#[verifier::loop_isolation(false)]
pub fn push_records(message: &Json, selected: &Selection, batch: &mut Vec<Json>)
    ensures
        json::values(final(batch)@) == json::values(old(batch)@) + message_records(
            message@,
            selected@,
        ),
{
    let ghost before = json::values(batch@);
    let ghost sel = selected@;
    match message.get("payload") {
        Some(Json::Array(a)) => {
            proof {
                json::lemma_views(Json::Array(*a));
            }
            let ghost all = json::values(a@);
            assert(before == before + item_records(all, sel, 0));
            for i in 0..a.len()
                invariant
                    json::values(batch@) == before + item_records(all, sel, i as nat),
            {
                assert(all[i as int] == a@[i as int]@);
                push_numeric(&a[i], selected, batch);
                assert(json::values(batch@) == before + item_records(all, sel, (i + 1) as nat));
            }
        },
        _ => {
            push_numeric(message, selected, batch);
            let ghost one = seq![message@];
            assert(item_records(one, sel, 0) == Seq::<JsonView>::empty());
            assert(json::values(batch@) == before + item_records(one, sel, 1));
        },
    }
}

/// One message in so many is searched for new fields.
pub const FIELDS_SAMPLE_EVERY: u64 = 50;

/// A batch of so many records is stored at once.
pub const BATCH_MAX: usize = 1500;

/// A batch is stored after so many milliseconds.
pub const BATCH_MS: u64 = 250;

/// The names of the numbers in a message, where its turn has come to be
/// searched: `ticket` counts the messages.
pub fn sampled_keys(ticket: u64, message: &Json) -> (r: Vec<String>)
    ensures
        ticket % FIELDS_SAMPLE_EVERY == 0 ==> text::ascending(text::texts(r@)) && text::texts(
            r@,
        ).to_set() == numeric_keys(seq![], root(message@)),
        ticket % FIELDS_SAMPLE_EVERY != 0 ==> r@.len() == 0,
{
    if ticket % FIELDS_SAMPLE_EVERY == 0 {
        discover_numeric_keys(message)
    } else {
        Vec::new()
    }
}

/// Whether a batch is stored after a packet: it is full, or `elapsed_ns`
/// nanoseconds since the last time are enough.
pub fn flush_due(batch: &Vec<Json>, elapsed_ns: u128) -> (r: bool)
    ensures
        r == (batch@.len() >= 1500 || elapsed_ns > 250_000_000),
{
    batch.len() >= BATCH_MAX || elapsed_ns > BATCH_MS as u128 * 1_000_000
}

/// Whether a batch is stored when the clock ticks.
pub fn tick_due(batch: &Vec<Json>) -> (r: bool)
    ensures
        r == (batch@.len() > 0),
{
    batch.len() > 0
}

/// Whether a batch is written at all: some flight is on, and there is a record.
pub fn ingest_due(flight_id: Option<&str>, batch: &Vec<Json>) -> (r: bool)
    ensures
        r == (flight_id is Some && batch@.len() > 0),
{
    flight_id.is_some() && batch.len() > 0
}

/// The lines of a batch of flight `flight_id`. The database is connected.
pub fn flush_lines(db: &OptionalDb, flight_id: &str, batch: &Vec<Json>) -> (r: Result<
    Vec<String>,
    String,
>)
    requires
        db.inner is Some,
    ensures
        match r {
            Ok(lines) => db.inner->0.connected && questdb::all_objects(json::values(batch@))
                && exists|presents: Seq<crate::clock::Moment>|
                presents.len() == batch@.len() && text::texts(lines@)
                    == #[trigger] questdb::batch_lines(
                    db.inner->0.ilp.table@,
                    questdb::batch_tags(flight_id@, "1"@, None),
                    json::values(batch@),
                    Some("timestamp"@),
                    presents,
                ),
            Err(e) => if !db.inner->0.connected {
                e@ == "Not connected to QuestDB"@
            } else {
                !questdb::all_objects(json::values(batch@)) && e@ == "record is not a JSON object"@
            },
        },
{
    db.ingest_telemetry_batch(flight_id, "1", None, batch, Some("timestamp"))
}

/// Ends the storing of a batch. What could not be written stays for the next
/// time; without an attempt, or after one that succeeded, the batch is empty.
pub fn flush_batch(batch: &mut Vec<Json>, written: Option<Result<usize, String>>) -> (r: Result<
    (),
    String,
>)
    ensures
        match written {
            Some(Err(why)) => final(batch)@ == old(batch)@ && r is Err && r->Err_0@
                == "Failed to ingest batch: "@ + why@,
            _ => final(batch)@.len() == 0 && r is Ok,
        },
{
    match written {
        Some(Err(why)) => {
            let mut e = String::from_str("Failed to ingest batch: ");
            e.append(why.as_str());
            Err(e)
        },
        _ => {
            batch.clear();
            Ok(())
        },
    }
}

/// Deals packets out to workers in turn.
#[derive(Debug, PartialEq, Eq, Clone, Copy)]
pub struct Dispatcher {
    pub next: usize,
}

impl Dispatcher {
    /// A dispatcher that begins with the first worker.
    pub fn new() -> (r: Dispatcher)
        ensures
            r.next == 0,
    {
        Dispatcher { next: 0 }
    }

    /// The worker that the next packet goes to.
    pub fn pick(&mut self, workers: usize) -> (r: usize)
        requires
            workers > 0,
        ensures
            r == old(self).next % workers,
            final(self).next == (if old(self).next == usize::MAX {
                0
            } else {
                old(self).next + 1
            }),
    {
        let r: usize = self.next % workers;
        self.next = self.next.wrapping_add(1);
        r
    }
}

/// Whether a line that was typed ends the program.
pub fn is_exit(line: &str) -> (r: bool)
    ensures
        r == text::same_ignoring_case(text::trimmed(line@), "exit"@),
{
    text::alike(text::trim(line).as_str(), "exit")
}

/// The word `exit` ends the program, in whatever case it is typed and with
/// whatever white space around it.
pub proof fn law_exit(before: Seq<char>, word: Seq<char>, after: Seq<char>)
    requires
        text::all_white(before),
        text::all_white(after),
        text::same_ignoring_case(word, "exit"@),
    ensures
        text::same_ignoring_case(text::trimmed(before + word + after), "exit"@),
{
    reveal_strlit("exit");
    assert(text::lower_ascii(word[0]) == 'e');
    assert(text::lower_ascii(word[3]) == 't');
    text::law_trimmed(before, word, after);
}

/// `given`, or else `default`.
fn or_default(given: Option<String>, default: &str) -> (r: String)
    ensures
        r@ == (match given {
            Some(s) => s@,
            None => default@,
        }),
{
    match given {
        Some(s) => s,
        None => String::from_str(default),
    }
}

/// How the database is reached, given what the environment says.
pub fn database_config(
    host: Option<String>,
    port: Option<String>,
    user: Option<String>,
    password: Option<String>,
    database: Option<String>,
) -> (r: questdb::QuestDbConfig)
    ensures
        r.host@ == (match host {
            Some(s) => s@,
            None => "127.0.0.1"@,
        }),
        r.port as nat == (match port {
            Some(s) => match text::decimal_value(s@) {
                Some(n) if n <= u16::MAX => n,
                _ => 8812,
            },
            None => 8812,
        }),
        r.user@ == (match user {
            Some(s) => s@,
            None => "admin"@,
        }),
        r.password@ == (match password {
            Some(s) => s@,
            None => "quest"@,
        }),
        r.database@ == (match database {
            Some(s) => s@,
            None => "qdb"@,
        }),
        r.table_name matches Some(t) && t@ == "flight_telemetry"@,
        r.time_col matches Some(t) && t@ == "timestamp"@,
{
    let port: u16 = match port {
        Some(s) => match text::read_port(s.as_str()) {
            Some(p) => p,
            None => 8812,
        },
        None => 8812,
    };
    questdb::QuestDbConfig {
        host: or_default(host, "127.0.0.1"),
        port,
        user: or_default(user, "admin"),
        password: or_default(password, "quest"),
        database: or_default(database, "qdb"),
        table_name: Some(String::from_str("flight_telemetry")),
        time_col: Some(String::from_str("timestamp")),
    }
}

/// A message that was made of anything says that it is one.
pub proof fn law_normalized_is_message(j: JsonView)
    ensures
        is_message(normalized(j)),
        normalized(normalized(j)) == normalized(j),
{
    lemma_telemetry_is_message(j);
}

/// Telemetry is a message.
pub proof fn lemma_telemetry_is_message(payload: JsonView)
    ensures
        is_message(telemetry(payload)),
        telemetry(payload).get("payload"@) == Some(payload),
{
    reveal_strlit("payload");
    reveal_strlit("type");
    let e = seq![("payload"@, payload), ("type"@, JsonView::Text("telemetry"@))];
    assert("payload"@.len() != "type"@.len());
    assert(e[0].0 != "type"@);
    assert(e.drop_first()[0] == e[1]);
    assert(json::lookup(e, "type"@) == json::lookup(e.drop_first(), "type"@));
}

/// Whatever a packet gives is a message, and a packet that is text gives one.
pub proof fn law_packet_message(bytes: Seq<u8>)
    ensures
        packet_message(bytes) matches Some(m) ==> is_message(m),
        vstd::utf8::valid_utf8(bytes) ==> packet_message(bytes) is Some,
{
    match json::json_of_bytes(bytes) {
        Some(j) => law_normalized_is_message(j),
        None => lemma_telemetry_is_message(JsonView::Text(vstd::utf8::decode_utf8(bytes))),
    }
}

/// A field that is found has a name.
pub proof fn law_keys_have_names(prefix: Seq<char>, j: JsonView)
    ensures
        !numeric_keys(prefix, j).contains(seq![]),
    decreases json::longest(j), j, 0nat,
{
    match j {
        JsonView::Object(e) => lemma_member_keys_have_names(prefix, e, e.len()),
        JsonView::Array(a) => lemma_item_keys_have_names(prefix, a, a.len()),
        JsonView::Text(s) => match json::json_of_text(s) {
            Some(inner) if looks_nested(s) && json::longest(inner) < s.len() => {
                law_keys_have_names(prefix, inner);
            },
            _ => {},
        },
        _ => {},
    }
}

proof fn lemma_member_keys_have_names(prefix: Seq<char>, e: Seq<(Seq<char>, JsonView)>, n: nat)
    requires
        n <= e.len(),
    ensures
        !member_keys(prefix, e, n).contains(seq![]),
    decreases json::longest_member(e, e.len()), e, n,
{
    if n > 0 {
        json::lemma_longest_member(e, e.len(), n - 1);
        lemma_member_keys_have_names(prefix, e, (n - 1) as nat);
        law_keys_have_names(member_name(prefix, e[n - 1].0), e[n - 1].1);
    }
}

proof fn lemma_item_keys_have_names(prefix: Seq<char>, a: Seq<JsonView>, n: nat)
    requires
        n <= a.len(),
    ensures
        !item_keys(prefix, a, n).contains(seq![]),
    decreases json::longest_item(a, a.len()), a, n,
{
    if n > 0 {
        json::lemma_longest_item(a, a.len(), n - 1);
        lemma_item_keys_have_names(prefix, a, (n - 1) as nat);
        law_keys_have_names(prefix, a[n - 1]);
    }
}

/// What a record keeps under a name is a number that stands under that name
/// in what it was made of, and the selection allows it.
pub proof fn law_kept_fields(
    e: Seq<(Seq<char>, JsonView)>,
    s: SelectionView,
    n: nat,
    name: Seq<char>,
)
    requires
        n <= e.len(),
    ensures
        json::lookup(record_fields(e, s, n), name) matches Some(v) ==> v is Number && allowed(name, s)
            && e.contains((name, v)),
    decreases n,
{
    if n > 0 {
        law_kept_fields(e, s, (n - 1) as nat, name);
        let rest = record_fields(e, s, (n - 1) as nat);
        json::law_put_then_lookup(rest, e[n - 1].0, e[n - 1].1, name);
        assert(e.contains(e[n - 1]));
    }
}

/// A configuration that lists no fields keeps no record.
pub proof fn law_empty_selection(j: JsonView, s: SelectionView)
    requires
        s.allow == Some(Set::<Seq<char>>::empty()),
    ensures
        record_of(j, s) is None,
{
    match record_entries(j) {
        Some(e) => lemma_nothing_kept(e, s, e.len()),
        None => {},
    }
}

proof fn lemma_nothing_kept(e: Seq<(Seq<char>, JsonView)>, s: SelectionView, n: nat)
    requires
        s.allow == Some(Set::<Seq<char>>::empty()),
    ensures
        record_fields(e, s, n).len() == 0,
    decreases n,
{
    if n > 0 {
        lemma_nothing_kept(e, s, (n - 1) as nat);
    }
}

/// What packets add to a batch can be written: every record is an object.
pub proof fn law_records_are_objects(j: JsonView, s: SelectionView)
    ensures
        questdb::all_objects(message_records(j, s)),
{
    match j.get("payload"@) {
        Some(JsonView::Array(a)) => lemma_item_records_are_objects(a, s, a.len()),
        _ => lemma_item_records_are_objects(seq![j], s, 1),
    }
}

proof fn lemma_item_records_are_objects(a: Seq<JsonView>, s: SelectionView, n: nat)
    ensures
        questdb::all_objects(item_records(a, s, n)),
    decreases n,
{
    if n > 0 {
        lemma_item_records_are_objects(a, s, (n - 1) as nat);
    }
}

/// As many packets in a row as there are workers go to different workers.
pub proof fn law_round_robin(next: nat, workers: nat, a: nat, b: nat)
    requires
        a < b < workers,
    ensures
        (next + a) % workers != (next + b) % workers,
{
    if (next + a) % workers == (next + b) % workers {
        vstd::arithmetic::div_mod::lemma_mod_equivalence(
            (next + b) as int,
            (next + a) as int,
            workers as int,
        );
        assert(((b - a) as int) % (workers as int) == 0);
        vstd::arithmetic::div_mod::lemma_small_mod((b - a) as nat, workers);
    }
}

/// Of as many messages in a row as the sample takes one of, exactly one is
/// searched.
pub proof fn law_one_message_sampled(first: nat)
    ensures
        exists|k: nat| k < FIELDS_SAMPLE_EVERY && #[trigger] (first + k) % FIELDS_SAMPLE_EVERY as nat == 0,
        forall|a: nat, b: nat|
            a < b < FIELDS_SAMPLE_EVERY ==> !(#[trigger] ((first + a) % FIELDS_SAMPLE_EVERY as nat) == 0
                && #[trigger] ((first + b) % FIELDS_SAMPLE_EVERY as nat) == 0),
{
    let left = first % 50;
    let k: nat = if left == 0 {
        0
    } else {
        (50 - left) as nat
    };
    assert((first + k) % FIELDS_SAMPLE_EVERY as nat == 0);
}


/// Every number in an item of an array is found, under the name of the array.
pub proof fn law_items_bear_the_name(prefix: Seq<char>, a: Seq<JsonView>, i: int)
    requires
        0 <= i < a.len(),
    ensures
        numeric_keys(prefix, a[i]).subset_of(numeric_keys(prefix, JsonView::Array(a))),
{
    lemma_item_keys_grow(prefix, a, i, a.len());
}

proof fn lemma_item_keys_grow(prefix: Seq<char>, a: Seq<JsonView>, i: int, n: nat)
    requires
        0 <= i < n <= a.len(),
    ensures
        numeric_keys(prefix, a[i]).subset_of(item_keys(prefix, a, n)),
    decreases n,
{
    if i < n - 1 {
        lemma_item_keys_grow(prefix, a, i, (n - 1) as nat);
    }
}

/// Every number in a member of an object is found, under the member's name.
pub proof fn law_members_bear_their_names(
    prefix: Seq<char>,
    e: Seq<(Seq<char>, JsonView)>,
    i: int,
)
    requires
        0 <= i < e.len(),
    ensures
        numeric_keys(member_name(prefix, e[i].0), e[i].1).subset_of(
            numeric_keys(prefix, JsonView::Object(e)),
        ),
{
    lemma_member_keys_grow(prefix, e, i, e.len());
}

proof fn lemma_member_keys_grow(
    prefix: Seq<char>,
    e: Seq<(Seq<char>, JsonView)>,
    i: int,
    n: nat,
)
    requires
        0 <= i < n <= e.len(),
    ensures
        numeric_keys(member_name(prefix, e[i].0), e[i].1).subset_of(member_keys(prefix, e, n)),
    decreases n,
{
    if i < n - 1 {
        lemma_member_keys_grow(prefix, e, i, (n - 1) as nat);
    }
}

/// Of entries whose names ascend, every number that is allowed is kept, unless
/// it was taken as the time or as the mode.
pub proof fn law_allowed_numbers_are_kept(
    e: Seq<(Seq<char>, JsonView)>,
    s: SelectionView,
    n: nat,
    i: int,
)
    requires
        json::ordered(e),
        0 <= i < n <= e.len(),
        e[i].1 is Number,
        allowed(e[i].0, s),
        time_place(e, s, n) != Some(i as nat),
        mode_place(e, s, n) != Some(i as nat),
    ensures
        json::lookup(record_fields(e, s, n), e[i].0) == Some(e[i].1),
    decreases n,
{
    lemma_places_are_early(e, s, n);
    let rest = record_fields(e, s, (n - 1) as nat);
    if i < n - 1 {
        law_allowed_numbers_are_kept(e, s, (n - 1) as nat, i);
        text::lemma_precedes_total(e[i].0, e[n - 1].0);
        json::law_put_then_lookup(rest, e[n - 1].0, e[n - 1].1, e[i].0);
    } else {
        json::law_put_then_lookup(rest, e[n - 1].0, e[n - 1].1, e[i].0);
    }
}

proof fn lemma_places_are_early(e: Seq<(Seq<char>, JsonView)>, s: SelectionView, n: nat)
    ensures
        time_place(e, s, n) matches Some(i) ==> i < n,
        mode_place(e, s, n) matches Some(i) ==> i < n,
    decreases n,
{
    if n > 0 {
        lemma_places_are_early(e, s, (n - 1) as nat);
    }
}


/// What is made of a value whose names ascend has ascending names too.
pub proof fn law_normalized_is_well_ordered(j: JsonView)
    requires
        json::well_ordered(j),
    ensures
        json::well_ordered(normalized(j)),
{
    reveal_strlit("payload");
    reveal_strlit("type");
    let t = JsonView::Text("telemetry"@);
    let e = seq![("payload"@, j), ("type"@, t)];
    assert("payload"@[0] == 'p' && "type"@[0] == 't');
    assert(text::precedes("payload"@, "type"@));
    assert(json::ordered(e));
    assert(json::well_ordered(t));
    assert forall|i: int| 0 <= i < e.len() implies json::well_ordered(#[trigger] e[i].1) by {
        assert(i == 0 || i == 1);
    }
}

/// The fields of a record ascend, each once.
pub proof fn law_record_fields_ascend(e: Seq<(Seq<char>, JsonView)>, s: SelectionView, n: nat)
    ensures
        json::ordered(record_fields(e, s, n)),
    decreases n,
{
    if n > 0 {
        law_record_fields_ascend(e, s, (n - 1) as nat);
        json::law_put_keeps_order(record_fields(e, s, (n - 1) as nat), e[n - 1].0, e[n - 1].1);
    }
}

/// A number is found under the name it stands under, whole or not; one without a
/// name is not.
pub proof fn law_number_is_found(prefix: Seq<char>, n: NumberView)
    ensures
        prefix.len() > 0 ==> numeric_keys(prefix, JsonView::Number(n)) == Set::<Seq<char>>::empty().insert(
            prefix,
        ),
        prefix.len() == 0 ==> numeric_keys(prefix, JsonView::Number(n)) == Set::<Seq<char>>::empty(),
{
}

/// What holds no number holds no field.
pub proof fn law_no_number_no_field(prefix: Seq<char>, b: bool)
    ensures
        numeric_keys(prefix, JsonView::Null) == Set::<Seq<char>>::empty(),
        numeric_keys(prefix, JsonView::Bool(b)) == Set::<Seq<char>>::empty(),
{
}

/// The fields of an array are those of its items, under the same name.
pub proof fn law_fields_of_array(prefix: Seq<char>, a: Seq<JsonView>, key: Seq<char>)
    ensures
        numeric_keys(prefix, JsonView::Array(a)).contains(key) <==> exists|i: int|
            0 <= i < a.len() && #[trigger] numeric_keys(prefix, a[i]).contains(key),
{
    lemma_fields_of_items(prefix, a, key, a.len());
}

proof fn lemma_fields_of_items(prefix: Seq<char>, a: Seq<JsonView>, key: Seq<char>, n: nat)
    requires
        n <= a.len(),
    ensures
        item_keys(prefix, a, n).contains(key) <==> exists|i: int|
            0 <= i < n && #[trigger] numeric_keys(prefix, a[i]).contains(key),
    decreases n,
{
    if n > 0 {
        lemma_fields_of_items(prefix, a, key, (n - 1) as nat);
        let here = numeric_keys(prefix, a[n - 1]);
        assert(item_keys(prefix, a, n) == item_keys(prefix, a, (n - 1) as nat).union(here));
        if item_keys(prefix, a, (n - 1) as nat).contains(key) {
            let i = choose|i: int| 0 <= i < n - 1 && #[trigger] numeric_keys(prefix, a[i]).contains(key);
            assert(0 <= i < n && numeric_keys(prefix, a[i]).contains(key));
        } else if here.contains(key) {
            assert(0 <= n - 1 < n && numeric_keys(prefix, a[n - 1]).contains(key));
        }
        if exists|i: int| 0 <= i < n && #[trigger] numeric_keys(prefix, a[i]).contains(key) {
            let i = choose|i: int| 0 <= i < n && #[trigger] numeric_keys(prefix, a[i]).contains(key);
            if i < n - 1 {
                assert(numeric_keys(prefix, a[i]).contains(key));
            }
        }
    }
}

/// The fields of an object are those of its members, each under the name of the
/// member, behind that of the object and a point where the object has one.
pub proof fn law_fields_of_object(
    prefix: Seq<char>,
    e: Seq<(Seq<char>, JsonView)>,
    key: Seq<char>,
)
    ensures
        prefix.len() == 0 ==> (numeric_keys(prefix, JsonView::Object(e)).contains(key)
            <==> exists|i: int|
            0 <= i < e.len() && #[trigger] numeric_keys(e[i].0, e[i].1).contains(key)),
        prefix.len() > 0 ==> (numeric_keys(prefix, JsonView::Object(e)).contains(key)
            <==> exists|i: int|
            0 <= i < e.len() && #[trigger] numeric_keys(prefix + seq!['.'] + e[i].0, e[i].1).contains(
                key,
            )),
{
    lemma_fields_of_members(prefix, e, key, e.len());
}

proof fn lemma_fields_of_members(
    prefix: Seq<char>,
    e: Seq<(Seq<char>, JsonView)>,
    key: Seq<char>,
    n: nat,
)
    requires
        n <= e.len(),
    ensures
        prefix.len() == 0 ==> (member_keys(prefix, e, n).contains(key) <==> exists|i: int|
            0 <= i < n && #[trigger] numeric_keys(e[i].0, e[i].1).contains(key)),
        prefix.len() > 0 ==> (member_keys(prefix, e, n).contains(key) <==> exists|i: int|
            0 <= i < n && #[trigger] numeric_keys(prefix + seq!['.'] + e[i].0, e[i].1).contains(
                key,
            )),
    decreases n,
{
    reveal_strlit(".");
    assert("."@ == seq!['.']);
    if n > 0 {
        lemma_fields_of_members(prefix, e, key, (n - 1) as nat);
        let before = member_keys(prefix, e, (n - 1) as nat);
        let all = member_keys(prefix, e, n);
        assert(all == before.union(numeric_keys(member_name(prefix, e[n - 1].0), e[n - 1].1)));
        if prefix.len() == 0 {
            if before.contains(key) {
                let i = choose|i: int|
                    0 <= i < n - 1 && #[trigger] numeric_keys(e[i].0, e[i].1).contains(key);
                assert(0 <= i < n && numeric_keys(e[i].0, e[i].1).contains(key));
            } else if all.contains(key) {
                assert(0 <= n - 1 < n && numeric_keys(e[n - 1].0, e[n - 1].1).contains(key));
            }
            if exists|i: int| 0 <= i < n && #[trigger] numeric_keys(e[i].0, e[i].1).contains(key) {
                let i = choose|i: int|
                    0 <= i < n && #[trigger] numeric_keys(e[i].0, e[i].1).contains(key);
                if i < n - 1 {
                    assert(numeric_keys(e[i].0, e[i].1).contains(key));
                }
            }
        } else {
            let dotted = prefix + seq!['.'];
            if before.contains(key) {
                let i = choose|i: int|
                    0 <= i < n - 1 && #[trigger] numeric_keys(dotted + e[i].0, e[i].1).contains(key);
                assert(0 <= i < n && numeric_keys(dotted + e[i].0, e[i].1).contains(key));
            } else if all.contains(key) {
                assert(0 <= n - 1 < n && numeric_keys(dotted + e[n - 1].0, e[n - 1].1).contains(key));
            }
            if exists|i: int|
                0 <= i < n && #[trigger] numeric_keys(dotted + e[i].0, e[i].1).contains(key) {
                let i = choose|i: int|
                    0 <= i < n && #[trigger] numeric_keys(dotted + e[i].0, e[i].1).contains(key);
                if i < n - 1 {
                    assert(numeric_keys(dotted + e[i].0, e[i].1).contains(key));
                }
            }
        }
    }
}

/// A text that is a JSON object or array is searched as that, and any other text
/// holds no field.
pub proof fn law_fields_of_text(prefix: Seq<char>, s: Seq<char>, inner: JsonView)
    ensures
        json::json_of_text(s) == Some(inner) && json::longest(inner) < s.len() && (s[0] == '{' || s[0]
            == '[') ==> numeric_keys(prefix, JsonView::Text(s)) == numeric_keys(prefix, inner),
        json::json_of_text(s) is None ==> numeric_keys(prefix, JsonView::Text(s)) == Set::<
            Seq<char>,
        >::empty(),
        s.len() == 0 || (s[0] != '{' && s[0] != '[') ==> numeric_keys(prefix, JsonView::Text(s))
            == Set::<Seq<char>>::empty(),
{
}

/// What is searched is the payload of a message, or all of what has none.
pub proof fn law_root(j: JsonView)
    ensures
        j.get("payload"@) matches Some(p) ==> root(j) == p,
        j.get("payload"@) is None ==> root(j) == j,
{
}

/// What says that it is an acknowledgement or telemetry stays as it is; anything
/// else becomes the payload of telemetry.
pub proof fn law_normalized(j: JsonView)
    ensures
        j.get("type"@) == Some(JsonView::Text("ack"@)) || j.get("type"@) == Some(
            JsonView::Text("telemetry"@),
        ) ==> normalized(j) == j,
        j.get("type"@) != Some(JsonView::Text("ack"@)) && j.get("type"@) != Some(
            JsonView::Text("telemetry"@),
        ) ==> normalized(j).get("payload"@) == Some(j) && normalized(j).get("type"@) == Some(
            JsonView::Text("telemetry"@),
        ),
{
    reveal_strlit("payload");
    reveal_strlit("type");
    lemma_telemetry_is_message(j);
    let e = seq![("payload"@, j), ("type"@, JsonView::Text("telemetry"@))];
    assert(e.drop_first()[0] == e[1]);
    assert("payload"@.len() != "type"@.len());
    assert(json::lookup(e, "type"@) == json::lookup(e.drop_first(), "type"@));
}

/// A packet that is JSON gives that, normalised; one that is other text gives it
/// as the payload of telemetry; one that is no text gives nothing.
pub proof fn law_packet_contents(bytes: Seq<u8>)
    ensures
        json::json_of_bytes(bytes) matches Some(j) ==> packet_message(bytes) == Some(normalized(j)),
        json::json_of_bytes(bytes) is None && vstd::utf8::valid_utf8(bytes) ==> packet_message(
            bytes,
        ) is Some && (packet_message(bytes)->0).get("payload"@) == Some(
            JsonView::Text(vstd::utf8::decode_utf8(bytes)),
        ) && (packet_message(bytes)->0).get("type"@) == Some(JsonView::Text("telemetry"@)),
        json::json_of_bytes(bytes) is None && !vstd::utf8::valid_utf8(bytes) ==> packet_message(
            bytes,
        ) is None,
{
    reveal_strlit("payload");
    reveal_strlit("type");
    let t = JsonView::Text(vstd::utf8::decode_utf8(bytes));
    lemma_telemetry_is_message(t);
    let e = seq![("payload"@, t), ("type"@, JsonView::Text("telemetry"@))];
    assert(e.drop_first()[0] == e[1]);
    assert("payload"@.len() != "type"@.len());
    assert(json::lookup(e, "type"@) == json::lookup(e.drop_first(), "type"@));
}

/// What a configuration selects: the strings in its list of fields, none where
/// it has no such list, and the names of the time and of the mode in its
/// metadata. Without a configuration every field is selected.
pub proof fn law_selection(c: JsonView, name: Seq<char>)
    ensures
        selection(None).allow is None && selection(None).time_field is None && selection(
            None,
        ).mode_field is None,
        selection(Some(c)).allow is Some,
        c.get("selectedFields"@) matches Some(JsonView::Array(a)) ==> (
        selection(Some(c)).allow->0.contains(name) <==> exists|i: int|
            0 <= i < a.len() && #[trigger] a[i] == JsonView::Text(name)),
        !(c.get("selectedFields"@) matches Some(JsonView::Array(_))) ==> !selection(
            Some(c),
        ).allow->0.contains(name),
        json::get2(c, "metadata"@, "timeField"@) == Some(JsonView::Text(name)) ==> selection(
            Some(c),
        ).time_field == Some(name),
        json::get2(c, "metadata"@, "modeField"@) == Some(JsonView::Text(name)) ==> selection(
            Some(c),
        ).mode_field == Some(name),
        !(json::get2(c, "metadata"@, "timeField"@) matches Some(JsonView::Text(_))) ==> selection(
            Some(c),
        ).time_field is None,
        !(json::get2(c, "metadata"@, "modeField"@) matches Some(JsonView::Text(_))) ==> selection(
            Some(c),
        ).mode_field is None,
{
    match c.get("selectedFields"@) {
        Some(JsonView::Array(a)) => {
            if a.contains(JsonView::Text(name)) {
                let i = choose|i: int| 0 <= i < a.len() && a[i] == JsonView::Text(name);
                assert(a[i] == JsonView::Text(name));
            }
        },
        _ => {},
    }
}

/// `name` names the time: it is what was chosen for that, or one of the usual
/// names.
pub open spec fn says_time(name: Seq<char>, chosen: Option<Seq<char>>) -> bool {
    ||| chosen == Some(name) && name.len() > 0
    ||| name == "time"@ || name == "timestamp"@ || name == "ts"@
    ||| name == "Time"@ || name == "Timestamp"@ || name == "TS"@
}

/// `name` names the mode: it is what was chosen for that, or one of the usual
/// names.
pub open spec fn says_mode(name: Seq<char>, chosen: Option<Seq<char>>) -> bool {
    ||| chosen == Some(name) && name.len() > 0
    ||| name == "mode"@ || name == "modo"@ || name == "modoActual"@
    ||| name == "Mode"@ || name == "MODE"@
}

/// The time of a record is the first entry that names it; there is none exactly
/// where no entry does.
pub proof fn law_time_place(e: Seq<(Seq<char>, JsonView)>, s: SelectionView, n: nat)
    ensures
        match time_place(e, s, n) {
            Some(i) => i < n && says_time(e[i as int].0, s.time_field) && forall|j: int|
                0 <= j < i ==> !says_time((#[trigger] e[j]).0, s.time_field),
            None => forall|j: int| 0 <= j < n ==> !says_time((#[trigger] e[j]).0, s.time_field),
        },
    decreases n,
{
    if n > 0 {
        law_time_place(e, s, (n - 1) as nat);
    }
}

/// Entry `j` can be the mode: it names it, is a string or a number, and is not
/// taken as the time.
pub open spec fn can_be_mode(e: Seq<(Seq<char>, JsonView)>, s: SelectionView, j: int) -> bool {
    &&& says_mode(e[j].0, s.mode_field)
    &&& e[j].1 is Text || e[j].1 is Number
    &&& !(says_time(e[j].0, s.time_field) && forall|k: int|
        0 <= k < j ==> !says_time((#[trigger] e[k]).0, s.time_field))
}

/// The mode of a record is the first entry that can be it; there is none exactly
/// where no entry can.
pub proof fn law_mode_place(e: Seq<(Seq<char>, JsonView)>, s: SelectionView, n: nat)
    ensures
        match mode_place(e, s, n) {
            Some(i) => i < n && can_be_mode(e, s, i as int) && forall|j: int|
                0 <= j < i ==> !#[trigger] can_be_mode(e, s, j),
            None => forall|j: int| 0 <= j < n ==> !#[trigger] can_be_mode(e, s, j),
        },
    decreases n,
{
    if n > 0 {
        law_mode_place(e, s, (n - 1) as nat);
        law_time_place(e, s, n);
        law_time_place(e, s, (n - 1) as nat);
        assert(can_be_mode(e, s, n - 1) <==> (time_place(e, s, n) != Some((n - 1) as nat)
            && is_mode_name(e[n - 1].0, s.mode_field) && mode_text(e[n - 1].1) is Some));
    }
}

/// What is taken as the time or as the mode is no field of the record.
pub proof fn law_time_and_mode_are_no_fields(
    e: Seq<(Seq<char>, JsonView)>,
    s: SelectionView,
    n: nat,
    i: int,
)
    requires
        json::ordered(e),
        0 <= i < n <= e.len(),
        time_place(e, s, n) == Some(i as nat) || mode_place(e, s, n) == Some(i as nat) || !(e[i].1
            is Number) || (s.allow matches Some(list) && !list.contains(e[i].0)),
    ensures
        json::lookup(record_fields(e, s, n), e[i].0) is None,
    decreases n,
{
    let rest = record_fields(e, s, (n - 1) as nat);
    lemma_places_are_early(e, s, n);
    lemma_places_are_early(e, s, (n - 1) as nat);
    if i < n - 1 {
        law_time_and_mode_are_no_fields(e, s, (n - 1) as nat, i);
        text::lemma_precedes_total(e[i].0, e[n - 1].0);
        json::law_put_then_lookup(rest, e[n - 1].0, e[n - 1].1, e[i].0);
    } else {
        if json::lookup(rest, e[i].0) is Some {
            lemma_kept_early(e, s, (n - 1) as nat, e[i].0);
            let k = choose|k: int| 0 <= k < n - 1 && (#[trigger] e[k]).0 == e[i].0;
            text::lemma_precedes_total(e[k].0, e[i].0);
        }
    }
}

/// What is kept of the first entries stands among them.
proof fn lemma_kept_early(
    e: Seq<(Seq<char>, JsonView)>,
    s: SelectionView,
    n: nat,
    name: Seq<char>,
)
    requires
        n <= e.len(),
        json::lookup(record_fields(e, s, n), name) is Some,
    ensures
        exists|k: int| 0 <= k < n && (#[trigger] e[k]).0 == name,
    decreases n,
{
    if n > 0 {
        let rest = record_fields(e, s, (n - 1) as nat);
        json::law_put_then_lookup(rest, e[n - 1].0, e[n - 1].1, name);
        if e[n - 1].0 != name {
            lemma_kept_early(e, s, (n - 1) as nat, name);
        } else {
            assert(e[n - 1].0 == name);
        }
    }
}

/// Without a list every name is allowed, and with one exactly those on it.
pub proof fn law_allowed(name: Seq<char>, s: SelectionView)
    ensures
        s.allow is None ==> allowed(name, s),
        s.allow matches Some(list) ==> (allowed(name, s) <==> list.contains(name)),
{
}

/// The mode of a record is a string as it is, or a number in decimal.
pub proof fn law_mode_text(t: Seq<char>, i: i64, x: json::RealView)
    ensures
        mode_text(JsonView::Text(t)) == Some(t),
        mode_text(JsonView::Number(NumberView::Int(i))) == Some(text::int_text(i as int)),
        mode_text(JsonView::Number(NumberView::Real(x))) == Some(x.plain),
{
}

/// A record is made of the payload of a message, where that is an object, or
/// else of the message, and there is one exactly where a field is kept; it says
/// which entry is its time and what its mode is.
pub proof fn law_record_of(j: JsonView, s: SelectionView, e: Seq<(Seq<char>, JsonView)>)
    requires
        j is Object,
        j.get("payload"@) == Some(JsonView::Object(e)) || (!(j.get("payload"@) matches Some(
            JsonView::Object(_),
        )) && j == JsonView::Object(e)),
    ensures
        record_of(j, s) is Some <==> record_fields(e, s, e.len()).len() > 0,
        record_of(j, s) matches Some(r) ==> r.fields == record_fields(e, s, e.len()) && (
        match time_place(e, s, e.len()) {
            Some(i) => r.time_field == Some(e[i as int].0),
            None => r.time_field is None,
        }) && (match mode_place(e, s, e.len()) {
            Some(i) => r.mode == mode_text(e[i as int].1),
            None => r.mode is None,
        }),
{
}

/// The record of item `i`, where it gives one.
pub open spec fn record_at(a: Seq<JsonView>, s: SelectionView) -> spec_fn(int) -> Option<JsonView> {
    |i: int|
        match record_of(a[i], s) {
            Some(r) => Some(JsonView::Object(r.fields)),
            None => None,
        }
}

/// A message gives the records of the items of its payload, all of them, in
/// order, where that is an array, or else its own.
pub proof fn law_message_records(j: JsonView, s: SelectionView)
    ensures
        j.get("payload"@) matches Some(JsonView::Array(a)) ==> lists::gathers(
            record_at(a, s),
            0,
            a.len() as int,
            message_records(j, s),
        ),
        !(j.get("payload"@) matches Some(JsonView::Array(_))) ==> message_records(j, s) == (
        match record_of(j, s) {
            Some(r) => seq![JsonView::Object(r.fields)],
            None => seq![],
        }),
{
    match j.get("payload"@) {
        Some(JsonView::Array(a)) => lemma_item_records(a, s, a.len()),
        _ => {
            let one = seq![j];
            assert(item_records(one, s, 0) == Seq::<JsonView>::empty());
            assert(one[0] == j);
            assert(message_records(j, s) == item_records(one, s, 1));
        },
    }
}

proof fn lemma_item_records(a: Seq<JsonView>, s: SelectionView, n: nat)
    ensures
        lists::gathers(record_at(a, s), 0, n as int, item_records(a, s, n)),
    decreases n,
{
    if n == 0 {
        lists::lemma_gathers_nothing(record_at(a, s), 0, 0);
    } else {
        lemma_item_records(a, s, (n - 1) as nat);
        lists::lemma_gathers_next(record_at(a, s), 0, n - 1, item_records(a, s, (n - 1) as nat));
    }
}

/// A selection and a record are shown as what they are.
pub proof fn law_selection_and_record_views(s: Selection, r: Record, i: int)
    ensures
        s.allow is None <==> s@.allow is None,
        s.allow matches Some(list) ==> (0 <= i < list@.len() ==> s@.allow->0.contains(list@[i]@)),
        s.time_field matches Some(t) ==> s@.time_field == Some(t@),
        s.mode_field matches Some(t) ==> s@.mode_field == Some(t@),
        s.time_field is None ==> s@.time_field is None,
        s.mode_field is None ==> s@.mode_field is None,
        r@.fields.len() == r.fields@.len(),
        0 <= i < r.fields@.len() ==> r@.fields[i] == (r.fields@[i].0@, r.fields@[i].1@),
        r.time_field matches Some(t) ==> r@.time_field == Some(t@),
        r.mode matches Some(t) ==> r@.mode == Some(t@),
        r.time_field is None ==> r@.time_field is None,
        r.mode is None ==> r@.mode is None,
{
    match s.allow {
        Some(list) => {
            if 0 <= i < list@.len() {
                assert(text::texts(list@)[i] == list@[i]@);
                assert(text::texts(list@).contains(list@[i]@));
            }
        },
        None => {},
    }
}

}
