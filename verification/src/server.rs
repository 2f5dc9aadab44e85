//! The WebSocket side: the index of known fields, and what a message from a
//! client asks for.

use crate::clock;
use crate::json;
use crate::json::{Json, JsonNumber, JsonView, NumberView};
use crate::text;
use vstd::prelude::*;

verus! {

/// The fields that have been seen, ascending, and when the last of them came.
#[derive(Debug, PartialEq)]
pub struct AvailableFieldIndex {
    pub set: Vec<String>,
    pub last_updated: String,
}

impl AvailableFieldIndex {
    /// The fields ascend, each once.
    pub open spec fn wf(self) -> bool {
        text::ascending(text::texts(self.set@))
    }

    /// The fields as a set.
    pub open spec fn fields(self) -> Set<Seq<char>> {
        text::texts(self.set@).to_set()
    }

    /// An index of no fields, made at `now`.
    pub fn new_at(now: String) -> (r: AvailableFieldIndex)
        ensures
            r.wf(),
            r.set@.len() == 0,
            r.fields() == Set::<Seq<char>>::empty(),
            r.last_updated == now,
    {
        let set: Vec<String> = Vec::new();
        assert(text::texts(set@).to_set() =~= Set::<Seq<char>>::empty());
        AvailableFieldIndex { set, last_updated: now }
    }

    /// An index of no fields, made now.
    pub fn new() -> (r: AvailableFieldIndex)
        ensures
            r.wf(),
            r.set@.len() == 0,
            r.fields() == Set::<Seq<char>>::empty(),
            clock::is_utc_text(r.last_updated@),
    {
        AvailableFieldIndex::new_at(clock::now_text())
    }

    /// Adds `keys` at `now`, and says whether any of them was new.
    #[verifier::loop_isolation(false)]
    pub fn merge_keys_at(&mut self, keys: Vec<String>, now: String) -> (r: bool)
        requires
            old(self).wf(),
        ensures
            final(self).wf(),
            merged(*old(self), text::texts(keys@), now@, *final(self), r),
    {
        let ghost known = self.fields();
        let ghost all = text::texts(keys@);
        let mut changed = false;
        assert(known =~= known.union(all.take(0).to_set()));
        for i in 0..keys.len()
            invariant
                self.wf(),
                self.last_updated == old(self).last_updated,
                self.fields() == known.union(all.take(i as int).to_set()),
                changed == (self.fields() != known),
        {
            let ghost before = self.fields();
            let ghost shorter = all.take(i as int);
            let ghost longer = all.take(i + 1);
            let key = keys[i].clone();
            assert(all[i as int] == key@);
            assert(text::texts(self.set@).contains(key@) == before.contains(key@));
            if text::insert_ascending(&mut self.set, key) {
                changed = true;
                assert(self.fields().contains(key@) && !known.contains(key@)) by {
                    assert(!before.contains(key@));
                }
            } else {
                assert(self.fields() =~= before);
            }
            assert(longer == shorter.push(key@));
            assert forall|t: Seq<char>| longer.contains(t) <==> (shorter.contains(t) || t == key@) by {
                if shorter.contains(t) {
                    let k = choose|k: int| 0 <= k < shorter.len() && shorter[k] == t;
                    assert(longer[k] == t);
                }
                assert(longer[i as int] == key@);
            }
            assert(self.fields() =~= known.union(longer.to_set()));
        }
        assert(all.take(keys@.len() as int) == all);
        if changed {
            self.last_updated = now;
        }
        changed
    }

    /// Adds `keys` now, and says whether any of them was new.
    pub fn merge_keys(&mut self, keys: Vec<String>) -> (r: bool)
        requires
            old(self).wf(),
        ensures
            final(self).wf(),
            final(self).fields() == old(self).fields().union(text::texts(keys@).to_set()),
            r == (final(self).fields() != old(self).fields()),
            if r {
                clock::is_utc_text(final(self).last_updated@)
            } else {
                final(self).last_updated@ == old(self).last_updated@
            },
    {
        let now = clock::now_text();
        self.merge_keys_at(keys, now)
    }
}

impl Default for AvailableFieldIndex {
    fn default() -> (r: AvailableFieldIndex)
        ensures
            r.wf(),
            r.set@.len() == 0,
            r.fields() == Set::<Seq<char>>::empty(),
            clock::is_utc_text(r.last_updated@),
    {
        AvailableFieldIndex::new()
    }
}

/// `after` is the index that merging `keys` at `now` makes of `before`.
pub open spec fn merged(
    before: AvailableFieldIndex,
    keys: Seq<Seq<char>>,
    now: Seq<char>,
    after: AvailableFieldIndex,
    changed: bool,
) -> bool {
    &&& after.fields() == before.fields().union(keys.to_set())
    &&& changed == (after.fields() != before.fields())
    &&& after.last_updated@ == (if changed {
        now
    } else {
        before.last_updated@
    })
}

/// Keys that were merged before change nothing.
pub proof fn law_merge_again(
    before: AvailableFieldIndex,
    keys: Seq<Seq<char>>,
    now: Seq<char>,
    after: AvailableFieldIndex,
    changed: bool,
    later: Seq<char>,
    again: AvailableFieldIndex,
    changed_again: bool,
)
    requires
        after.wf(),
        again.wf(),
        merged(before, keys, now, after, changed),
        merged(after, keys, later, again, changed_again),
    ensures
        !changed_again,
        text::texts(again.set@) == text::texts(after.set@),
        again.last_updated@ == after.last_updated@,
{
    assert(again.fields() =~= after.fields());
    text::law_ascending_unique(text::texts(again.set@), text::texts(after.set@));
}

/// The order in which keys are merged does not matter for the fields.
pub proof fn law_merge_order(
    before: AvailableFieldIndex,
    a: Seq<Seq<char>>,
    b: Seq<Seq<char>>,
    now: Seq<char>,
    with_a: AvailableFieldIndex,
    with_ab: AvailableFieldIndex,
    with_b: AvailableFieldIndex,
    with_ba: AvailableFieldIndex,
    changes: (bool, bool, bool, bool),
)
    requires
        with_ab.wf(),
        with_ba.wf(),
        merged(before, a, now, with_a, changes.0),
        merged(with_a, b, now, with_ab, changes.1),
        merged(before, b, now, with_b, changes.2),
        merged(with_b, a, now, with_ba, changes.3),
    ensures
        text::texts(with_ab.set@) == text::texts(with_ba.set@),
{
    assert(with_ab.fields() =~= with_ba.fields());
    text::law_ascending_unique(text::texts(with_ab.set@), text::texts(with_ba.set@));
}

/// No field is lost by merging.
pub proof fn law_merge_keeps(
    before: AvailableFieldIndex,
    keys: Seq<Seq<char>>,
    now: Seq<char>,
    after: AvailableFieldIndex,
    changed: bool,
)
    requires
        merged(before, keys, now, after, changed),
    ensures
        before.fields().subset_of(after.fields()),
        forall|k: Seq<char>| keys.contains(k) ==> after.fields().contains(k),
{
}

/// What a message from a client leads to: a command for the craft, a new
/// configuration, and then a text for all clients.
#[derive(Debug, PartialEq)]
pub struct WsEffect {
    pub forward: Option<String>,
    pub config: Option<Json>,
    pub publish: String,
}

#[verifier::ext_equal]
pub struct WsEffectView {
    pub forward: Option<Seq<char>>,
    pub config: Option<JsonView>,
    pub publish: Seq<char>,
}

impl View for WsEffect {
    type V = WsEffectView;

    open spec fn view(&self) -> WsEffectView {
        WsEffectView {
            forward: text::held(self.forward),
            config: match self.config {
                Some(j) => Some(j@),
                None => None,
            },
            publish: self.publish@,
        }
    }
}

/// What a message that came as `message` leads to. A command is forwarded only
/// where the craft can be reached; the message itself is published whatever it
/// asks for.
pub open spec fn ws_effect(message: Seq<char>, msg: JsonView, reachable: bool) -> WsEffectView {
    let kind = match msg.get("type"@) {
        Some(JsonView::Text(t)) => Some(t),
        _ => None,
    };
    WsEffectView {
        forward: match msg.get("command"@) {
            Some(JsonView::Text(c)) if kind == Some("command"@) && reachable => Some(c),
            _ => None,
        },
        config: if kind == Some("config"@) {
            Some(msg)
        } else {
            None
        },
        publish: message,
    }
}

/// What a message that was read leads to.
pub fn effect_of(message: &str, msg: &Json, reachable: bool) -> (r: WsEffect)
    ensures
        r@ == ws_effect(message@, msg@, reachable),
{
    proof {
        reveal_strlit("command");
        reveal_strlit("config");
    }
    assert("command"@.len() != "config"@.len());
    let publish = String::from_str(message);
    match msg.get("type") {
        Some(Json::Text(t)) => {
            if text::same(t.as_str(), "command") {
                let forward = match msg.get("command") {
                    Some(Json::Text(c)) if reachable => Some(c.clone()),
                    _ => None,
                };
                WsEffect { forward, config: None, publish }
            } else if text::same(t.as_str(), "config") {
                WsEffect { forward: None, config: Some(msg.clone()), publish }
            } else {
                WsEffect { forward: None, config: None, publish }
            }
        },
        _ => WsEffect { forward: None, config: None, publish },
    }
}

/// What a message leads to. A text that is no JSON leads to nothing, and goes to
/// nobody.
pub fn handle_ws_message(message: &str, reachable: bool) -> (r: Result<WsEffect, String>)
    ensures
        match r {
            Ok(effect) => json::json_of_text(message@) is Some && effect@ == ws_effect(
                message@,
                json::json_of_text(message@)->0,
                reachable,
            ),
            Err(e) => json::json_of_text(message@) is None && e@
                == "Failed to parse WebSocket message as JSON"@,
        },
{
    match json::parse_text(message) {
        Some(msg) => Ok(effect_of(message, &msg, reachable)),
        None => Err(String::from_str("Failed to parse WebSocket message as JSON")),
    }
}

/// The value of a field of a record with `count` fields: by its name in an
/// object, by its place in an array of that many items.
pub open spec fn field_of(j: JsonView, name: Seq<char>, place: int, count: nat) -> Option<JsonView> {
    match j {
        JsonView::Object(e) => json::lookup(e, name),
        JsonView::Array(a) if a.len() == count => Some(a[place]),
        _ => None,
    }
}

/// `j` can be read as a record with `count` fields.
pub open spec fn is_record(j: JsonView, count: nat) -> bool {
    match j {
        JsonView::Object(_) => true,
        JsonView::Array(a) => a.len() == count,
        _ => false,
    }
}

/// A number that fits 32 bits without sign.
pub open spec fn read_u32(j: JsonView) -> Option<u32> {
    match j {
        JsonView::Number(NumberView::Int(i)) if 0 <= i <= u32::MAX => Some(i as u32),
        _ => None,
    }
}

/// Numbers that fit 32 bits without sign, all of them.
pub open spec fn read_u32s(items: Seq<JsonView>) -> Option<Seq<u32>>
    decreases items.len(),
{
    if items.len() == 0 {
        Some(seq![])
    } else {
        match (read_u32s(items.drop_last()), read_u32(items.last())) {
            (Some(rest), Some(n)) => Some(rest.push(n)),
            _ => None,
        }
    }
}

/// Several lamps and their state.
pub open spec fn read_led_many(j: JsonView) -> Option<(Seq<u32>, bool)> {
    match (field_of(j, "ids"@, 0, 2), field_of(j, "state"@, 1, 2)) {
        (Some(JsonView::Array(ids)), Some(JsonView::Bool(state))) => match read_u32s(ids) {
            Some(list) => Some((list, state)),
            None => None,
        },
        _ => None,
    }
}

/// One lamp and its state.
pub open spec fn read_led_one(j: JsonView) -> Option<(u32, bool)> {
    match (field_of(j, "id"@, 0, 2), field_of(j, "state"@, 1, 2)) {
        (Some(n), Some(JsonView::Bool(state))) => match read_u32(n) {
            Some(id) => Some((id, state)),
            None => None,
        },
        _ => None,
    }
}

/// A field that may be missing or null. The outer option says whether the field
/// can be read at all.
pub open spec fn optional_i32(f: Option<JsonView>) -> Option<Option<i32>> {
    match f {
        None | Some(JsonView::Null) => Some(None),
        Some(JsonView::Number(NumberView::Int(i))) if i32::MIN <= i <= i32::MAX => Some(
            Some(i as i32),
        ),
        _ => None,
    }
}

/// As [`optional_i32`], for a boolean.
pub open spec fn optional_bool(f: Option<JsonView>) -> Option<Option<bool>> {
    match f {
        None | Some(JsonView::Null) => Some(None),
        Some(JsonView::Bool(b)) => Some(Some(b)),
        _ => None,
    }
}

/// As [`optional_i32`], for a text.
pub open spec fn optional_text(f: Option<JsonView>) -> Option<Option<Seq<char>>> {
    match f {
        None | Some(JsonView::Null) => Some(None),
        Some(JsonView::Text(s)) => Some(Some(s)),
        _ => None,
    }
}

/// As [`optional_i32`], for several lamps.
pub open spec fn optional_leds(f: Option<JsonView>) -> Option<Option<(Seq<u32>, bool)>> {
    match f {
        None | Some(JsonView::Null) => Some(None),
        Some(j) => match read_led_many(j) {
            Some(many) => Some(Some(many)),
            None => None,
        },
    }
}

/// A value that may be missing or null.
pub open spec fn optional_value(f: Option<JsonView>) -> Option<JsonView> {
    match f {
        None | Some(JsonView::Null) => None,
        Some(j) => Some(j),
    }
}

/// The payload of a command.
#[verifier::ext_equal]
pub struct PayloadView {
    pub mode: Option<i32>,
    pub motors: Option<bool>,
    pub led: Option<JsonView>,
    pub leds: Option<(Seq<u32>, bool)>,
}

/// Reads the payload of a command.
pub open spec fn read_payload(j: JsonView) -> Option<PayloadView> {
    match (
        optional_i32(field_of(j, "mode"@, 0, 4)),
        optional_bool(field_of(j, "motors"@, 1, 4)),
        optional_leds(field_of(j, "leds"@, 3, 4)),
    ) {
        (Some(mode), Some(motors), Some(leds)) if is_record(j, 4) => Some(
            PayloadView {
                mode,
                motors,
                led: optional_value(field_of(j, "led"@, 2, 4)),
                leds,
            },
        ),
        _ => None,
    }
}

/// As [`optional_i32`], for the payload of a command.
pub open spec fn optional_payload(f: Option<JsonView>) -> Option<Option<PayloadView>> {
    match f {
        None | Some(JsonView::Null) => Some(None),
        Some(j) => match read_payload(j) {
            Some(p) => Some(Some(p)),
            None => None,
        },
    }
}

/// A message in one of the other forms.
#[verifier::ext_equal]
pub struct EnvelopeView {
    pub kind: Option<Seq<char>>,
    pub payload: Option<PayloadView>,
    pub mode: Option<i32>,
    pub command: Option<Seq<char>>,
}

/// Reads a message in one of the other forms.
pub open spec fn read_envelope(j: JsonView) -> Option<EnvelopeView> {
    match (
        optional_text(field_of(j, "type"@, 0, 4)),
        optional_payload(field_of(j, "payload"@, 1, 4)),
        optional_i32(field_of(j, "mode"@, 2, 4)),
        optional_text(field_of(j, "command"@, 3, 4)),
    ) {
        (Some(kind), Some(payload), Some(mode), Some(command)) if is_record(j, 4) => Some(
            EnvelopeView { kind, payload, mode, command },
        ),
        _ => None,
    }
}

/// What the craft is told. `Forward` hands it the text as it came.
#[derive(Debug, PartialEq)]
pub enum Command {
    LedMany(Vec<u32>, bool),
    LedAll(bool),
    LedOne(u32, bool),
    Mode(String),
    Motors(bool),
    Forward,
}

#[verifier::ext_equal]
pub enum CommandView {
    LedMany(Seq<u32>, bool),
    LedAll(bool),
    LedOne(u32, bool),
    Mode(Seq<char>),
    Motors(bool),
    Forward,
}

impl View for Command {
    type V = CommandView;

    open spec fn view(&self) -> CommandView {
        match self {
            Command::LedMany(ids, state) => CommandView::LedMany(ids@, *state),
            Command::LedAll(state) => CommandView::LedAll(*state),
            Command::LedOne(id, state) => CommandView::LedOne(*id, *state),
            Command::Mode(m) => CommandView::Mode(m@),
            Command::Motors(state) => CommandView::Motors(*state),
            Command::Forward => CommandView::Forward,
        }
    }
}

/// What the field `led` tells: all lamps, or one.
pub open spec fn led_command(led: JsonView) -> Option<CommandView> {
    match led {
        JsonView::Bool(state) => Some(CommandView::LedAll(state)),
        _ => match read_led_one(led) {
            Some(one) => Some(CommandView::LedOne(one.0, one.1)),
            None => None,
        },
    }
}

/// What a command node tells: several lamps before all or one, before the mode,
/// before the motors.
pub open spec fn node_command(cmd: JsonView) -> CommandView {
    let many = match cmd.get("leds"@) {
        Some(j) => read_led_many(j),
        None => None,
    };
    let led = match cmd.get("led"@) {
        Some(j) => led_command(j),
        None => None,
    };
    let mode = match cmd.get("mode"@) {
        Some(j) => j.integer(),
        None => None,
    };
    let motors = match cmd.get("motors"@) {
        Some(j) => j.truth(),
        None => None,
    };
    if many is Some {
        CommandView::LedMany((many->0).0, (many->0).1)
    } else if led is Some {
        led->0
    } else if mode is Some {
        CommandView::Mode(text::int_text(mode->0 as int))
    } else if motors is Some {
        CommandView::Motors(motors->0)
    } else {
        CommandView::Forward
    }
}

/// What the payload of another form tells: the mode before the motors, before
/// several lamps, before all or one.
pub open spec fn payload_command(p: PayloadView) -> Option<CommandView> {
    if p.mode is Some {
        Some(CommandView::Mode(text::int_text(p.mode->0 as int)))
    } else if p.motors is Some {
        Some(CommandView::Motors(p.motors->0))
    } else if p.leds is Some {
        Some(CommandView::LedMany((p.leds->0).0, (p.leds->0).1))
    } else {
        match p.led {
            Some(led) => led_command(led),
            None => None,
        }
    }
}

/// What a command by name tells.
pub open spec fn named_command(name: Seq<char>) -> CommandView {
    if name == "ON_LED"@ {
        CommandView::LedAll(true)
    } else if name == "OFF_LED"@ {
        CommandView::LedAll(false)
    } else if name == "ON_MOTORS"@ {
        CommandView::Motors(true)
    } else if name == "OFF_MOTORS"@ {
        CommandView::Motors(false)
    } else {
        CommandView::Forward
    }
}

/// What a message in one of the other forms tells.
pub open spec fn envelope_command(env: EnvelopeView) -> CommandView {
    let own = match env.payload {
        Some(p) if env.kind == Some("command"@) => payload_command(p),
        _ => None,
    };
    if own is Some {
        own->0
    } else if env.mode is Some {
        CommandView::Mode(text::int_text(env.mode->0 as int))
    } else {
        match env.command {
            Some(name) => named_command(name),
            None => CommandView::Forward,
        }
    }
}

/// Where a command stands: in the payload of the payload, or else in the
/// payload.
pub open spec fn command_node(root: JsonView) -> Option<JsonView> {
    match json::get2(root, "payload"@, "payload"@) {
        Some(inner) => Some(inner),
        None => root.get("payload"@),
    }
}

/// What a message tells the craft.
pub open spec fn command(root: JsonView) -> CommandView {
    match command_node(root) {
        Some(cmd) if root.get("type"@) == Some(JsonView::Text("command"@)) => node_command(cmd),
        _ => match read_envelope(root) {
            Some(env) => envelope_command(env),
            None => CommandView::Forward,
        },
    }
}

/// The number under which a message is answered: its own, or else that of its
/// payload.
pub open spec fn request_id(root: JsonView) -> Option<Seq<char>> {
    match root.get("request_id"@) {
        Some(JsonView::Text(s)) => Some(s),
        _ => match json::get2(root, "payload"@, "request_id"@) {
            Some(JsonView::Text(s)) => Some(s),
            _ => None,
        },
    }
}

/// The value of a field of a record with `count` fields.
fn get_field<'a>(j: &'a Json, name: &str, place: usize, count: usize) -> (r: Option<&'a Json>)
    requires
        place < count,
    ensures
        match r {
            Some(f) => field_of(j@, name@, place as int, count as nat) == Some(f@),
            None => field_of(j@, name@, place as int, count as nat) is None,
        },
{
    proof {
        json::lemma_views(*j);
    }
    match j {
        Json::Object(_) => j.get(name),
        Json::Array(a) => if a.len() == count {
            Some(&a[place])
        } else {
            None
        },
        _ => None,
    }
}

/// Whether `j` can be read as a record with `count` fields.
fn reads_as_record(j: &Json, count: usize) -> (r: bool)
    ensures
        r == is_record(j@, count as nat),
{
    proof {
        json::lemma_views(*j);
    }
    match j {
        Json::Object(_) => true,
        Json::Array(a) => a.len() == count,
        _ => false,
    }
}

/// A number that fits 32 bits without sign.
fn to_u32(j: &Json) -> (r: Option<u32>)
    ensures
        r == read_u32(j@),
{
    match j {
        Json::Number(JsonNumber::Int(i)) => if 0 <= *i && *i <= u32::MAX as i64 {
            Some(*i as u32)
        } else {
            None
        },
        _ => None,
    }
}

/// Numbers that fit 32 bits without sign, all of them.
#[verifier::loop_isolation(false)]
fn to_u32s(items: &Vec<Json>) -> (r: Option<Vec<u32>>)
    ensures
        match r {
            Some(list) => read_u32s(json::values(items@)) == Some(list@),
            None => read_u32s(json::values(items@)) is None,
        },
{
    let ghost all = json::values(items@);
    let mut list: Vec<u32> = Vec::new();
    for i in 0..items.len()
        invariant
            read_u32s(all.take(i as int)) == Some(list@),
    {
        assert(all.take(i + 1).drop_last() == all.take(i as int));
        assert(all.take(i + 1).last() == items@[i as int]@);
        match to_u32(&items[i]) {
            Some(n) => {
                list.push(n);
            },
            None => {
                proof {
                    lemma_unread(all, i + 1);
                }
                return None;
            },
        }
    }
    assert(all.take(items@.len() as int) == all);
    Some(list)
}

/// Where some items cannot be read, all cannot.
proof fn lemma_unread(items: Seq<JsonView>, n: int)
    requires
        0 <= n <= items.len(),
        read_u32s(items.take(n)) is None,
    ensures
        read_u32s(items) is None,
    decreases items.len(),
{
    if n < items.len() {
        assert(items.drop_last().take(n) == items.take(n));
        lemma_unread(items.drop_last(), n);
    } else {
        assert(items.take(n) == items);
    }
}

/// Several lamps and their state.
fn to_led_many(j: &Json) -> (r: Option<(Vec<u32>, bool)>)
    ensures
        match r {
            Some(many) => read_led_many(j@) == Some((many.0@, many.1)),
            None => read_led_many(j@) is None,
        },
{
    match (get_field(j, "ids", 0, 2), get_field(j, "state", 1, 2)) {
        (Some(Json::Array(ids)), Some(Json::Bool(state))) => {
            proof {
                json::lemma_views(Json::Array(*ids));
            }
            match to_u32s(ids) {
                Some(list) => Some((list, *state)),
                None => None,
            }
        },
        _ => None,
    }
}

/// One lamp and its state.
fn to_led_one(j: &Json) -> (r: Option<(u32, bool)>)
    ensures
        r == read_led_one(j@),
{
    match (get_field(j, "id", 0, 2), get_field(j, "state", 1, 2)) {
        (Some(n), Some(Json::Bool(state))) => match to_u32(n) {
            Some(id) => Some((id, *state)),
            None => None,
        },
        _ => None,
    }
}

/// A number that may be missing or null.
fn to_optional_i32(f: Option<&Json>) -> (r: Option<Option<i32>>)
    ensures
        r == optional_i32(viewed(f)),
{
    match f {
        None => Some(None),
        Some(Json::Null) => Some(None),
        Some(Json::Number(JsonNumber::Int(i))) => if i32::MIN as i64 <= *i && *i <= i32::MAX as i64 {
            Some(Some(*i as i32))
        } else {
            None
        },
        _ => None,
    }
}

/// The value that an optional value holds.
pub open spec fn viewed(f: Option<&Json>) -> Option<JsonView> {
    match f {
        Some(j) => Some(j@),
        None => None,
    }
}

/// A boolean that may be missing or null.
fn to_optional_bool(f: Option<&Json>) -> (r: Option<Option<bool>>)
    ensures
        r == optional_bool(viewed(f)),
{
    match f {
        None => Some(None),
        Some(Json::Null) => Some(None),
        Some(Json::Bool(b)) => Some(Some(*b)),
        _ => None,
    }
}

/// A text that may be missing or null.
fn to_optional_text(f: Option<&Json>) -> (r: Option<Option<String>>)
    ensures
        match r {
            Some(Some(s)) => optional_text(viewed(f)) == Some(Some(s@)),
            Some(None) => optional_text(viewed(f)) == Some(None::<Seq<char>>),
            None => optional_text(viewed(f)) is None,
        },
{
    match f {
        None => Some(None),
        Some(Json::Null) => Some(None),
        Some(Json::Text(s)) => Some(Some(s.clone())),
        _ => None,
    }
}

/// The payload of a command.
struct Payload {
    mode: Option<i32>,
    motors: Option<bool>,
    led: Option<Json>,
    leds: Option<(Vec<u32>, bool)>,
}

impl View for Payload {
    type V = PayloadView;

    closed spec fn view(&self) -> PayloadView {
        PayloadView {
            mode: self.mode,
            motors: self.motors,
            led: match self.led {
                Some(j) => Some(j@),
                None => None,
            },
            leds: match self.leds {
                Some(many) => Some((many.0@, many.1)),
                None => None,
            },
        }
    }
}

/// Reads the payload of a command.
fn to_payload(j: &Json) -> (r: Option<Payload>)
    ensures
        match r {
            Some(p) => read_payload(j@) == Some(p@),
            None => read_payload(j@) is None,
        },
{
    if !reads_as_record(j, 4) {
        return None;
    }
    let mode = match to_optional_i32(get_field(j, "mode", 0, 4)) {
        Some(m) => m,
        None => {
            return None;
        },
    };
    let motors = match to_optional_bool(get_field(j, "motors", 1, 4)) {
        Some(m) => m,
        None => {
            return None;
        },
    };
    let led = match get_field(j, "led", 2, 4) {
        None => None,
        Some(Json::Null) => None,
        Some(l) => Some(l.clone()),
    };
    let leds = match get_field(j, "leds", 3, 4) {
        None => None,
        Some(Json::Null) => None,
        Some(l) => match to_led_many(l) {
            Some(many) => Some(many),
            None => {
                return None;
            },
        },
    };
    Some(Payload { mode, motors, led, leds })
}

/// What the field `led` tells.
fn led_told(led: &Json) -> (r: Option<Command>)
    ensures
        match r {
            Some(c) => led_command(led@) == Some(c@),
            None => led_command(led@) is None,
        },
{
    match led {
        Json::Bool(state) => Some(Command::LedAll(*state)),
        _ => match to_led_one(led) {
            Some(one) => Some(Command::LedOne(one.0, one.1)),
            None => None,
        },
    }
}

/// What a command node tells.
fn node_told(cmd: &Json) -> (r: Command)
    ensures
        r@ == node_command(cmd@),
{
    match cmd.get("leds") {
        Some(j) => match to_led_many(j) {
            Some(many) => {
                return Command::LedMany(many.0, many.1);
            },
            None => {},
        },
        None => {},
    }
    match cmd.get("led") {
        Some(j) => match led_told(j) {
            Some(c) => {
                return c;
            },
            None => {},
        },
        None => {},
    }
    match cmd.get("mode") {
        Some(j) => match j.as_integer() {
            Some(m) => {
                return Command::Mode(text::int_to_text(m));
            },
            None => {},
        },
        None => {},
    }
    match cmd.get("motors") {
        Some(j) => match j.as_truth() {
            Some(state) => {
                return Command::Motors(state);
            },
            None => {},
        },
        None => {},
    }
    Command::Forward
}

/// What the payload of another form tells.
fn payload_told(p: Payload) -> (r: Option<Command>)
    ensures
        match r {
            Some(c) => payload_command(p@) == Some(c@),
            None => payload_command(p@) is None,
        },
{
    match p.mode {
        Some(m) => {
            return Some(Command::Mode(text::int_to_text(m as i64)));
        },
        None => {},
    }
    match p.motors {
        Some(state) => {
            return Some(Command::Motors(state));
        },
        None => {},
    }
    match p.leds {
        Some(many) => {
            return Some(Command::LedMany(many.0, many.1));
        },
        None => {},
    }
    match &p.led {
        Some(led) => led_told(led),
        None => None,
    }
}

/// What a command by name tells.
fn name_told(name: &str) -> (r: Command)
    ensures
        r@ == named_command(name@),
{
    if text::same(name, "ON_LED") {
        Command::LedAll(true)
    } else if text::same(name, "OFF_LED") {
        Command::LedAll(false)
    } else if text::same(name, "ON_MOTORS") {
        Command::Motors(true)
    } else if text::same(name, "OFF_MOTORS") {
        Command::Motors(false)
    } else {
        Command::Forward
    }
}

/// What a message in one of the other forms tells.
fn envelope_told(root: &Json) -> (r: Command)
    ensures
        r@ == (match read_envelope(root@) {
            Some(env) => envelope_command(env),
            None => CommandView::Forward,
        }),
{
    if !reads_as_record(root, 4) {
        return Command::Forward;
    }
    let kind = match to_optional_text(get_field(root, "type", 0, 4)) {
        Some(k) => k,
        None => {
            return Command::Forward;
        },
    };
    let payload = match get_field(root, "payload", 1, 4) {
        None => None,
        Some(Json::Null) => None,
        Some(j) => match to_payload(j) {
            Some(p) => Some(p),
            None => {
                return Command::Forward;
            },
        },
    };
    let mode = match to_optional_i32(get_field(root, "mode", 2, 4)) {
        Some(m) => m,
        None => {
            return Command::Forward;
        },
    };
    let command = match to_optional_text(get_field(root, "command", 3, 4)) {
        Some(c) => c,
        None => {
            return Command::Forward;
        },
    };
    let is_command = match &kind {
        Some(k) => text::same(k.as_str(), "command"),
        None => false,
    };
    match payload {
        Some(p) => if is_command {
            match payload_told(p) {
                Some(c) => {
                    return c;
                },
                None => {},
            }
        },
        None => {},
    }
    match mode {
        Some(m) => Command::Mode(text::int_to_text(m as i64)),
        None => match &command {
            Some(name) => name_told(name.as_str()),
            None => Command::Forward,
        },
    }
}

/// What a message that was read tells the craft.
pub fn command_of(root: &Json) -> (r: Command)
    ensures
        r@ == command(root@),
{
    let is_command = match root.get("type") {
        Some(Json::Text(t)) => text::same(t.as_str(), "command"),
        _ => false,
    };
    if is_command {
        match root.get2("payload", "payload") {
            Some(inner) => {
                return node_told(inner);
            },
            None => {},
        }
        match root.get("payload") {
            Some(outer) => {
                return node_told(outer);
            },
            None => {},
        }
    }
    envelope_told(root)
}

/// The number under which a message is answered.
pub fn request_id_of(root: &Json) -> (r: Option<String>)
    ensures
        match r {
            Some(s) => request_id(root@) == Some(s@),
            None => request_id(root@) is None,
        },
{
    match root.get("request_id") {
        Some(Json::Text(s)) => {
            return Some(s.clone());
        },
        _ => {},
    }
    match root.get2("payload", "request_id") {
        Some(Json::Text(s)) => Some(s.clone()),
        _ => None,
    }
}

/// What a text from a client asks for: to be shown to all clients as it is, or
/// that the craft is told something and answers under a number.
#[derive(Debug, PartialEq)]
pub enum Incoming {
    Republish,
    Tell(Command, Option<String>),
}

/// What a text from a client asks for. One that is no JSON is shown to all.
pub fn handle_incoming(message: &str) -> (r: Incoming)
    ensures
        match r {
            Incoming::Republish => json::json_of_text(message@) is None,
            Incoming::Tell(c, id) => json::json_of_text(message@) is Some && c@ == command(
                json::json_of_text(message@)->0,
            ) && (match id {
                Some(s) => request_id(json::json_of_text(message@)->0) == Some(s@),
                None => request_id(json::json_of_text(message@)->0) is None,
            }),
        },
{
    match json::parse_text(message) {
        Some(root) => Incoming::Tell(command_of(&root), request_id_of(&root)),
        None => Incoming::Republish,
    }
}

/// A record reads the same as an object and as the array of its fields: several
/// lamps.
pub proof fn law_led_many_forms(ids: Seq<JsonView>, state: bool)
    ensures
        read_led_many(JsonView::Array(seq![JsonView::Array(ids), JsonView::Bool(state)]))
            == read_led_many(
            JsonView::Object(
                seq![("ids"@, JsonView::Array(ids)), ("state"@, JsonView::Bool(state))],
            ),
        ),
{
    reveal_strlit("ids");
    reveal_strlit("state");
    let e = seq![("ids"@, JsonView::Array(ids)), ("state"@, JsonView::Bool(state))];
    assert("ids"@.len() != "state"@.len());
    assert(e[0].0 == "ids"@);
    assert(e.drop_first()[0] == e[1]);
    assert(json::lookup(e, "state"@) == json::lookup(e.drop_first(), "state"@));
}

/// A command that stands two payloads deep tells the same as one that stands in
/// the payload.
pub proof fn law_command_depth(
    outer: JsonView,
    inner: JsonView,
    cmd: JsonView,
)
    requires
        outer.get("type"@) == Some(JsonView::Text("command"@)),
        inner.get("type"@) == Some(JsonView::Text("command"@)),
        json::get2(outer, "payload"@, "payload"@) == Some(cmd),
        inner.get("payload"@) == Some(cmd),
        cmd.get("payload"@) is None,
    ensures
        command(outer) == command(inner),
        command(inner) == node_command(cmd),
{
}

/// What comes from a client: a text, a question whether the line stands, a
/// farewell, or anything else.
#[derive(Debug, PartialEq)]
pub enum Frame {
    Text(String),
    Ping(Vec<u8>),
    Close,
    Other,
}

/// What is done with a frame: its effect is carried out, and then its text goes
/// to all clients once more; or it is answered; or nothing; or the line ends,
/// perhaps for a reason.
#[derive(Debug, PartialEq)]
pub enum ClientStep {
    Handle(WsEffect, String),
    Pong(Vec<u8>),
    Ignore,
    End(Option<String>),
}

/// What is done with a frame.
pub fn client_step(frame: Frame, reachable: bool) -> (r: ClientStep)
    ensures
        match frame {
            Frame::Text(t) => match json::json_of_text(t@) {
                Some(msg) => r is Handle && r->Handle_0@ == ws_effect(t@, msg, reachable)
                    && r->Handle_1 == t,
                None => r matches ClientStep::End(Some(e)) && e@
                    == "Failed to parse WebSocket message as JSON"@,
            },
            Frame::Ping(p) => r == ClientStep::Pong(p),
            Frame::Close => r == ClientStep::End(None),
            Frame::Other => r == ClientStep::Ignore,
        },
{
    match frame {
        Frame::Text(t) => match handle_ws_message(t.as_str(), reachable) {
            Ok(effect) => ClientStep::Handle(effect, t),
            Err(e) => ClientStep::End(Some(e)),
        },
        Frame::Ping(p) => ClientStep::Pong(p),
        Frame::Close => ClientStep::End(None),
        Frame::Other => ClientStep::Ignore,
    }
}

/// A field of a record is found by its name in an object, and by its place in an
/// array that has as many items as the record has fields.
pub proof fn law_field_of(
    e: Seq<(Seq<char>, JsonView)>,
    a: Seq<JsonView>,
    name: Seq<char>,
    place: int,
    count: nat,
)
    ensures
        field_of(JsonView::Object(e), name, place, count) == json::lookup(e, name),
        a.len() == count ==> field_of(JsonView::Array(a), name, place, count) == Some(a[place]),
        a.len() != count ==> field_of(JsonView::Array(a), name, place, count) is None,
{
}

/// `j` is an integer that numbers a lamp.
pub open spec fn numbers_lamp(j: JsonView) -> bool {
    j matches JsonView::Number(NumberView::Int(i)) && 0 <= i <= 0xffff_ffff
}

/// The number of a lamp is the integer itself, and nothing else is one.
pub proof fn law_lamp_number(j: JsonView, i: i64)
    ensures
        read_u32(j) is Some <==> numbers_lamp(j),
        j == JsonView::Number(NumberView::Int(i)) && 0 <= i <= 0xffff_ffff ==> read_u32(j) is Some
            && read_u32(j)->0 == i,
{
}

/// A list numbers lamps exactly where each of its items does, and then each
/// number is that of its item.
pub proof fn law_lamp_numbers(items: Seq<JsonView>)
    ensures
        read_u32s(items) is Some <==> forall|i: int|
            0 <= i < items.len() ==> numbers_lamp(#[trigger] items[i]),
        read_u32s(items) matches Some(list) ==> list.len() == items.len() && forall|i: int|
            0 <= i < items.len() ==> #[trigger] items[i] == JsonView::Number(
                NumberView::Int(list[i] as i64),
            ),
    decreases items.len(),
{
    if items.len() > 0 {
        let rest = items.drop_last();
        law_lamp_numbers(rest);
        assert(items[items.len() - 1] == items.last());
        if read_u32s(items) is Some {
            let list = read_u32s(items)->0;
            let shorter = read_u32s(rest)->0;
            assert forall|i: int| 0 <= i < items.len() implies #[trigger] items[i]
                == JsonView::Number(NumberView::Int(list[i] as i64)) by {
                if i < rest.len() {
                    assert(rest[i] == items[i]);
                    assert(list[i] == shorter[i]);
                }
            }
        }
        if forall|i: int| 0 <= i < items.len() ==> numbers_lamp(#[trigger] items[i]) {
            assert forall|i: int| 0 <= i < rest.len() implies numbers_lamp(#[trigger] rest[i]) by {
                assert(rest[i] == items[i]);
            }
            assert(numbers_lamp(items.last()));
        }
    }
}

/// `j` names several lamps and their state.
pub open spec fn names_lamps(j: JsonView, ids: Seq<JsonView>, state: bool) -> bool {
    &&& field_of(j, "ids"@, 0, 2) == Some(JsonView::Array(ids))
    &&& field_of(j, "state"@, 1, 2) == Some(JsonView::Bool(state))
    &&& forall|i: int| 0 <= i < ids.len() ==> numbers_lamp(#[trigger] ids[i])
}

/// The member `leds` of a command names no lamps.
pub open spec fn no_lamps(cmd: JsonView) -> bool {
    cmd.get("leds"@) matches Some(j) ==> forall|ids: Seq<JsonView>, state: bool|
        !#[trigger] names_lamps(j, ids, state)
}

/// `j` names one lamp and its state.
pub open spec fn names_lamp(j: JsonView, id: i64, state: bool) -> bool {
    &&& field_of(j, "id"@, 0, 2) == Some(JsonView::Number(NumberView::Int(id)))
    &&& 0 <= id <= 0xffff_ffff
    &&& field_of(j, "state"@, 1, 2) == Some(JsonView::Bool(state))
}

/// The member `led` of a command names neither all lamps nor one.
pub open spec fn no_lamp(cmd: JsonView) -> bool {
    cmd.get("led"@) matches Some(j) ==> !(j is Bool) && forall|id: i64, state: bool|
        !#[trigger] names_lamp(j, id, state)
}

/// The message `root` is a command, which stands in `cmd`: in the payload of its
/// payload, or else in its payload.
pub open spec fn commands(root: JsonView, cmd: JsonView) -> bool {
    &&& root.get("type"@) == Some(JsonView::Text("command"@))
    &&& json::get2(root, "payload"@, "payload"@) == Some(cmd) || (json::get2(
        root,
        "payload"@,
        "payload"@,
    ) is None && root.get("payload"@) == Some(cmd))
}

/// A command that names no lamps has none that can be read.
proof fn lemma_no_lamps(cmd: JsonView)
    requires
        no_lamps(cmd),
    ensures
        cmd.get("leds"@) matches Some(j) ==> read_led_many(j) is None,
{
    match cmd.get("leds"@) {
        Some(j) => {
            match (field_of(j, "ids"@, 0, 2), field_of(j, "state"@, 1, 2)) {
                (Some(JsonView::Array(ids)), Some(JsonView::Bool(state))) => {
                    law_lamp_numbers(ids);
                    assert(!names_lamps(j, ids, state));
                },
                _ => {},
            }
        },
        None => {},
    }
}

/// A command that names no lamp has none that can be read.
proof fn lemma_no_lamp(cmd: JsonView)
    requires
        no_lamp(cmd),
    ensures
        cmd.get("led"@) matches Some(j) ==> led_command(j) is None,
{
    match cmd.get("led"@) {
        Some(j) => {
            match (field_of(j, "id"@, 0, 2), field_of(j, "state"@, 1, 2)) {
                (Some(JsonView::Number(NumberView::Int(id))), Some(JsonView::Bool(state))) => {
                    assert(!names_lamp(j, id, state));
                },
                _ => {},
            }
        },
        None => {},
    }
}

/// A command for several lamps tells their numbers, in order, and the state that
/// was asked for.
pub proof fn law_several_lamps(
    root: JsonView,
    cmd: JsonView,
    leds: JsonView,
    ids: Seq<JsonView>,
    state: bool,
)
    requires
        commands(root, cmd),
        cmd.get("leds"@) == Some(leds),
        names_lamps(leds, ids, state),
    ensures
        command(root) is LedMany,
        command(root)->LedMany_1 == state,
        command(root)->LedMany_0.len() == ids.len(),
        forall|i: int|
            0 <= i < ids.len() ==> #[trigger] ids[i] == JsonView::Number(
                NumberView::Int(command(root)->LedMany_0[i] as i64),
            ),
{
    law_lamp_numbers(ids);
}

/// A command for one lamp tells its number and the state that was asked for.
pub proof fn law_one_lamp(
    root: JsonView,
    cmd: JsonView,
    led: JsonView,
    id: i64,
    state: bool,
)
    requires
        commands(root, cmd),
        no_lamps(cmd),
        cmd.get("led"@) == Some(led),
        !(led is Bool),
        names_lamp(led, id, state),
    ensures
        command(root) == CommandView::LedOne(id as u32, state),
{
    lemma_no_lamps(cmd);
}

/// A command for all lamps tells the state that was asked for.
pub proof fn law_all_lamps(root: JsonView, cmd: JsonView, state: bool)
    requires
        commands(root, cmd),
        no_lamps(cmd),
        cmd.get("led"@) == Some(JsonView::Bool(state)),
    ensures
        command(root) == CommandView::LedAll(state),
{
    lemma_no_lamps(cmd);
}

/// A command that names no lamps tells the mode that it names, in decimal.
pub proof fn law_mode_told(root: JsonView, cmd: JsonView, mode: i64)
    requires
        commands(root, cmd),
        no_lamps(cmd),
        no_lamp(cmd),
        cmd.get("mode"@) == Some(JsonView::Number(NumberView::Int(mode))),
    ensures
        command(root) == CommandView::Mode(text::int_text(mode as int)),
{
    lemma_no_lamps(cmd);
    lemma_no_lamp(cmd);
}

/// A command that names neither lamps nor a mode tells the state of the motors
/// that was asked for; one that names nothing at all is forwarded.
pub proof fn law_motors_told(root: JsonView, cmd: JsonView, state: bool)
    requires
        commands(root, cmd),
        no_lamps(cmd),
        no_lamp(cmd),
        !(cmd.get("mode"@) matches Some(JsonView::Number(NumberView::Int(_)))),
    ensures
        cmd.get("motors"@) == Some(JsonView::Bool(state)) ==> command(root) == CommandView::Motors(
            state,
        ),
        !(cmd.get("motors"@) matches Some(JsonView::Bool(_))) ==> command(root)
            == CommandView::Forward,
{
    lemma_no_lamps(cmd);
    lemma_no_lamp(cmd);
}

/// The message `root` is an object that names no command of its own and carries
/// no payload.
pub open spec fn is_bare(root: JsonView) -> bool {
    &&& root is Object
    &&& root.get("payload"@) is None || root.get("payload"@) == Some(JsonView::Null)
    &&& root.get("type"@) is None || root.get("type"@) == Some(JsonView::Null) || (root.get("type"@)
        matches Some(JsonView::Text(_)))
}

/// A message without a payload that names a mode tells that mode.
pub proof fn law_bare_mode(root: JsonView, mode: i64)
    requires
        is_bare(root),
        root.get("type"@) != Some(JsonView::Text("command"@)) || root.get("payload"@) is None,
        root.get("mode"@) == Some(JsonView::Number(NumberView::Int(mode))),
        -0x8000_0000 <= mode <= 0x7fff_ffff,
        root.get("command"@) is None || root.get("command"@) == Some(JsonView::Null) || (root.get(
            "command"@,
        ) matches Some(JsonView::Text(_))),
    ensures
        command(root) == CommandView::Mode(text::int_text(mode as int)),
{
}

/// A message without payload and mode tells what the command that it names says:
/// all lamps on or off, the motors on or off; any other is forwarded.
pub proof fn law_named_commands(root: JsonView, name: Seq<char>)
    requires
        is_bare(root),
        root.get("type"@) != Some(JsonView::Text("command"@)) || root.get("payload"@) is None,
        root.get("mode"@) is None || root.get("mode"@) == Some(JsonView::Null),
        root.get("command"@) == Some(JsonView::Text(name)),
    ensures
        name == "ON_LED"@ ==> command(root) == CommandView::LedAll(true),
        name == "OFF_LED"@ ==> command(root) == CommandView::LedAll(false),
        name == "ON_MOTORS"@ ==> command(root) == CommandView::Motors(true),
        name == "OFF_MOTORS"@ ==> command(root) == CommandView::Motors(false),
        name != "ON_LED"@ && name != "OFF_LED"@ && name != "ON_MOTORS"@ && name != "OFF_MOTORS"@
            ==> command(root) == CommandView::Forward,
{
    reveal_strlit("ON_LED");
    reveal_strlit("OFF_LED");
    reveal_strlit("ON_MOTORS");
    reveal_strlit("OFF_MOTORS");
    assert("ON_LED"@.len() == 6 && "OFF_LED"@.len() == 7 && "ON_MOTORS"@.len() == 9
        && "OFF_MOTORS"@.len() == 10);
}

/// What is neither an object nor an array of four items, and an object whose mode
/// is no integer of 32 bits, is forwarded.
pub proof fn law_unread_is_forwarded(root: JsonView)
    requires
        (!(root is Object) && !(root matches JsonView::Array(a) && a.len() == 4)) || (root is Object
            && root.get("type"@) != Some(JsonView::Text("command"@)) && (root.get("mode"@) matches Some(
            m,
        ) && !(m is Null) && !(m matches JsonView::Number(NumberView::Int(i)) && -0x8000_0000 <= i
            <= 0x7fff_ffff))),
    ensures
        command(root) == CommandView::Forward,
{
}

/// What a payload in one of the other forms tells: its mode, or else its motors,
/// or else its lamps, or else what its `led` says.
pub proof fn law_payload_command(p: PayloadView)
    ensures
        p.mode matches Some(m) ==> payload_command(p) == Some(
            CommandView::Mode(text::int_text(m as int)),
        ),
        p.mode is None ==> (p.motors matches Some(b) ==> payload_command(p) == Some(
            CommandView::Motors(b),
        )),
        p.mode is None && p.motors is None ==> (p.leds matches Some(many) ==> payload_command(p)
            == Some(CommandView::LedMany(many.0, many.1))),
        p.mode is None && p.motors is None && p.leds is None && p.led is None ==> payload_command(
            p,
        ) is None,
        p.mode is None && p.motors is None && p.leds is None ==> (p.led matches Some(
            JsonView::Bool(b),
        ) ==> payload_command(p) == Some(CommandView::LedAll(b))),
{
}

/// One lamp in the payload of another form is told with the state that was asked
/// for.
pub proof fn law_payload_lamp(p: PayloadView, led: JsonView, id: i64, state: bool)
    requires
        p.mode is None && p.motors is None && p.leds is None,
        p.led == Some(led),
        !(led is Bool),
        names_lamp(led, id, state),
    ensures
        payload_command(p) == Some(CommandView::LedOne(id as u32, state)),
{
}

/// Reading a payload takes the mode and the motors as they stand in it.
pub proof fn law_payload_read(j: JsonView, p: PayloadView)
    requires
        read_payload(j) == Some(p),
    ensures
        p.mode matches Some(m) ==> field_of(j, "mode"@, 0, 4) == Some(
            JsonView::Number(NumberView::Int(m as i64)),
        ),
        p.mode is None ==> field_of(j, "mode"@, 0, 4) is None || field_of(j, "mode"@, 0, 4) == Some(
            JsonView::Null,
        ),
        p.motors matches Some(b) ==> field_of(j, "motors"@, 1, 4) == Some(JsonView::Bool(b)),
        p.motors is None ==> field_of(j, "motors"@, 1, 4) is None || field_of(j, "motors"@, 1, 4)
            == Some(JsonView::Null),
        p.led matches Some(l) ==> field_of(j, "led"@, 2, 4) == Some(l),
        p.leds is None ==> field_of(j, "leds"@, 3, 4) is None || field_of(j, "leds"@, 3, 4) == Some(
            JsonView::Null,
        ),
        p.leds matches Some(many) ==> field_of(j, "leds"@, 3, 4) is Some && field_of(
            field_of(j, "leds"@, 3, 4)->0,
            "state"@,
            1,
            2,
        ) == Some(JsonView::Bool(many.1)),
{
}

/// A message in the form of an array of four that is a command with a payload
/// tells what the payload tells, where that is anything.
pub proof fn law_array_command(a: Seq<JsonView>, p: PayloadView)
    requires
        a.len() == 4,
        a[0] == JsonView::Text("command"@),
        read_payload(a[1]) == Some(p),
        payload_command(p) is Some,
        a[2] is Null,
        a[3] is Null,
        !(a[1] is Null),
    ensures
        command(JsonView::Array(a)) == payload_command(p)->0,
{
}

/// A message is answered under its own number, or else under that of its
/// payload, or else under none.
pub proof fn law_request_id(root: JsonView, id: Seq<char>)
    ensures
        root.get("request_id"@) == Some(JsonView::Text(id)) ==> request_id(root) == Some(id),
        !(root.get("request_id"@) matches Some(JsonView::Text(_))) && json::get2(
            root,
            "payload"@,
            "request_id"@,
        ) == Some(JsonView::Text(id)) ==> request_id(root) == Some(id),
        !(root.get("request_id"@) matches Some(JsonView::Text(_))) && !(json::get2(
            root,
            "payload"@,
            "request_id"@,
        ) matches Some(JsonView::Text(_))) ==> request_id(root) is None,
{
}

/// Every message is published as it came; a command is forwarded where it is one,
/// has a text and the craft is reachable; a configuration is kept whole where it
/// is one; nothing else is.
pub proof fn law_ws_effect(message: Seq<char>, msg: JsonView, reachable: bool, cmd: Seq<char>)
    ensures
        ws_effect(message, msg, reachable).publish == message,
        msg.get("type"@) == Some(JsonView::Text("command"@)) && msg.get("command"@) == Some(
            JsonView::Text(cmd),
        ) && reachable ==> ws_effect(message, msg, reachable).forward == Some(cmd),
        msg.get("type"@) != Some(JsonView::Text("command"@)) || !reachable || !(msg.get("command"@)
            matches Some(JsonView::Text(_))) ==> ws_effect(message, msg, reachable).forward is None,
        msg.get("type"@) == Some(JsonView::Text("config"@)) ==> ws_effect(
            message,
            msg,
            reachable,
        ).config == Some(msg),
        msg.get("type"@) != Some(JsonView::Text("config"@)) ==> ws_effect(
            message,
            msg,
            reachable,
        ).config is None,
{
}

/// After merging, the index holds what it held and the keys that were merged, and
/// nothing else; it was changed exactly where one of them was new, and then its
/// time is that of the merge, or else the one it had.
pub proof fn law_merged(
    before: AvailableFieldIndex,
    keys: Seq<Seq<char>>,
    now: Seq<char>,
    after: AvailableFieldIndex,
    changed: bool,
    k: Seq<char>,
)
    requires
        merged(before, keys, now, after, changed),
    ensures
        text::texts(after.set@).contains(k) <==> text::texts(before.set@).contains(k)
            || keys.contains(k),
        changed <==> exists|i: int|
            0 <= i < keys.len() && !text::texts(before.set@).contains(#[trigger] keys[i]),
        changed ==> after.last_updated@ == now,
        !changed ==> after.last_updated@ == before.last_updated@,
{
    assert(after.fields().contains(k) <==> before.fields().contains(k) || keys.to_set().contains(k));
    if exists|i: int|
        0 <= i < keys.len() && !text::texts(before.set@).contains(#[trigger] keys[i]) {
        let i = choose|i: int|
            0 <= i < keys.len() && !text::texts(before.set@).contains(#[trigger] keys[i]);
        assert(keys.to_set().contains(keys[i]));
        assert(after.fields().contains(keys[i]) && !before.fields().contains(keys[i]));
    } else {
        assert(after.fields() =~= before.fields()) by {
            assert forall|t: Seq<char>| keys.to_set().contains(t) implies before.fields().contains(t) by {
                let i = choose|i: int| 0 <= i < keys.len() && keys[i] == t;
                assert(text::texts(before.set@).contains(keys[i]));
            }
        }
    }
}

/// An object that is no command and whose kind or command is no text is
/// forwarded.
pub proof fn law_unread_texts_are_forwarded(root: JsonView)
    requires
        root is Object,
        root.get("type"@) != Some(JsonView::Text("command"@)),
        (root.get("type"@) matches Some(k) && !(k is Null) && !(k is Text)) || (root.get("command"@)
            matches Some(c) && !(c is Null) && !(c is Text)),
    ensures
        command(root) == CommandView::Forward,
{
}

/// A payload can be read exactly where it is an object or an array of four, its
/// mode is an integer of 32 bits, its motors are a boolean and its lamps are
/// named, as far as it has them.
pub proof fn law_payload_readable(j: JsonView)
    ensures
        read_payload(j) is Some <==> (j is Object || (j matches JsonView::Array(a) && a.len() == 4)) && (
        field_of(j, "mode"@, 0, 4) matches Some(m) ==> m is Null || (m matches JsonView::Number(
            NumberView::Int(i),
        ) && -0x8000_0000 <= i <= 0x7fff_ffff)) && (field_of(j, "motors"@, 1, 4) matches Some(b)
            ==> b is Null || b is Bool) && (field_of(j, "leds"@, 3, 4) matches Some(l) ==> l is Null
            || exists|ids: Seq<JsonView>, state: bool| names_lamps(l, ids, state)),
{
    match field_of(j, "leds"@, 3, 4) {
        Some(l) => {
            lemma_lamps_readable(l);
        },
        None => {},
    }
}

/// Several lamps can be read exactly where they are named.
proof fn lemma_lamps_readable(l: JsonView)
    ensures
        read_led_many(l) is Some <==> exists|ids: Seq<JsonView>, state: bool|
            names_lamps(l, ids, state),
{
    match (field_of(l, "ids"@, 0, 2), field_of(l, "state"@, 1, 2)) {
        (Some(JsonView::Array(ids)), Some(JsonView::Bool(state))) => {
            law_lamp_numbers(ids);
            if read_led_many(l) is Some {
                assert(names_lamps(l, ids, state));
            }
        },
        _ => {},
    }
}

/// Lamps that were read are those that are named, in order, with their state.
pub proof fn law_lamps_read(l: JsonView, ids: Seq<JsonView>, state: bool)
    requires
        names_lamps(l, ids, state),
    ensures
        read_led_many(l) is Some,
        (read_led_many(l)->0).1 == state,
        (read_led_many(l)->0).0.len() == ids.len(),
        forall|i: int|
            0 <= i < ids.len() ==> #[trigger] ids[i] == JsonView::Number(
                NumberView::Int((read_led_many(l)->0).0[i] as i64),
            ),
{
    law_lamp_numbers(ids);
}

/// A command is shown as what it is.
pub proof fn law_command_view(ids: Vec<u32>, id: u32, state: bool, mode: String)
    ensures
        Command::LedMany(ids, state)@ == CommandView::LedMany(ids@, state),
        Command::LedAll(state)@ == CommandView::LedAll(state),
        Command::LedOne(id, state)@ == CommandView::LedOne(id, state),
        Command::Mode(mode)@ == CommandView::Mode(mode@),
        Command::Motors(state)@ == CommandView::Motors(state),
        Command::Forward@ == CommandView::Forward,
{
}

/// An effect is shown as what it is.
pub proof fn law_effect_view(e: WsEffect)
    ensures
        e@.publish == e.publish@,
        e.forward is None <==> e@.forward is None,
        e.forward matches Some(c) ==> e@.forward == Some(c@),
        e.config is None <==> e@.config is None,
        e.config matches Some(j) ==> e@.config == Some(j@),
{
}

}
