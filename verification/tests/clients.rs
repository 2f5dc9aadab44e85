use artheris::double::Double;
use artheris::http_server::{
    apply_config, apply_config_at, get_available_fields, ApiError, LoggerConfig, MetadataConfig,
    Recordings, Refusal, RetentionConfig, StartCondition, StopCondition, TriggerConfig,
};
use artheris::json::{parse_text, Json};
use artheris::server::{
    client_step, command_of, effect_of, handle_incoming, handle_ws_message, request_id_of,
    AvailableFieldIndex, ClientStep, Command, Frame, Incoming, WsEffect,
};
use artheris::stats::{get_stats, reading_before, IngestStats, StatsSnapshot};

fn json(t: &str) -> Json {
    parse_text(t).unwrap()
}

fn strings(list: &[&str]) -> Vec<String> {
    list.iter().map(|s| s.to_string()).collect()
}

fn told(t: &str) -> Command {
    command_of(&json(t))
}

#[test]
fn fields_are_indexed_once() {
    let mut index = AvailableFieldIndex::new_at("then".to_string());
    assert!(index.merge_keys_at(strings(&["b", "a", "b"]), "one".to_string()));
    assert_eq!(index.set, strings(&["a", "b"]));
    assert_eq!(index.last_updated, "one");
    assert!(!index.merge_keys_at(strings(&["a", "b"]), "two".to_string()));
    assert_eq!(index.last_updated, "one");
    assert!(index.merge_keys_at(strings(&["c", "a"]), "three".to_string()));
    assert_eq!(index.set, strings(&["a", "b", "c"]));
    assert_eq!(index.last_updated, "three");
    assert!(!index.merge_keys_at(Vec::new(), "four".to_string()));
}

#[test]
fn the_order_of_merging_does_not_matter() {
    let mut ab = AvailableFieldIndex::new_at("t".to_string());
    ab.merge_keys_at(strings(&["x", "y"]), "t".to_string());
    ab.merge_keys_at(strings(&["a"]), "t".to_string());
    let mut ba = AvailableFieldIndex::new_at("t".to_string());
    ba.merge_keys_at(strings(&["a"]), "t".to_string());
    ba.merge_keys_at(strings(&["x", "y"]), "t".to_string());
    assert_eq!(ab, ba);
}

#[test]
fn an_index_knows_when_it_changed() {
    let mut index = AvailableFieldIndex::default();
    assert!(index.set.is_empty());
    assert!(chrono::DateTime::parse_from_rfc3339(&index.last_updated).is_ok());
    assert!(index.merge_keys(strings(&["a"])));
    assert!(chrono::DateTime::parse_from_rfc3339(&index.last_updated).is_ok());
    let then = index.last_updated.clone();
    assert!(!index.merge_keys(strings(&["a"])));
    assert_eq!(index.last_updated, then);
    assert!(AvailableFieldIndex::new().set.is_empty());
}

fn effect(forward: Option<&str>, text: &str) -> WsEffect {
    WsEffect {
        forward: forward.map(|c| c.to_string()),
        config: None,
        publish: text.to_string(),
    }
}

#[test]
fn commands_are_forwarded_where_the_craft_is_reachable() {
    let t = r#"{"type":"command","command":"ARM"}"#;
    assert_eq!(handle_ws_message(t, true), Ok(effect(Some("ARM"), t)));
    assert_eq!(handle_ws_message(t, false), Ok(effect(None, t)));
    let t = r#"{"type":"command","command":5}"#;
    assert_eq!(handle_ws_message(t, true), Ok(effect(None, t)));
    let t = r#"{"command":"ARM"}"#;
    assert_eq!(handle_ws_message(t, true), Ok(effect(None, t)));
}

#[test]
fn messages_are_published_as_they_came() {
    for t in [" [1, 2] ", r#"{"type": "config", "a" : 1}"#, "\"x\"", "null"] {
        assert_eq!(handle_ws_message(t, true).unwrap().publish, t);
    }
}

#[test]
fn a_configuration_message_is_kept_whole() {
    let t = r#"{"selectedFields":["a"],"type":"config"}"#;
    let effect = effect_of(t, &json(t), true);
    assert_eq!(effect.forward, None);
    assert_eq!(effect.config.unwrap().to_text(), t);
    assert_eq!(effect.publish, t);
}

#[test]
fn a_message_that_is_no_json_is_an_error() {
    assert_eq!(
        handle_ws_message("ARM", true),
        Err("Failed to parse WebSocket message as JSON".to_string())
    );
}

#[test]
fn commands_in_the_payload() {
    assert_eq!(
        told(r#"{"type":"command","payload":{"leds":{"ids":[1,2],"state":true},"led":false}}"#),
        Command::LedMany(vec![1, 2], true)
    );
    assert_eq!(
        told(r#"{"type":"command","payload":{"led":false,"mode":1}}"#),
        Command::LedAll(false)
    );
    assert_eq!(
        told(r#"{"type":"command","payload":{"led":{"id":7,"state":true}}}"#),
        Command::LedOne(7, true)
    );
    assert_eq!(
        told(r#"{"type":"command","payload":{"mode":-3,"motors":true}}"#),
        Command::Mode("-3".to_string())
    );
    assert_eq!(told(r#"{"type":"command","payload":{"motors":true}}"#), Command::Motors(true));
    assert_eq!(told(r#"{"type":"command","payload":{}}"#), Command::Forward);
    assert_eq!(told(r#"{"type":"command","payload":null}"#), Command::Forward);
}

#[test]
fn a_command_may_stand_one_payload_deeper() {
    assert_eq!(
        told(r#"{"type":"command","payload":{"mode":1,"payload":{"motors":false}}}"#),
        Command::Motors(false)
    );
}

#[test]
fn lamps_are_read_as_records_or_lists() {
    assert_eq!(
        told(r#"{"type":"command","payload":{"leds":[[3],false]}}"#),
        Command::LedMany(vec![3], false)
    );
    assert_eq!(
        told(r#"{"type":"command","payload":{"led":[4,true]}}"#),
        Command::LedOne(4, true)
    );
    for bad in [
        r#"{"leds":{"ids":[1,-2],"state":true}}"#,
        r#"{"leds":{"ids":[4294967296],"state":true}}"#,
        r#"{"leds":{"ids":[1.0],"state":true}}"#,
        r#"{"leds":{"ids":[1]}}"#,
        r#"{"leds":[[1],true,0]}"#,
        r#"{"led":{"id":"1","state":true}}"#,
        r#"{"led":[1]}"#,
    ] {
        assert_eq!(
            told(&format!("{{\"type\":\"command\",\"payload\":{}}}", bad)),
            Command::Forward
        );
    }
}

#[test]
fn other_forms_of_commands() {
    assert_eq!(told(r#"{"mode":2}"#), Command::Mode("2".to_string()));
    assert_eq!(told(r#"{"type":"x","mode":2,"command":"ON_LED"}"#), Command::Mode("2".to_string()));
    assert_eq!(told(r#"{"command":"ON_LED"}"#), Command::LedAll(true));
    assert_eq!(told(r#"{"command":"OFF_LED"}"#), Command::LedAll(false));
    assert_eq!(told(r#"{"command":"ON_MOTORS"}"#), Command::Motors(true));
    assert_eq!(told(r#"{"command":"OFF_MOTORS"}"#), Command::Motors(false));
    assert_eq!(told(r#"{"command":"DANCE"}"#), Command::Forward);
    assert_eq!(told(r#"{"mode":2147483648}"#), Command::Forward);
    assert_eq!(told(r#"{"type":5,"mode":2}"#), Command::Forward);
    assert_eq!(told(r#"{"type":"command","command":"ON_LED"}"#), Command::LedAll(true));
    assert_eq!(told("7"), Command::Forward);
}

#[test]
fn a_message_as_a_list() {
    assert_eq!(
        told(r#"["command",{"mode":null,"motors":true,"leds":[[1],true]},null,null]"#),
        Command::Motors(true)
    );
    assert_eq!(
        told(r#"["command",[null,null,false,[[1],true]],null,null]"#),
        Command::LedMany(vec![1], true)
    );
    assert_eq!(told(r#"["command",[null,null,[9,true],null],null,null]"#), Command::LedOne(9, true));
    assert_eq!(told(r#"["command",[5,null,null,null],null,null]"#), Command::Mode("5".to_string()));
    assert_eq!(told(r#"["x",{"mode":1},8,null]"#), Command::Mode("8".to_string()));
    assert_eq!(told(r#"["command",{"led":"x"},null,"ON_MOTORS"]"#), Command::Motors(true));
    assert_eq!(told(r#"["command",{"mode":"x"},8,null]"#), Command::Forward);
    assert_eq!(told(r#"["command",null,8]"#), Command::Forward);
}

#[test]
fn decoded_forms_agree_with_serde() {
    for t in ["[1]", "[4294967295]", "[4294967296]", "[-1]", "[1.0]", "[1e0]", "[]"] {
        let expected: Result<Vec<u32>, _> = serde_json::from_str(t);
        let command = told(&format!(
            "{{\"type\":\"command\",\"payload\":{{\"leds\":{{\"ids\":{},\"state\":true}}}}}}",
            t
        ));
        match expected {
            Ok(ids) => assert_eq!(command, Command::LedMany(ids, true)),
            Err(_) => assert_eq!(command, Command::Forward),
        }
    }
}

#[test]
fn messages_are_answered_under_their_number() {
    assert_eq!(request_id_of(&json(r#"{"request_id":"a","payload":{"request_id":"b"}}"#)), Some("a".to_string()));
    assert_eq!(request_id_of(&json(r#"{"request_id":1,"payload":{"request_id":"b"}}"#)), Some("b".to_string()));
    assert_eq!(request_id_of(&json(r#"{"payload":{"request_id":2}}"#)), None);
    assert_eq!(
        handle_incoming(r#"{"type":"command","request_id":"r","payload":{"led":true}}"#),
        Incoming::Tell(Command::LedAll(true), Some("r".to_string()))
    );
    assert_eq!(handle_incoming("plain"), Incoming::Republish);
}

#[test]
fn errors_are_shown() {
    assert_eq!(ApiError::BadRequest("x".to_string()).message(), "Bad request: x");
    assert_eq!(ApiError::Internal("x".to_string()).message(), "Internal server error: x");
    assert_eq!(ApiError::NotFound("x".to_string()).message(), "Not found: x");
}

fn logger_config(field: &str) -> LoggerConfig {
    let d = |x: f64| Double { bits: x.to_bits() };
    LoggerConfig {
        schema_version: 1,
        selected_fields: vec![field.to_string()],
        retention: RetentionConfig::Ttl { mode: "ttl".to_string(), seconds: 60 },
        triggers: TriggerConfig {
            start_when: StartCondition { key: "a".to_string(), between: (d(0.0), d(1.0)) },
            stop_when: Some(StopCondition {
                key: "a".to_string(),
                outside_for_seconds: 5,
                range: (d(0.0), d(1.0)),
            }),
        },
        metadata: Some(MetadataConfig { mass: Some(d(1.5)), arm_length: None }),
    }
}

#[test]
fn recordings_start_and_stop() {
    let mut r = Recordings::new();
    assert_eq!(r.current_config, None);
    let a = r
        .start_recording_as(Ok(logger_config("x")), &json("{}"), "f1".to_string())
        .unwrap();
    assert_eq!(r.current_config, Some(logger_config("x")));
    assert_eq!(a.broadcast, r#"{"flight_id":"f1","type":"recording_started"}"#);
    assert_eq!(a.response.to_text(), r#"{"flight_id":"f1","status":"recording_started"}"#);
    assert_eq!(r.current_flight_id, Some("f1".to_string()));
    let a = r.stop_recording().unwrap();
    assert_eq!(a.broadcast, r#"{"flight_id":"f1","type":"recording_stopped"}"#);
    assert_eq!(a.response.to_text(), r#"{"flight_id":"f1","status":"recording_stopped"}"#);
    assert_eq!(
        r.stop_recording(),
        Err(Refusal { status: 400, message: "No active recording".to_string() })
    );
    assert_eq!(r.current_flight_id, None);
    assert_eq!(r.current_config, Some(logger_config("x")));
    r.start_recording_as(Ok(logger_config("y")), &json("{}"), "f2".to_string()).unwrap();
    assert_eq!(r.current_config, Some(logger_config("y")));
    assert!(r.start_recording(Err("e".to_string()), &json("1")).is_err());
    assert_eq!(r.current_flight_id, Some("f2".to_string()));
    assert_eq!(r.current_config, Some(logger_config("y")));
}

#[test]
fn a_configuration_that_cannot_be_read_starts_nothing() {
    let mut r = Recordings::new();
    assert_eq!(
        r.start_recording(Err("missing field".to_string()), &json(r#"{"a":1}"#)),
        Err(Refusal {
            status: 400,
            message: "Invalid config format: missing field\nConfig: {\"a\":1}".to_string()
        })
    );
    assert_eq!(r.current_flight_id, None);
    assert_eq!(r.current_config, None);
}

#[test]
fn flights_are_numbered_at_random() {
    let mut r = Recordings::new();
    r.start_recording(Ok(logger_config("x")), &json("{}")).unwrap();
    let first = r.current_flight_id.clone().unwrap();
    r.start_recording(Ok(logger_config("x")), &json("{}")).unwrap();
    let second = r.current_flight_id.clone().unwrap();
    assert_ne!(first, second);
    let chars: Vec<char> = first.chars().collect();
    assert_eq!(chars.len(), 36);
    for (i, c) in chars.iter().enumerate() {
        if i == 8 || i == 13 || i == 18 || i == 23 {
            assert_eq!(*c, '-');
        } else {
            assert!(c.is_ascii_digit() || ('a'..='f').contains(c));
        }
    }
    assert_eq!(chars[14], '4');
    assert!(matches!(chars[19], '8' | '9' | 'a' | 'b'));
}

#[test]
fn a_configuration_seeds_the_index() {
    let mut index = AvailableFieldIndex::new_at("then".to_string());
    let config = json(r#"{"selectedFields":["b",1,"a"]}"#);
    let effect = apply_config_at(&config, &mut index, "now".to_string());
    assert_eq!(index.set, strings(&["a", "b"]));
    assert_eq!(index.last_updated, "now");
    assert_eq!(effect.last_config, config);
    assert_eq!(effect.stored, r#"{"selectedFields":["b",1,"a"]}"#);
    assert_eq!(effect.response.to_text(), r#"{"status":"ok"}"#);
    apply_config(&json("{}"), &mut index);
    assert_eq!(index.set, strings(&["a", "b"]));
    assert_eq!(index.last_updated, "now");
}

#[test]
fn known_fields_are_listed() {
    let mut index = AvailableFieldIndex::new_at("then".to_string());
    index.merge_keys_at(strings(&["b", "a"]), "now".to_string());
    assert_eq!(
        get_available_fields(&index).to_text(),
        r#"{"fields":["a","b"],"last_updated":"now"}"#
    );
}

#[test]
fn counters_are_shown() {
    let mut s = IngestStats::default();
    s.udp_received = 1;
    s.selected_kept = 2;
    s.ilp_enqueued = 3;
    s.ilp_flushed = 4;
    s.ilp_failed = 5;
    s.channel_depth = 6;
    assert_eq!(s.snapshot_at(99_000_000).flush_lag_ms, 0);
    s.mark_flush_at(1_000_000);
    assert_eq!(
        s.snapshot_at(8_999_999),
        StatsSnapshot {
            udp_received: 1,
            selected_kept: 2,
            ilp_enqueued: 3,
            ilp_flushed: 4,
            ilp_failed: 5,
            channel_depth: 6,
            flush_lag_ms: 7,
        }
    );
    assert_eq!(s.snapshot_at(5).flush_lag_ms, 0);
}

#[test]
fn flushes_are_noted() {
    let mut s = IngestStats::default();
    s.udp_received = 9;
    s.last_flush_instant_ns = 77;
    s.mark_flush_now();
    assert_eq!(s.udp_received, 9);
    assert!(s.last_flush_instant_ns <= 1);
    assert_eq!(get_stats(&s).udp_received, 9);
    assert_eq!(get_stats(&s).flush_lag_ms, 0);
}

#[test]
fn frames_from_clients() {
    let text = r#"{"type":"command","command":"ARM"}"#.to_string();
    assert_eq!(
        client_step(Frame::Text(text.clone()), true),
        ClientStep::Handle(effect(Some("ARM"), &text), text)
    );
    assert_eq!(
        client_step(Frame::Text("ARM".to_string()), true),
        ClientStep::End(Some("Failed to parse WebSocket message as JSON".to_string()))
    );
    assert_eq!(client_step(Frame::Ping(vec![1, 2]), true), ClientStep::Pong(vec![1, 2]));
    assert_eq!(client_step(Frame::Close, true), ClientStep::End(None));
    assert_eq!(client_step(Frame::Other, true), ClientStep::Ignore);
}

#[test]
fn a_flush_that_was_just_noted_lags_by_nothing() {
    let mut s = IngestStats::default();
    s.ilp_flushed = 3;
    s.last_flush_instant_ns = 1;
    let before = s.snapshot_at(9_000_001);
    assert_eq!(before.flush_lag_ms, 9);
    s.mark_flush_at(9_000_001);
    assert_eq!(s.snapshot_at(9_000_001), StatsSnapshot { flush_lag_ms: 0, ..before });
}

#[test]
fn a_new_index_is_dated_in_utc() {
    let now = AvailableFieldIndex::new().last_updated;
    let chars: Vec<char> = now.chars().collect();
    assert!(now.ends_with("+00:00"));
    assert!(matches!(chars.len(), 25 | 29 | 32 | 35));
    for (i, c) in chars[..chars.len() - 6].iter().enumerate() {
        match i {
            4 | 7 => assert_eq!(*c, '-'),
            10 => assert_eq!(*c, 'T'),
            13 | 16 => assert_eq!(*c, ':'),
            19 => assert_eq!(*c, '.'),
            _ => assert!(c.is_ascii_digit()),
        }
    }
}

#[test]
fn the_clock_reads_one_until_the_next_instant() {
    assert_eq!(reading_before(0), 1);
    assert_eq!(reading_before(1), 0);
    assert_eq!(reading_before(u128::MAX), 0);
}
