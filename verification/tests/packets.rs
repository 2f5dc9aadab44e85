use artheris::dataudp;
use artheris::json::{parse_text, Json};
use artheris::questdb::{OptionalDb, QuestDb};
use artheris::telemetry::{
    database_config, discover_numeric_keys, extract_numeric_record_and_time, flush_batch, flush_due,
    flush_lines, ingest_due, is_exit, normalize, normalize_packet, push_records, sampled_keys,
    tick_due, Dispatcher, Selection,
};

fn json(t: &str) -> Json {
    parse_text(t).unwrap()
}

fn all() -> Selection {
    Selection::of_config(None)
}

fn strings(list: &[&str]) -> Vec<String> {
    list.iter().map(|s| s.to_string()).collect()
}

fn database() -> OptionalDb {
    let config = database_config(None, None, None, None, None);
    let mut db = OptionalDb::new(config.clone());
    db.inner = Some(QuestDb::connect(config, None));
    db
}

#[test]
fn messages_stay_as_they_are() {
    for t in [r#"{"type":"ack","x":1}"#, r#"{"payload":{"a":1},"type":"telemetry"}"#] {
        assert_eq!(normalize(json(t)).to_text(), t);
    }
}

#[test]
fn anything_else_is_carried_as_telemetry() {
    assert_eq!(normalize(json(r#"{"a":1}"#)).to_text(), r#"{"payload":{"a":1},"type":"telemetry"}"#);
    assert_eq!(
        normalize(json(r#"{"type":"other"}"#)).to_text(),
        r#"{"payload":{"type":"other"},"type":"telemetry"}"#
    );
    assert_eq!(normalize(json("[1]")).to_text(), r#"{"payload":[1],"type":"telemetry"}"#);
    let once = normalize(json("3"));
    assert_eq!(normalize(once.clone()), once);
}

#[test]
fn packets_are_json_text_or_unknown() {
    assert_eq!(
        normalize_packet(br#"{"a":1}"#).unwrap().to_text(),
        r#"{"payload":{"a":1},"type":"telemetry"}"#
    );
    assert_eq!(
        normalize_packet("hola \u{f1}".as_bytes()).unwrap().to_text(),
        "{\"payload\":\"hola \u{f1}\",\"type\":\"telemetry\"}"
    );
    assert!(normalize_packet(&[0xff, 0xfe]).is_none());
    assert!(dataudp::normalize_text_packet(&[0xff, 0xfe]).is_none());
    assert_eq!(
        dataudp::normalize_text_packet(br#"{"type":"ack"}"#).unwrap().to_text(),
        r#"{"type":"ack"}"#
    );
    assert_eq!(
        dataudp::normalize_text_packet(b"plain").unwrap().to_text(),
        r#"{"payload":"plain","type":"telemetry"}"#
    );
}

#[test]
fn numeric_fields_are_discovered() {
    let j = json(
        r#"{"payload":{"b":1,"a":{"x":2,"y":"no","z":[{"k":1},{"k":2},3]},"s":"{\"in\":5}","t":"[1]","u":" {\"in\":5}"}}"#,
    );
    assert_eq!(discover_numeric_keys(&j), strings(&["a.x", "a.z", "a.z.k", "b", "s.in", "t"]));
    assert_eq!(
        dataudp::discover_numeric_keys(&j),
        strings(&["a.x", "a.z", "a.z.k", "b", "s.in", "t", "u.in"])
    );
}

#[test]
fn a_number_without_a_name_is_no_field() {
    assert!(discover_numeric_keys(&json("5")).is_empty());
    assert!(discover_numeric_keys(&json(r#"{"":5}"#)).is_empty());
    assert!(dataudp::discover_numeric_keys(&json("5")).is_empty());
    assert_eq!(dataudp::discover_numeric_keys(&json(r#"{"":5}"#)), strings(&[""]));
}

#[test]
fn text_inside_text_is_searched() {
    let j = json(r#"{"payload":"{\"a\":\"{\\\"b\\\":1}\"}"}"#);
    assert_eq!(discover_numeric_keys(&j), strings(&["a.b"]));
    assert_eq!(dataudp::discover_numeric_keys(&j), strings(&["a.b"]));
}

#[test]
fn records_keep_the_numbers() {
    let r = extract_numeric_record_and_time(
        &json(r#"{"type":"telemetry","payload":{"a":1,"b":"x","time":5,"mode":3,"c":2.5}}"#),
        &all(),
    )
    .unwrap();
    assert_eq!(Json::Object(r.fields).to_text(), r#"{"a":1,"c":2.5}"#);
    assert_eq!(r.time_field, Some("time".to_string()));
    assert_eq!(r.mode, Some("3".to_string()));
}

#[test]
fn only_the_first_time_and_mode_are_taken() {
    let r = extract_numeric_record_and_time(
        &json(r#"{"Time":1,"mode":"auto","modo":2,"timestamp":3,"x":4}"#),
        &all(),
    )
    .unwrap();
    assert_eq!(Json::Object(r.fields).to_text(), r#"{"modo":2,"timestamp":3,"x":4}"#);
    assert_eq!(r.time_field, Some("Time".to_string()));
    assert_eq!(r.mode, Some("auto".to_string()));
}

#[test]
fn a_mode_without_text_is_passed_over() {
    let r = extract_numeric_record_and_time(
        &json(r#"{"MODE":null,"Mode":[1],"mode":1.5,"x":4}"#),
        &all(),
    )
    .unwrap();
    assert_eq!(Json::Object(r.fields).to_text(), r#"{"x":4}"#);
    assert_eq!(r.mode, Some("1.5".to_string()));
    assert_eq!(r.time_field, None);
}

#[test]
fn selections_come_from_the_configuration() {
    let config = json(
        r#"{"selectedFields":["a","t",7,"b"],"metadata":{"timeField":"t","modeField":"m"}}"#,
    );
    let s = Selection::of_config(Some(&config));
    assert_eq!(s.allow, Some(strings(&["a", "t", "b"])));
    let r = extract_numeric_record_and_time(&json(r#"{"a":1,"b":2,"c":3,"m":"x","t":4}"#), &s).unwrap();
    assert_eq!(Json::Object(r.fields).to_text(), r#"{"a":1,"b":2}"#);
    assert_eq!(r.time_field, Some("t".to_string()));
    assert_eq!(r.mode, Some("x".to_string()));
}

#[test]
fn a_configuration_without_fields_keeps_nothing() {
    let s = Selection::of_config(Some(&json("{}")));
    assert_eq!(s.allow, Some(Vec::new()));
    assert!(extract_numeric_record_and_time(&json(r#"{"a":1}"#), &s).is_none());
}

#[test]
fn values_without_fields_give_no_record() {
    assert!(extract_numeric_record_and_time(&json("[1]"), &all()).is_none());
    assert!(extract_numeric_record_and_time(&json(r#"{"a":"x"}"#), &all()).is_none());
    assert!(extract_numeric_record_and_time(&json(r#"{"ts":1}"#), &all()).is_none());
}

#[test]
fn messages_add_their_records_to_the_batch() {
    let mut batch = Vec::new();
    push_records(&json(r#"{"payload":[{"a":1},{"b":"x"},{"c":2},3]}"#), &all(), &mut batch);
    push_records(&json(r#"{"payload":{"d":4}}"#), &all(), &mut batch);
    let texts: Vec<String> = batch.iter().map(|j| j.to_text()).collect();
    assert_eq!(texts, strings(&[r#"{"a":1}"#, r#"{"c":2}"#, r#"{"d":4}"#]));
}

#[test]
fn one_message_in_fifty_is_searched() {
    let j = json(r#"{"payload":{"a":1}}"#);
    assert_eq!(sampled_keys(0, &j), strings(&["a"]));
    assert!(sampled_keys(1, &j).is_empty());
    assert!(sampled_keys(49, &j).is_empty());
    assert_eq!(sampled_keys(100, &j), strings(&["a"]));
}

#[test]
fn batches_are_flushed_in_time() {
    let few: Vec<Json> = vec![Json::Null];
    let many: Vec<Json> = (0..1500).map(|_| Json::Null).collect();
    assert!(flush_due(&many, 0));
    assert!(!flush_due(&few, 250_000_000));
    assert!(flush_due(&few, 250_000_001));
    assert!(tick_due(&few));
    assert!(!tick_due(&Vec::new()));
    assert!(ingest_due(Some("f"), &few));
    assert!(!ingest_due(None, &few));
    assert!(!ingest_due(Some("f"), &Vec::new()));
}

#[test]
fn a_batch_that_was_not_written_stays() {
    let mut batch = vec![json(r#"{"a":1}"#)];
    assert_eq!(
        flush_batch(&mut batch, Some(Err("down".to_string()))),
        Err("Failed to ingest batch: down".to_string())
    );
    assert_eq!(batch.len(), 1);
    assert_eq!(flush_batch(&mut batch, Some(Ok(1))), Ok(()));
    assert!(batch.is_empty());
    batch.push(json("{}"));
    assert_eq!(flush_batch(&mut batch, None), Ok(()));
    assert!(batch.is_empty());
}

#[test]
fn flushed_batches_bear_the_flight() {
    let batch = vec![json(r#"{"a":1,"timestamp":12}"#)];
    assert_eq!(
        flush_lines(&database(), "f", &batch),
        Ok(strings(&["flight_telemetry,flight_id=f,schema_version=1 a=1i 12"]))
    );
    assert_eq!(
        flush_lines(&database(), "f", &vec![Json::Null]),
        Err("record is not a JSON object".to_string())
    );
}

#[test]
fn single_records_bear_their_mode_and_time() {
    let record = extract_numeric_record_and_time(
        &json(r#"{"a":1,"mode":"auto"}"#),
        &all(),
    )
    .unwrap();
    let lines = dataudp::record_lines(&database(), "f", record).unwrap();
    assert_eq!(lines.len(), 1);
    assert!(lines[0].starts_with("flight_telemetry,flight_id=f,mode=auto,schema_version=1 a=1i "));
    let record = extract_numeric_record_and_time(&json(r#"{"a":1}"#), &all()).unwrap();
    let mut db = database();
    db.inner.as_mut().unwrap().connected = false;
    assert_eq!(
        dataudp::record_lines(&db, "f", record),
        Err("Not connected to QuestDB".to_string())
    );
}

#[test]
fn packets_are_dealt_in_turn() {
    let mut d = Dispatcher::new();
    let dealt: Vec<usize> = (0..6).map(|_| d.pick(4)).collect();
    assert_eq!(dealt, vec![0, 1, 2, 3, 0, 1]);
    let mut d = Dispatcher { next: usize::MAX };
    assert_eq!(d.pick(4), usize::MAX % 4);
    assert_eq!(d.pick(4), 0);
}

#[test]
fn the_word_that_ends_the_program() {
    assert!(is_exit(" Exit \t"));
    assert!(is_exit("exit"));
    assert!(!is_exit("exit now"));
    assert!(!is_exit(""));
}

#[test]
fn the_environment_configures_the_database() {
    let c = database_config(None, None, None, None, None);
    assert_eq!(c.host, "127.0.0.1");
    assert_eq!(c.port, 8812);
    assert_eq!(c.user, "admin");
    assert_eq!(c.password, "quest");
    assert_eq!(c.database, "qdb");
    assert_eq!(c.table_name, Some("flight_telemetry".to_string()));
    assert_eq!(c.time_col, Some("timestamp".to_string()));
    let given = |s: &str| Some(s.to_string());
    let c = database_config(given("h"), given("99"), given("u"), given("p"), given("d"));
    assert_eq!((c.host.as_str(), c.port, c.user.as_str()), ("h", 99, "u"));
    assert_eq!((c.password.as_str(), c.database.as_str()), ("p", "d"));
    assert_eq!(database_config(None, given("x"), None, None, None).port, 8812);
    assert_eq!(database_config(None, given("70000"), None, None, None).port, 8812);
}

#[test]
fn of_fifty_messages_in_a_row_one_is_searched() {
    let j = json(r#"{"payload":{"a":1}}"#);
    for first in [0u64, 1, 49, 50, 1_234_567] {
        let searched = (first..first + 50).filter(|t| !sampled_keys(*t, &j).is_empty()).count();
        assert_eq!(searched, 1);
    }
}
