use artheris::clock::Moment;
use artheris::ilp::{choose_timestamp_ns, IlpHttp};
use artheris::json::{parse_text, Json};
use artheris::questdb::{
    connect_failed, ingested, legacy_failed, line_for_record, probe_answer, probe_sql_insert,
    schema_failed, ColumnKind, FlightPoint, OptionalDb, Param, ProbeResp, QuestDb, QuestDbConfig,
};

fn tag(name: &str, value: &str) -> (String, String) {
    (name.to_string(), value.to_string())
}

fn members(t: &str) -> Vec<(String, Json)> {
    match parse_text(t) {
        Some(Json::Object(e)) => e,
        other => panic!("{:?}", other),
    }
}

fn config() -> QuestDbConfig {
    QuestDbConfig {
        host: "db".to_string(),
        port: 8812,
        user: "admin".to_string(),
        password: "quest".to_string(),
        database: "qdb".to_string(),
        table_name: None,
        time_col: None,
    }
}

fn connected() -> QuestDb {
    QuestDb::connect(config(), None)
}

fn at(nanos: i64) -> Moment {
    Moment { nanos: Some(nanos), micros: 0 }
}

fn names(list: &[&str]) -> Vec<String> {
    list.iter().map(|s| s.to_string()).collect()
}

#[test]
fn endpoint_is_normalised() {
    let url = |base: &str| IlpHttp::new(base.to_string(), "t").url;
    assert_eq!(url("http://h:9000"), "http://h:9000/imp?precision=ns");
    assert_eq!(url("http://h:9000/"), "http://h:9000/imp?precision=ns");
    assert_eq!(url("http://h:9000/exec"), "http://h:9000/imp?precision=ns");
    assert_eq!(url("http://h:9000/imp"), "http://h:9000/imp?precision=ns");
    assert_eq!(url("http://h/?a=b"), "http://h/imp?a=b&precision=ns");
    assert_eq!(url("http://h/imp?precision=us"), "http://h/imp?precision=ns");
    assert_eq!(
        url("http://127.0.0.1:9000/imp?precision=ms"),
        "http://127.0.0.1:9000/imp?precision=ns"
    );
    assert_eq!(url("http://h/exec?"), "http://h/imp?precision=ns");
    assert_eq!(
        url("http://h/exec?a=1&precision=us&&b=precision=2&precision=ms&c?d"),
        "http://h/imp?a=1&b=precision=2&c?d&precision=ns"
    );
    assert_eq!(url(""), "/imp?precision=ns");
}

#[test]
fn lines_carry_tags_fields_and_time() {
    let ilp = IlpHttp::new("http://h".to_string(), "my table");
    let tags = vec![tag("flight id", "a,b=c"), tag("mode", "")];
    let fields = members(r#"{"a":1,"b":2.5,"c":true,"d":null,"e":"say \"hi\"","f":[1,"x"]}"#);
    assert_eq!(
        ilp.json_to_line(&tags, &fields, Some(42)),
        Some(
            "my\\ table,flight\\ id=a\\,b\\=c a=1i,b=2.5,c=t,e=\"say \\\"hi\\\"\",f=\"[1,\\\"x\\\"]\" 42"
                .to_string()
        )
    );
    let none: Vec<(String, String)> = Vec::new();
    assert_eq!(
        ilp.json_to_line(&none, &members(r#"{"a":-1}"#), None),
        Some("my\\ table a=-1i".to_string())
    );
}

#[test]
fn a_line_without_fields_is_none() {
    let ilp = IlpHttp::new("http://h".to_string(), "t");
    assert_eq!(ilp.json_to_line(&vec![tag("a", "b")], &Vec::new(), Some(1)), None);
    assert_eq!(ilp.json_to_line(&vec![tag("a", "b")], &members(r#"{"x":null}"#), Some(1)), None);
}

#[test]
fn large_integers_are_written_as_doubles() {
    let ilp = IlpHttp::new("http://h".to_string(), "t");
    assert_eq!(
        ilp.json_to_line(&Vec::new(), &members(r#"{"a":18446744073709551615}"#), None),
        Some("t a=18446744073709552000".to_string())
    );
}

#[test]
fn replies_are_judged_by_their_status() {
    let ilp = IlpHttp::new("http://h".to_string(), "t");
    assert_eq!(ilp.write_lines(204, "204 No Content", ""), Ok(()));
    assert_eq!(
        ilp.write_lines(400, "400 Bad Request", "no"),
        Err("ILP write failed: url=http://h/imp?precision=ns status=400 Bad Request body=no".to_string())
    );
    assert!(ilp.write_lines(300, "300", "").is_err());
    assert!(ilp.write_lines(199, "199", "").is_err());
    assert!(connected().write_lines(500, "500", "").is_err());
    assert_eq!(IlpHttp::request_body(&names(&["a", "b"])), "a\nb");
}

#[test]
fn timestamps_are_chosen() {
    assert_eq!(choose_timestamp_ns(Some("1970-01-01T00:00:01Z")), 1_000_000_000);
    let now = choose_timestamp_ns(None);
    assert!(now > 1_600_000_000_000_000_000);
    assert!(choose_timestamp_ns(Some("x")) >= now);
}

#[test]
fn a_database_has_its_defaults() {
    let db = connected();
    assert!(db.connected);
    assert_eq!(db.table_name, "flight_telemetry");
    assert_eq!(db.time_col, "timestamp");
    assert_eq!(db.ilp.url, "http://127.0.0.1:9000/imp?precision=ns");
    assert_eq!(db.ilp.table, "flight_telemetry");
    assert_eq!(
        config().connection_string(),
        "host=db port=8812 user=admin password=quest dbname=qdb"
    );
    let mut own = config();
    own.table_name = Some("t".to_string());
    own.time_col = Some("when".to_string());
    let db = QuestDb::connect(own, Some("http://q/exec".to_string()));
    assert_eq!((db.table_name.as_str(), db.time_col.as_str()), ("t", "when"));
    assert_eq!(db.ilp.url, "http://q/imp?precision=ns");
}

#[test]
fn records_become_lines() {
    let db = connected();
    let records = vec![
        parse_text(r#"{"timestamp":"1970-01-01T00:00:01Z","AngleYaw":3,"gyroRateRoll":1,"mode":9,"name":"x"}"#).unwrap(),
        parse_text(r#"{"timestamp":77,"InputThrottle":1.6,"MotorInput1":5,"Kc":2}"#).unwrap(),
        parse_text(r#"{"timestamp":5,"name":"no number"}"#).unwrap(),
        parse_text(r#"{"timestamp":2.5,"Altura":1.5}"#).unwrap(),
    ];
    let presents = vec![at(1), at(2), at(3), at(4)];
    assert_eq!(
        db.telemetry_lines("f1", "1", Some("manual"), &records, Some("timestamp"), &presents),
        Ok(names(&[
            "flight_telemetry,flight_id=f1,mode=manual,schema_version=1 RateRoll=1,Yaw=3 1000000000",
            "flight_telemetry,flight_id=f1,mode=manual,schema_version=1 InputThrottle=2i,Kc=2i,MotorInput1=5 77",
            "flight_telemetry,flight_id=f1,mode=manual,schema_version=1 Altura=1.5 4",
        ]))
    );
}

#[test]
fn without_a_timestamp_field_it_is_a_number_like_others() {
    let db = connected();
    let records = vec![parse_text(r#"{"timestamp":77}"#).unwrap()];
    assert_eq!(
        db.telemetry_lines("f", "1", None, &records, None, &vec![at(9)]),
        Ok(names(&["flight_telemetry,flight_id=f,schema_version=1 timestamp=77i 9"]))
    );
}

#[test]
fn a_record_that_is_no_object_is_refused() {
    let db = connected();
    let records = vec![parse_text("{\"a\":1}").unwrap(), parse_text("[1]").unwrap()];
    assert_eq!(
        db.ingest_telemetry_batch("f", "1", None, &records, None),
        Err("record is not a JSON object".to_string())
    );
}

#[test]
fn nothing_is_written_without_a_connection() {
    let mut db = connected();
    db.connected = false;
    let lost = Err("Not connected to QuestDB".to_string());
    assert_eq!(db.ingest_telemetry_batch("f", "1", None, &Vec::new(), None), lost);
    assert_eq!(db.ensure_schema(), Err("Not connected to QuestDB".to_string()));
    assert_eq!(db.insert_flight_log("f", "p"), Err("Not connected to QuestDB".to_string()));
    assert_eq!(db.list_flights(3), Err("Not connected to QuestDB".to_string()));
    assert_eq!(
        db.fetch_flight_points(&Vec::new(), "f", false, false, 1),
        Err("Not connected to QuestDB".to_string())
    );
    assert_eq!(
        db.detect_logger_configs_col(&Vec::new()),
        Err("Not connected to QuestDB".to_string())
    );
    assert_eq!(
        db.insert_logger_config("c"),
        Err("\u{274c} No se pudo guardar la configuraci\u{f3}n: No hay conexi\u{f3}n a QuestDB".to_string())
    );
    assert_eq!(
        db.insert_logger_config_legacy("c"),
        Err("\u{274c} No hay conexi\u{f3}n a QuestDB".to_string())
    );
}

#[test]
fn records_written_now_carry_the_present() {
    let db = connected();
    let records = vec![parse_text(r#"{"a":1}"#).unwrap()];
    let lines = db.ingest_telemetry_batch("f", "1", None, &records, Some("timestamp")).unwrap();
    assert_eq!(lines.len(), 1);
    let (head, time) = lines[0].rsplit_once(' ').unwrap();
    assert_eq!(head, "flight_telemetry,flight_id=f,schema_version=1 a=1i");
    assert!(time.parse::<i64>().unwrap() > 1_600_000_000_000_000_000);
}

#[test]
fn two_batches_give_the_lines_of_one() {
    let db = connected();
    let a = parse_text(r#"{"a":1}"#).unwrap();
    let b = parse_text(r#"{"b":2}"#).unwrap();
    let lines = |r: &Vec<Json>, p: &Vec<Moment>| {
        db.telemetry_lines("f", "1", None, r, None, p).unwrap()
    };
    let both = lines(&vec![a.clone(), b.clone()], &vec![at(1), at(2)]);
    let mut apart = lines(&vec![a], &vec![at(1)]);
    apart.extend(lines(&vec![b], &vec![at(2)]));
    assert_eq!(both, apart);
}

#[test]
fn a_line_for_one_record() {
    let ilp = IlpHttp::new("http://h".to_string(), "t");
    assert_eq!(
        line_for_record(&ilp, &Vec::new(), &members(r#"{"flight_id":1,"x":2}"#), None, at(3)),
        Some("t x=2i 3".to_string())
    );
    assert_eq!(line_for_record(&ilp, &Vec::new(), &members(r#"{"mode":1}"#), None, at(3)), None);
}

#[test]
fn the_schema_names_its_table_and_time() {
    let sql = connected().ensure_schema().unwrap();
    assert!(sql.starts_with("\n    CREATE TABLE IF NOT EXISTS \"flight_telemetry\" (\n        \"timestamp\" TIMESTAMP,"));
    assert!(sql.contains(") TIMESTAMP(\"timestamp\") PARTITION BY DAY;"));
    assert!(sql.contains("CREATE TABLE IF NOT EXISTS logger_configs ("));
    assert!(sql.contains("MotorInput1 DOUBLE"));
}

#[test]
fn statements_bind_their_values() {
    let db = connected();
    let text = |s: &str| Param::Text(s.to_string());
    let s = db.insert_flight_log("f", "{}").unwrap();
    assert_eq!(s.sql, "INSERT INTO flight_logs (ts, flight_id, payload) VALUES (now(), $1, $2)");
    assert_eq!(s.params, vec![text("f"), text("{}")]);
    let s = db.insert_logger_config("{}").unwrap();
    assert_eq!(s.sql, "INSERT INTO logger_configs (ts, config_json) VALUES (now(), $1)");
    assert_eq!(s.params, vec![text("{}")]);
    let s = db.insert_logger_config_legacy("{}").unwrap();
    assert_eq!(s.params, vec![text("__config__"), text("{}")]);
    let s = db.list_flights(7).unwrap();
    assert!(s.sql.contains("SELECT flight_id, max(\"timestamp\") AS last_ts"));
    assert!(s.sql.contains("FROM \"flight_telemetry\""));
    assert_eq!(s.params, vec![Param::Number(7)]);
    let s = db.logger_configs_columns();
    assert_eq!(
        s.sql,
        "SELECT column_name FROM information_schema.columns WHERE lower(table_name) = lower($1)"
    );
    assert_eq!(s.params, vec![text("flight_telemetry")]);
    let s = db.existing_columns();
    assert_eq!(s.sql, "SELECT column_name FROM information_schema.columns WHERE table_name = $1");
    assert_eq!(s.params, vec![text("flight_telemetry")]);
}

#[test]
fn points_are_asked_for_by_what_is_present() {
    let db = connected();
    let present = names(&["Ki", "AngleRoll", "GyroX", "GyroYdps", "GyroY"]);
    let s = db.fetch_flight_points(&present, "f", true, true, 9).unwrap();
    assert_eq!(
        s.sql,
        "SELECT \"timestamp\", \"AngleRoll\", \"Ki\", \"GyroX\" AS \"GyroXdps\", \"GyroYdps\" \
         FROM \"flight_telemetry\" WHERE flight_id = $1 AND \"timestamp\" >= $2 \
         AND \"timestamp\" <= $3 ORDER BY \"timestamp\" LIMIT $4"
    );
    assert_eq!(
        s.params,
        vec![Param::Text("f".to_string()), Param::From, Param::To, Param::Number(9)]
    );
    let s = db.fetch_flight_points(&names(&[]), "f", false, true, 9).unwrap();
    assert_eq!(
        s.sql,
        "SELECT \"timestamp\" FROM \"flight_telemetry\" WHERE flight_id = $1 \
         AND \"timestamp\" <= $2 ORDER BY \"timestamp\" LIMIT $3"
    );
    assert_eq!(s.params, vec![Param::Text("f".to_string()), Param::To, Param::Number(9)]);
    let s = db.fetch_flight_points(&names(&[]), "f", false, false, 9).unwrap();
    assert!(s.sql.ends_with("WHERE flight_id = $1 ORDER BY \"timestamp\" LIMIT $2"));
}

#[test]
fn the_column_of_a_configuration_is_detected() {
    let db = connected();
    assert_eq!(db.detect_logger_configs_col(&names(&["value", "data"])), Ok("data".to_string()));
    assert_eq!(db.detect_logger_configs_col(&names(&["x"])), Ok("payload".to_string()));
}

#[test]
fn rows_become_points() {
    let columns = FlightPoint::columns();
    assert_eq!(columns.len(), 29);
    assert_eq!(columns[0], ("flight_id".to_string(), ColumnKind::Text));
    assert_eq!(columns[3], ("AngleRoll".to_string(), ColumnKind::Double));
    assert_eq!(columns[16], ("InputThrottle".to_string(), ColumnKind::Long));
    let mut cells: Vec<Option<Json>> = columns.iter().map(|_| None).collect();
    cells[0] = Some(Json::Text("f".to_string()));
    cells[3] = parse_text("1.5");
    cells[28] = parse_text("2.0");
    let p = FlightPoint::from_row(12, &cells);
    assert_eq!(p.ts_micros, 12);
    assert_eq!(p.payload.to_text(), r#"{"AngleRoll":1.5,"Ki":2.0,"flight_id":"f"}"#);
}

#[test]
fn stored_records_are_counted() {
    assert_eq!(ingested(&names(&["a", "b"]), Ok(())), Ok(2));
    assert_eq!(ingested(&names(&[]), Err("x".to_string())), Ok(0));
    assert_eq!(ingested(&names(&["a"]), Err("x".to_string())), Err("x".to_string()));
}

#[test]
fn an_optional_database_connects_once() {
    let mut db = OptionalDb::new(config());
    assert!(db.inner.is_none());
    assert_eq!(db.ensure_connected(Err("down".to_string())), Err("down".to_string()));
    assert!(db.inner.is_none());
    assert_eq!(db.ensure_connected(Ok(connected())), Ok(()));
    let mut other = connected();
    other.table_name = "other".to_string();
    assert_eq!(db.ensure_connected(Ok(other)), Ok(()));
    assert_eq!(db.ensure_connected(Err("down".to_string())), Ok(()));
    assert_eq!(db.inner.as_ref().unwrap().table_name, "flight_telemetry");
    assert_eq!(db.insert_flight_log("f", "p").unwrap().params.len(), 2);
    assert_eq!(db.insert_logger_config("c").unwrap().params.len(), 1);
    assert_eq!(db.list_flights(1).unwrap().params.len(), 1);
    assert_eq!(db.fetch_flight_points(&names(&[]), "f", true, false, 1).unwrap().params.len(), 3);
    assert_eq!(db.ingest_telemetry_batch("f", "1", None, &Vec::new(), None), Ok(Vec::new()));
    assert_eq!(
        db.list_available_fields(),
        names(&[
            "timestamp", "latitude", "longitude", "altitude", "speed", "battery", "rssi", "voltage",
            "current", "temperature"
        ])
    );
}

#[test]
fn the_write_probe() {
    let mut db = OptionalDb::new(config());
    assert_eq!(probe_sql_insert(&db), Err("QuestDB not connected".to_string()));
    let mut inner = connected();
    inner.connected = false;
    db.inner = Some(inner);
    assert_eq!(probe_sql_insert(&db), Err("No PostgreSQL client".to_string()));
    db.inner = Some(connected());
    let (insert, count) = probe_sql_insert(&db).unwrap();
    assert!(insert.contains("INSERT INTO \"flight_telemetry\" (\"timestamp\", flight_id, schema_version, mode, AngleRoll, InputThrottle)"));
    assert!(insert.contains("VALUES (now(), 'probe_fid', '1', 'probe', 1.23, 1234)"));
    assert_eq!(count, "SELECT count() FROM \"flight_telemetry\" WHERE flight_id='probe_fid'");
    assert_eq!(probe_answer(Ok(()), Ok(4)), Ok(ProbeResp { ok: true, rows: 4 }));
    assert_eq!(
        probe_answer(Err("x".to_string()), Ok(4)),
        Err("probe insert failed: x".to_string())
    );
    assert_eq!(
        probe_answer(Ok(()), Err("y".to_string())),
        Err("probe count failed: y".to_string())
    );
}

#[test]
fn different_tags_are_written_differently() {
    let ilp = IlpHttp::new("http://h".to_string(), "t");
    let line = |value: &str| {
        ilp.json_to_line(&vec![tag("k", value)], &members(r#"{"a":1}"#), None).unwrap()
    };
    let values = ["a b", "a\\ b", "a,b", "a=b", "a\\,b", "ab"];
    for x in values {
        for y in values {
            assert_eq!(line(x) == line(y), x == y);
        }
    }
}

#[test]
fn an_address_that_lines_go_to_stays_as_it_is() {
    for base in ["http://h", "http://h/exec?a=b", "http://h/imp?precision=us&x", "?&?"] {
        let once = IlpHttp::new(base.to_string(), "t").url;
        assert_eq!(IlpHttp::new(once.clone(), "t").url, once);
    }
}

#[test]
fn a_record_gives_one_line() {
    let ilp = IlpHttp::new("http://h".to_string(), "t");
    let fields = members(r#"{"a":"x\ny","b":["p\nq"],"c":1.5}"#);
    assert_eq!(
        ilp.json_to_line(&Vec::new(), &fields, Some(7)),
        Some("t a=\"x\\ny\",b=\"[\\\"p\\nq\\\"]\",c=1.5 7".to_string())
    );
}

#[test]
fn a_configuration_that_is_not_stored_goes_to_the_flight_logs() {
    let mut db = connected();
    let failed = || Err("x".to_string());
    assert_eq!(db.config_step("c", Ok(())), Ok(None));
    assert_eq!(
        db.config_step("c", failed()),
        Ok(Some(db.insert_logger_config_legacy("c").unwrap()))
    );
    db.connected = false;
    assert_eq!(db.config_step("c", Ok(())), Ok(None));
    assert_eq!(
        db.config_step("c", failed()),
        Err("\u{274c} No hay conexi\u{f3}n a QuestDB".to_string())
    );
    assert_eq!(QuestDb::config_stored(Ok(()), Ok(())), Ok(()));
    assert_eq!(QuestDb::config_stored(failed(), Ok(())), Ok(()));
    assert_eq!(
        QuestDb::config_stored(failed(), Err("y".to_string())),
        Err("\u{274c} Error legacy flight_logs: y".to_string())
    );
}

#[test]
fn failures_of_the_database_are_told() {
    assert_eq!(connect_failed("x"), "Failed to connect to QuestDB: x");
    assert_eq!(schema_failed("x"), "Failed to create database schema: x");
    assert_eq!(legacy_failed("x"), "\u{274c} Error legacy flight_logs: x");
}
