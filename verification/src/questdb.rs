//! The flight database: what is written to it and what is asked of it.

use crate::clock;
use crate::clock::Moment;
use crate::ilp;
use crate::ilp::IlpHttp;
use crate::json;
use crate::json::{Json, JsonNumber, JsonView, NumberView};
use crate::lists;
use crate::text;
use vstd::prelude::*;

verus! {

/// How the database is reached, and the table that telemetry goes to.
#[derive(Clone, Debug)]
pub struct QuestDbConfig {
    pub host: String,
    pub port: u16,
    pub user: String,
    pub password: String,
    pub database: String,
    pub table_name: Option<String>,
    pub time_col: Option<String>,
}

/// A row of telemetry: microseconds since the epoch and the columns that the
/// row has.
#[derive(Clone, Debug)]
pub struct FlightPoint {
    pub ts_micros: i64,
    pub payload: Json,
}

/// What the write probe answers.
#[derive(Debug, PartialEq, Eq, Clone, Copy)]
pub struct ProbeResp {
    pub ok: bool,
    pub rows: i64,
}

/// The database as the logic sees it.
#[derive(Debug)]
pub struct QuestDb {
    pub connected: bool,
    pub ilp: IlpHttp,
    pub table_name: String,
    pub time_col: String,
}

/// `name` is one of the tags that every line carries.
pub open spec fn is_tag(name: Seq<char>) -> bool {
    name == "flight_id"@ || name == "schema_version"@ || name == "mode"@
}

/// The column that the field `name` is stored in.
pub open spec fn column(name: Seq<char>) -> Seq<char> {
    if name == "AngleYaw"@ {
        "Yaw"@
    } else if name == "gyroRatePitch"@ {
        "RatePitch"@
    } else if name == "gyroRateRoll"@ {
        "RateRoll"@
    } else {
        name
    }
}

/// Fields that are stored as doubles, whatever they come as.
pub open spec fn is_double_field(name: Seq<char>) -> bool {
    name == "AngleYaw"@ || name == "gyroRatePitch"@ || name == "gyroRateRoll"@ || name
        == "MotorInput1"@ || name == "MotorInput2"@ || name == "MotorInput3"@ || name
        == "MotorInput4"@ || name == "error_phi"@ || name == "error_theta"@
}

/// Fields that are stored as integers, whatever they come as.
pub open spec fn is_integer_field(name: Seq<char>) -> bool {
    name == "InputThrottle"@ || name == "InputRoll"@ || name == "InputPitch"@ || name
        == "InputYaw"@
}

/// The number that is stored for the field `name`.
pub open spec fn stored(name: Seq<char>, n: NumberView) -> NumberView {
    if is_double_field(name) {
        NumberView::Real(json::as_double_view(n))
    } else if is_integer_field(name) {
        match n {
            NumberView::Int(i) => NumberView::Int(i),
            NumberView::Real(x) => NumberView::Int(x.double.rounded()),
        }
    } else {
        n
    }
}

/// The columns of a record: its numbers, but for the timestamp and the tags.
pub open spec fn columns(
    record: Seq<(Seq<char>, JsonView)>,
    ts_field: Option<Seq<char>>,
) -> Seq<(Seq<char>, JsonView)>
    decreases record.len(),
{
    if record.len() == 0 {
        seq![]
    } else {
        let rest = columns(record.drop_last(), ts_field);
        let name = record.last().0;
        match record.last().1 {
            JsonView::Number(n) => if ts_field == Some(name) || is_tag(name) {
                rest
            } else {
                json::put(rest, column(name), JsonView::Number(stored(name, n)))
            },
            _ => rest,
        }
    }
}

/// The nanoseconds that a record's timestamp field gives: a text is read as
/// ISO 8601, an integer taken as it is.
pub open spec fn record_time(
    record: Seq<(Seq<char>, JsonView)>,
    ts_field: Option<Seq<char>>,
    present: Moment,
) -> Option<i64>
    decreases record.len(),
{
    if record.len() == 0 {
        None
    } else {
        let rest = record_time(record.drop_last(), ts_field, present);
        if ts_field == Some(record.last().0) {
            match record.last().1 {
                JsonView::Text(s) => Some(clock::timestamp_ns(Some(s), present)),
                JsonView::Number(NumberView::Int(i)) => Some(i),
                _ => rest,
            }
        } else {
            rest
        }
    }
}

/// The line for one record, read at the moment `present`; nothing where the
/// record has no column.
pub open spec fn record_line(
    table: Seq<char>,
    tags: Seq<(Seq<char>, Seq<char>)>,
    record: Seq<(Seq<char>, JsonView)>,
    ts_field: Option<Seq<char>>,
    present: Moment,
) -> Option<Seq<char>> {
    let cols = columns(record, ts_field);
    let ts = match record_time(record, ts_field, present) {
        Some(ns) => ns,
        None => clock::moment_ns(present),
    };
    if cols.len() == 0 {
        None
    } else {
        ilp::line(table, tags, cols, Some(ts))
    }
}

/// The lines for `records`, each read at its moment.
pub open spec fn batch_lines(
    table: Seq<char>,
    tags: Seq<(Seq<char>, Seq<char>)>,
    records: Seq<JsonView>,
    ts_field: Option<Seq<char>>,
    presents: Seq<Moment>,
) -> Seq<Seq<char>>
    decreases records.len(),
{
    if records.len() == 0 {
        seq![]
    } else {
        let rest = batch_lines(
            table,
            tags,
            records.drop_last(),
            ts_field,
            presents.drop_last(),
        );
        match records.last() {
            JsonView::Object(e) => match record_line(table, tags, e, ts_field, presents.last()) {
                Some(t) => rest.push(t),
                None => rest,
            },
            _ => rest,
        }
    }
}

/// The tags of a batch.
pub open spec fn batch_tags(
    flight_id: Seq<char>,
    schema_version: Seq<char>,
    mode: Option<Seq<char>>,
) -> Seq<(Seq<char>, Seq<char>)> {
    let base = json::put(
        json::put(seq![], "flight_id"@, flight_id),
        "schema_version"@,
        schema_version,
    );
    match mode {
        Some(m) => json::put(base, "mode"@, m),
        None => base,
    }
}

/// Every record is a JSON object.
pub open spec fn all_objects(records: Seq<JsonView>) -> bool {
    forall|i: int| 0 <= i < records.len() ==> #[trigger] records[i] is Object
}

/// Whether `name` is one of the tags that every line carries.
fn names_tag(name: &str) -> (r: bool)
    ensures
        r == is_tag(name@),
{
    text::same(name, "flight_id") || text::same(name, "schema_version") || text::same(name, "mode")
}

/// The column that the field `name` is stored in.
fn column_of(name: &str) -> (r: String)
    ensures
        r@ == column(name@),
{
    if text::same(name, "AngleYaw") {
        String::from_str("Yaw")
    } else if text::same(name, "gyroRatePitch") {
        String::from_str("RatePitch")
    } else if text::same(name, "gyroRateRoll") {
        String::from_str("RateRoll")
    } else {
        String::from_str(name)
    }
}

/// The number that is stored for the field `name`.
fn stored_number(name: &str, n: &JsonNumber) -> (r: JsonNumber)
    ensures
        r@ == stored(name@, n@),
{
    if text::same(name, "AngleYaw") || text::same(name, "gyroRatePitch") || text::same(
        name,
        "gyroRateRoll",
    ) || text::same(name, "MotorInput1") || text::same(name, "MotorInput2") || text::same(
        name,
        "MotorInput3",
    ) || text::same(name, "MotorInput4") || text::same(name, "error_phi") || text::same(
        name,
        "error_theta",
    ) {
        JsonNumber::Real(n.as_double())
    } else if text::same(name, "InputThrottle") || text::same(name, "InputRoll") || text::same(
        name,
        "InputPitch",
    ) || text::same(name, "InputYaw") {
        match n {
            JsonNumber::Int(i) => JsonNumber::Int(*i),
            JsonNumber::Real(x) => JsonNumber::Int(x.double.round()),
        }
    } else {
        n.clone()
    }
}

/// The line for one record, read at the moment `present`.
#[verifier::loop_isolation(false)]
pub fn line_for_record(
    ilp: &IlpHttp,
    tags: &Vec<(String, String)>,
    record: &Vec<(String, Json)>,
    ts_field: Option<&str>,
    present: Moment,
) -> (r: Option<String>)
    ensures
        match r {
            Some(t) => record_line(
                ilp.table@,
                json::entries(tags@),
                json::entries(record@),
                text::optional(ts_field),
                present,
            ) == Some(t@),
            None => record_line(
                ilp.table@,
                json::entries(tags@),
                json::entries(record@),
                text::optional(ts_field),
                present,
            ) is None,
        },
{
    let ghost all = json::entries(record@);
    let ghost tf = text::optional(ts_field);
    let mut ts: Option<i64> = None;
    let mut fields: Vec<(String, Json)> = Vec::new();
    for i in 0..record.len()
        invariant
            json::entries(fields@) == columns(all.take(i as int), tf),
            ts == record_time(all.take(i as int), tf, present),
    {
        assert(all.take(i + 1).drop_last() == all.take(i as int));
        assert(all.take(i + 1).last() == (record@[i as int].0@, record@[i as int].1@));
        let name = record[i].0.as_str();
        let is_time = match ts_field {
            Some(t) => text::same(name, t),
            None => false,
        };
        if is_time {
            match &record[i].1 {
                Json::Text(s) => {
                    ts = Some(clock::timestamp_ns_at(Some(s.as_str()), present));
                },
                Json::Number(JsonNumber::Int(n)) => {
                    ts = Some(*n);
                },
                _ => {},
            }
        } else if !names_tag(name) {
            match &record[i].1 {
                Json::Number(n) => {
                    let value = Json::Number(stored_number(name, n));
                    json::put_entry(&mut fields, column_of(name), value);
                },
                _ => {},
            }
        }
    }
    assert(all.take(record@.len() as int) == all);
    assert(json::entries(fields@).len() == fields@.len());
    if fields.len() == 0 {
        return None;
    }
    let ns: i64 = match ts {
        Some(ns) => ns,
        None => clock::nanoseconds(present),
    };
    ilp.json_to_line(tags, &fields, Some(ns))
}

impl QuestDb {
    /// The database that `cfg` describes, once the connection stands. Lines go
    /// to `ilp_url`, or to the local server where there is none.
    pub fn connect(cfg: QuestDbConfig, ilp_url: Option<String>) -> (r: QuestDb)
        ensures
            r.connected,
            r.table_name@ == (match cfg.table_name {
                Some(t) => t@,
                None => "flight_telemetry"@,
            }),
            r.time_col@ == (match cfg.time_col {
                Some(t) => t@,
                None => "timestamp"@,
            }),
            r.ilp.table@ == r.table_name@,
            r.ilp.url@ == ilp::endpoint(
                match ilp_url {
                    Some(u) => u@,
                    None => "http://127.0.0.1:9000"@,
                },
            ),
    {
        let table_name = match cfg.table_name {
            Some(t) => t,
            None => String::from_str("flight_telemetry"),
        };
        let time_col = match cfg.time_col {
            Some(t) => t,
            None => String::from_str("timestamp"),
        };
        let url = match ilp_url {
            Some(u) => u,
            None => String::from_str("http://127.0.0.1:9000"),
        };
        let ilp = IlpHttp::new(url, table_name.as_str());
        QuestDb { connected: true, ilp, table_name, time_col }
    }

    /// The lines for a batch of records, where each record is read at the
    /// moment in `presents` that has its place.
    #[verifier::loop_isolation(false)]
    pub fn telemetry_lines(
        &self,
        flight_id: &str,
        schema_version: &str,
        mode: Option<&str>,
        records: &Vec<Json>,
        ts_field: Option<&str>,
        presents: &Vec<Moment>,
    ) -> (r: Result<Vec<String>, String>)
        requires
            presents@.len() == records@.len(),
        ensures
            match r {
                Ok(lines) => self.connected && all_objects(json::values(records@)) && text::texts(
                    lines@,
                ) == batch_lines(
                    self.ilp.table@,
                    batch_tags(flight_id@, schema_version@, text::optional(mode)),
                    json::values(records@),
                    text::optional(ts_field),
                    presents@,
                ),
                Err(e) => if !self.connected {
                    e@ == "Not connected to QuestDB"@
                } else {
                    !all_objects(json::values(records@)) && e@ == "record is not a JSON object"@
                },
            },
    {
        if !self.connected {
            return Err(String::from_str("Not connected to QuestDB"));
        }
        let ghost none: Seq<(Seq<char>, Seq<char>)> = seq![];
        let mut tags: Vec<(String, String)> = Vec::new();
        assert(json::entries(tags@) == none);
        json::put_entry(&mut tags, String::from_str("flight_id"), String::from_str(flight_id));
        json::put_entry(
            &mut tags,
            String::from_str("schema_version"),
            String::from_str(schema_version),
        );
        match mode {
            Some(m) => {
                json::put_entry(&mut tags, String::from_str("mode"), String::from_str(m));
            },
            None => {},
        }
        let ghost all = json::values(records@);
        let ghost tf = text::optional(ts_field);
        let mut lines: Vec<String> = Vec::new();
        for i in 0..records.len()
            invariant
                forall|j: int| 0 <= j < i ==> #[trigger] all[j] is Object,
                text::texts(lines@) == batch_lines(
                    self.ilp.table@,
                    json::entries(tags@),
                    all.take(i as int),
                    tf,
                    presents@.take(i as int),
                ),
        {
            let ghost so_far = text::texts(lines@);
            assert(all.take(i + 1).drop_last() == all.take(i as int));
            assert(presents@.take(i + 1).drop_last() == presents@.take(i as int));
            assert(all[i as int] == records@[i as int]@);
            proof {
                json::lemma_views(records@[i as int]);
            }
            match &records[i] {
                Json::Object(record) => {
                    match line_for_record(&self.ilp, &tags, record, ts_field, presents[i]) {
                        Some(t) => {
                            lines.push(t);
                            assert(text::texts(lines@) == so_far.push(t@));
                        },
                        None => {},
                    }
                },
                _ => {
                    assert(!all_objects(all));
                    return Err(String::from_str("record is not a JSON object"));
                },
            }
        }
        assert(all.take(records@.len() as int) == all);
        assert(presents@.take(records@.len() as int) == presents@);
        Ok(lines)
    }

    /// The lines for a batch of records that is written now. A record without
    /// a timestamp that can be read gets the present.
    #[verifier::loop_isolation(false)]
    pub fn ingest_telemetry_batch(
        &self,
        flight_id: &str,
        schema_version: &str,
        mode: Option<&str>,
        records: &Vec<Json>,
        ts_field: Option<&str>,
    ) -> (r: Result<Vec<String>, String>)
        ensures
            match r {
                Ok(lines) => self.connected && all_objects(json::values(records@)) && exists|
                    presents: Seq<Moment>,
                |
                    presents.len() == records@.len() && text::texts(lines@) == #[trigger] batch_lines(
                        self.ilp.table@,
                        batch_tags(flight_id@, schema_version@, text::optional(mode)),
                        json::values(records@),
                        text::optional(ts_field),
                        presents,
                    ),
                Err(e) => if !self.connected {
                    e@ == "Not connected to QuestDB"@
                } else {
                    !all_objects(json::values(records@)) && e@ == "record is not a JSON object"@
                },
            },
    {
        let mut presents: Vec<Moment> = Vec::new();
        for i in 0..records.len()
            invariant
                presents@.len() == i,
        {
            presents.push(clock::now());
        }
        self.telemetry_lines(flight_id, schema_version, mode, records, ts_field, &presents)
    }
}

/// The tables that are created, up to the name of the telemetry table.
pub const DDL_TABLE: &'static str = r#"
    CREATE TABLE IF NOT EXISTS ""#;

/// From there to the first place of the time column.
pub const DDL_TIME: &'static str = r#"" (
        ""#;

/// From there to the second place of the time column.
pub const DDL_COLUMNS: &'static str = r#"" TIMESTAMP,
        flight_id SYMBOL,
        schema_version SYMBOL,
        mode SYMBOL,
    
        AngleRoll DOUBLE, AnglePitch DOUBLE, Yaw DOUBLE,
        RateRoll DOUBLE, RatePitch DOUBLE, RateYaw DOUBLE,
    
        GyroXdps DOUBLE, GyroYdps DOUBLE, GyroZdps DOUBLE,
    
        -- Controles discretos (enteros)
        InputThrottle LONG, InputRoll LONG, InputPitch LONG, InputYaw LONG,
    
        -- Señales de motor en DOUBLE (pueden venir con decimales)
        MotorInput1 DOUBLE, MotorInput2 DOUBLE, MotorInput3 DOUBLE, MotorInput4 DOUBLE,
    
        error_phi DOUBLE, error_theta DOUBLE, ErrorYaw DOUBLE,
        Altura DOUBLE, tau_x DOUBLE, tau_y DOUBLE, tau_z DOUBLE,
        Kc DOUBLE, Ki DOUBLE
    ) TIMESTAMP(""#;

/// The rest.
pub const DDL_REST: &'static str = r#"") PARTITION BY DAY;
    
    CREATE TABLE IF NOT EXISTS flight_logs (
        ts TIMESTAMP,
        flight_id SYMBOL,
        payload STRING
    ) TIMESTAMP(ts) PARTITION BY DAY;
    
    CREATE TABLE IF NOT EXISTS logger_configs (
        ts TIMESTAMP,
        config_json STRING
    ) TIMESTAMP(ts) PARTITION BY DAY;
    "#;

/// What creates the tables.
pub open spec fn ddl(table: Seq<char>, time_col: Seq<char>) -> Seq<char> {
    DDL_TABLE@ + table + DDL_TIME@ + time_col + DDL_COLUMNS@ + time_col + DDL_REST@
}

impl QuestDb {
    /// What creates the tables, where they are missing.
    pub fn ensure_schema(&self) -> (r: Result<String, String>)
        ensures
            match r {
                Ok(sql) => self.connected && sql@ == ddl(self.table_name@, self.time_col@),
                Err(e) => !self.connected && e@ == "Not connected to QuestDB"@,
            },
    {
        if !self.connected {
            return Err(String::from_str("Not connected to QuestDB"));
        }
        let mut sql = String::from_str(DDL_TABLE);
        sql.append(self.table_name.as_str());
        sql.append(DDL_TIME);
        sql.append(self.time_col.as_str());
        sql.append(DDL_COLUMNS);
        sql.append(self.time_col.as_str());
        sql.append(DDL_REST);
        Ok(sql)
    }
}

/// A value that is bound to a place of a statement. The ends of a span of time
/// are those that the caller was given.
#[derive(Debug, PartialEq)]
pub enum Param {
    Text(String),
    Number(i64),
    From,
    To,
}

#[verifier::ext_equal]
pub enum ParamView {
    Text(Seq<char>),
    Number(i64),
    From,
    To,
}

impl View for Param {
    type V = ParamView;

    open spec fn view(&self) -> ParamView {
        match self {
            Param::Text(s) => ParamView::Text(s@),
            Param::Number(n) => ParamView::Number(*n),
            Param::From => ParamView::From,
            Param::To => ParamView::To,
        }
    }
}

/// A statement and what is bound to its places, in their order.
#[derive(Debug, PartialEq)]
pub struct Statement {
    pub sql: String,
    pub params: Vec<Param>,
}

#[verifier::ext_equal]
pub struct StatementView {
    pub sql: Seq<char>,
    pub params: Seq<ParamView>,
}

impl View for Statement {
    type V = StatementView;

    open spec fn view(&self) -> StatementView {
        StatementView { sql: self.sql@, params: self.params@.map_values(|p: Param| p@) }
    }
}

/// What stores a flight log.
pub open spec fn flight_log_statement(flight_id: Seq<char>, payload: Seq<char>) -> StatementView {
    StatementView {
        sql: "INSERT INTO flight_logs (ts, flight_id, payload) VALUES (now(), $1, $2)"@,
        params: seq![ParamView::Text(flight_id), ParamView::Text(payload)],
    }
}

/// What stores a configuration.
pub open spec fn config_statement(config: Seq<char>) -> StatementView {
    StatementView {
        sql: "INSERT INTO logger_configs (ts, config_json) VALUES (now(), $1)"@,
        params: seq![ParamView::Text(config)],
    }
}

/// The insertion into the flight logs that takes a configuration too.
pub const LEGACY_INSERT: &'static str = r#"
            INSERT INTO flight_logs (ts, flight_id, payload)
            VALUES (now(), $1, $2)
        "#;

/// What stores a configuration among the flight logs.
pub open spec fn legacy_statement(config: Seq<char>) -> StatementView {
    StatementView {
        sql: LEGACY_INSERT@,
        params: seq![ParamView::Text("__config__"@), ParamView::Text(config)],
    }
}

/// The flights, the latest first: up to the time column.
pub const FLIGHTS_HEAD: &'static str = r#"
            SELECT flight_id, max(""#;

/// From there to the table.
pub const FLIGHTS_TABLE: &'static str = r#"") AS last_ts
            FROM ""#;

/// The rest.
pub const FLIGHTS_REST: &'static str = r#""
            GROUP BY flight_id
            ORDER BY last_ts DESC
            LIMIT $1
        "#;

/// What lists the flights.
pub open spec fn flights_statement(
    table: Seq<char>,
    time_col: Seq<char>,
    limit: i64,
) -> StatementView {
    StatementView {
        sql: FLIGHTS_HEAD@ + time_col + FLIGHTS_TABLE@ + table + FLIGHTS_REST@,
        params: seq![ParamView::Number(limit)],
    }
}

/// What asks for the columns of the telemetry table.
pub open spec fn columns_statement(table: Seq<char>) -> StatementView {
    StatementView {
        sql: "SELECT column_name FROM information_schema.columns WHERE table_name = $1"@,
        params: seq![ParamView::Text(table)],
    }
}

/// What asks for the columns of the telemetry table, whatever the case of its
/// name.
pub open spec fn folded_columns_statement(table: Seq<char>) -> StatementView {
    StatementView {
        sql: "SELECT column_name FROM information_schema.columns WHERE lower(table_name) = lower($1)"@,
        params: seq![ParamView::Text(table)],
    }
}

/// The columns that may hold a configuration, the preferred first.
pub open spec fn config_columns() -> Seq<Seq<char>> {
    seq!["payload"@, "config"@, "data"@, "json"@, "value"@]
}

/// The first of `candidates` that is present; `payload` where none is.
pub open spec fn first_present(candidates: Seq<Seq<char>>, present: Seq<Seq<char>>) -> Seq<char>
    decreases candidates.len(),
{
    if candidates.len() == 0 {
        "payload"@
    } else if present.contains(candidates[0]) {
        candidates[0]
    } else {
        first_present(candidates.drop_first(), present)
    }
}

/// The columns of telemetry that are read where they are present.
pub open spec fn common_columns() -> Seq<Seq<char>> {
    seq![
        "flight_id"@,
        "schema_version"@,
        "mode"@,
        "AngleRoll"@,
        "AnglePitch"@,
        "Yaw"@,
        "RateRoll"@,
        "RatePitch"@,
        "RateYaw"@,
        "InputThrottle"@,
        "InputRoll"@,
        "InputPitch"@,
        "InputYaw"@,
        "MotorInput1"@,
        "MotorInput2"@,
        "MotorInput3"@,
        "MotorInput4"@,
        "error_phi"@,
        "error_theta"@,
        "ErrorYaw"@,
        "Altura"@,
        "tau_x"@,
        "tau_y"@,
        "tau_z"@,
        "Kc"@,
        "Ki"@,
    ]
}

/// `name` in double quotes.
pub open spec fn quoted_name(name: Seq<char>) -> Seq<char> {
    "\""@ + name + "\""@
}

/// Those of `names` that are present, in double quotes.
pub open spec fn present_items(names: Seq<Seq<char>>, present: Seq<Seq<char>>) -> Seq<Seq<char>>
    decreases names.len(),
{
    if names.len() == 0 {
        seq![]
    } else {
        let rest = present_items(names.drop_last(), present);
        if present.contains(names.last()) {
            rest.push(quoted_name(names.last()))
        } else {
            rest
        }
    }
}

/// What selects the rate `want`: its own column, or the one it was stored in
/// before, under the name `want`.
pub open spec fn rate_items(
    want: Seq<char>,
    legacy: Seq<char>,
    present: Seq<Seq<char>>,
) -> Seq<Seq<char>> {
    if present.contains(want) {
        seq![quoted_name(want)]
    } else if present.contains(legacy) {
        seq![quoted_name(legacy) + " AS "@ + quoted_name(want)]
    } else {
        seq![]
    }
}

/// What is selected of the telemetry table: always the time.
pub open spec fn select_items(time_col: Seq<char>, present: Seq<Seq<char>>) -> Seq<Seq<char>> {
    seq![quoted_name(time_col)] + present_items(common_columns(), present) + rate_items(
        "GyroXdps"@,
        "GyroX"@,
        present,
    ) + rate_items("GyroYdps"@, "GyroY"@, present) + rate_items("GyroZdps"@, "GyroZ"@, present)
}

/// A bound on the time column, at place `place`.
pub open spec fn time_bound(time_col: Seq<char>, relation: Seq<char>, place: nat) -> Seq<char> {
    " AND \""@ + time_col + relation + text::nat_text(place)
}

/// What reads the points of a flight, in the order of time.
pub open spec fn points_statement(
    table: Seq<char>,
    time_col: Seq<char>,
    present: Seq<Seq<char>>,
    flight_id: Seq<char>,
    from: bool,
    to: bool,
    limit: i64,
) -> StatementView {
    let head = "SELECT "@ + text::join(select_items(time_col, present), ", "@) + " FROM \""@ + table
        + "\" WHERE flight_id = $1"@;
    let lower = if from {
        head + time_bound(time_col, "\" >= $"@, 2)
    } else {
        head
    };
    let upper = if to {
        lower + time_bound(
            time_col,
            "\" <= $"@,
            if from {
                3
            } else {
                2
            },
        )
    } else {
        lower
    };
    let place: nat = if from && to {
        4
    } else if from || to {
        3
    } else {
        2
    };
    StatementView {
        sql: upper + " ORDER BY \""@ + time_col + "\" LIMIT $"@ + text::nat_text(place),
        params: seq![ParamView::Text(flight_id)] + (if from {
            seq![ParamView::From]
        } else {
            seq![]
        }) + (if to {
            seq![ParamView::To]
        } else {
            seq![]
        }) + seq![ParamView::Number(limit)],
    }
}

/// The columns that may hold a configuration.
fn config_column_names() -> (r: Vec<String>)
    ensures
        text::texts(r@) == config_columns(),
{
    vec![
        String::from_str("payload"),
        String::from_str("config"),
        String::from_str("data"),
        String::from_str("json"),
        String::from_str("value"),
    ]
}

/// The columns of telemetry that are read where they are present.
fn common_column_names() -> (r: Vec<String>)
    ensures
        text::texts(r@) == common_columns(),
{
    vec![
        String::from_str("flight_id"),
        String::from_str("schema_version"),
        String::from_str("mode"),
        String::from_str("AngleRoll"),
        String::from_str("AnglePitch"),
        String::from_str("Yaw"),
        String::from_str("RateRoll"),
        String::from_str("RatePitch"),
        String::from_str("RateYaw"),
        String::from_str("InputThrottle"),
        String::from_str("InputRoll"),
        String::from_str("InputPitch"),
        String::from_str("InputYaw"),
        String::from_str("MotorInput1"),
        String::from_str("MotorInput2"),
        String::from_str("MotorInput3"),
        String::from_str("MotorInput4"),
        String::from_str("error_phi"),
        String::from_str("error_theta"),
        String::from_str("ErrorYaw"),
        String::from_str("Altura"),
        String::from_str("tau_x"),
        String::from_str("tau_y"),
        String::from_str("tau_z"),
        String::from_str("Kc"),
        String::from_str("Ki"),
    ]
}

/// `name` in double quotes.
fn quoted_text(name: &str) -> (r: String)
    ensures
        r@ == quoted_name(name@),
{
    let mut r = String::from_str("\"");
    r.append(name);
    r.append("\"");
    r
}

/// Adds what selects the rate `want`.
fn push_rate(items: &mut Vec<String>, want: &str, legacy: &str, present: &Vec<String>)
    ensures
        text::texts(final(items)@) == text::texts(old(items)@) + rate_items(
            want@,
            legacy@,
            text::texts(present@),
        ),
{
    let ghost before = text::texts(items@);
    if text::listed(present, want) {
        items.push(quoted_text(want));
        assert(text::texts(items@) == before + seq![quoted_name(want@)]);
    } else if text::listed(present, legacy) {
        let mut item = quoted_text(legacy);
        item.append(" AS ");
        item.append(quoted_text(want).as_str());
        items.push(item);
        assert(text::texts(items@) == before + seq![item@]);
    } else {
        assert(text::texts(items@) == before + Seq::<Seq<char>>::empty());
    }
}

impl QuestDb {
    /// What stores a flight log.
    pub fn insert_flight_log(&self, flight_id: &str, payload_json: &str) -> (r: Result<
        Statement,
        String,
    >)
        ensures
            match r {
                Ok(s) => self.connected && s@ == flight_log_statement(flight_id@, payload_json@),
                Err(e) => !self.connected && e@ == "Not connected to QuestDB"@,
            },
    {
        if !self.connected {
            return Err(String::from_str("Not connected to QuestDB"));
        }
        Ok(
            Statement {
                sql: String::from_str(
                    "INSERT INTO flight_logs (ts, flight_id, payload) VALUES (now(), $1, $2)",
                ),
                params: vec![
                    Param::Text(String::from_str(flight_id)),
                    Param::Text(String::from_str(payload_json)),
                ],
            },
        )
    }

    /// What stores a configuration. [`QuestDb::config_step`] says what follows
    /// it.
    pub fn insert_logger_config(&self, config_json: &str) -> (r: Result<Statement, String>)
        ensures
            match r {
                Ok(s) => self.connected && s@ == config_statement(config_json@),
                Err(e) => !self.connected && e@
                    == "❌ No se pudo guardar la configuración: No hay conexión a QuestDB"@,
            },
    {
        if !self.connected {
            return Err(
                String::from_str("❌ No se pudo guardar la configuración: No hay conexión a QuestDB"),
            );
        }
        Ok(
            Statement {
                sql: String::from_str(
                    "INSERT INTO logger_configs (ts, config_json) VALUES (now(), $1)",
                ),
                params: vec![Param::Text(String::from_str(config_json))],
            },
        )
    }

    /// What stores a configuration among the flight logs.
    pub fn insert_logger_config_legacy(&self, config_json: &str) -> (r: Result<Statement, String>)
        ensures
            match r {
                Ok(s) => self.connected && s@ == legacy_statement(config_json@),
                Err(e) => !self.connected && e@ == "❌ No hay conexión a QuestDB"@,
            },
    {
        if !self.connected {
            return Err(String::from_str("❌ No hay conexión a QuestDB"));
        }
        Ok(
            Statement {
                sql: String::from_str(LEGACY_INSERT),
                params: vec![
                    Param::Text(String::from_str("__config__")),
                    Param::Text(String::from_str(config_json)),
                ],
            },
        )
    }

    /// What follows the first attempt to store a configuration: nothing where it
    /// succeeded, or else the attempt to store it among the flight logs.
    pub fn config_step(&self, config_json: &str, first: Result<(), String>) -> (r: Result<
        Option<Statement>,
        String,
    >)
        ensures
            match first {
                Ok(_) => r == Ok::<Option<Statement>, String>(None),
                Err(_) => if self.connected {
                    r matches Ok(Some(s)) && s@ == legacy_statement(config_json@)
                } else {
                    r matches Err(e) && e@ == "❌ No hay conexión a QuestDB"@
                },
            },
    {
        match first {
            Ok(_) => Ok(None),
            Err(_) => match self.insert_logger_config_legacy(config_json) {
                Ok(s) => Ok(Some(s)),
                Err(e) => Err(e),
            },
        }
    }

    /// Whether a configuration is stored, given the outcome of the first attempt
    /// and of the one that followed where that failed.
    pub fn config_stored(first: Result<(), String>, legacy: Result<(), String>) -> (r: Result<
        (),
        String,
    >)
        ensures
            match (first, legacy) {
                (Err(_), Err(why)) => r matches Err(e) && e@ == "❌ Error legacy flight_logs: "@ + why@,
                _ => r is Ok,
            },
    {
        match (first, legacy) {
            (Err(_), Err(why)) => Err(legacy_failed(why.as_str())),
            _ => Ok(()),
        }
    }

    /// What lists the flights.
    pub fn list_flights(&self, limit: i64) -> (r: Result<Statement, String>)
        ensures
            match r {
                Ok(s) => self.connected && s@ == flights_statement(
                    self.table_name@,
                    self.time_col@,
                    limit,
                ),
                Err(e) => !self.connected && e@ == "Not connected to QuestDB"@,
            },
    {
        if !self.connected {
            return Err(String::from_str("Not connected to QuestDB"));
        }
        let mut sql = String::from_str(FLIGHTS_HEAD);
        sql.append(self.time_col.as_str());
        sql.append(FLIGHTS_TABLE);
        sql.append(self.table_name.as_str());
        sql.append(FLIGHTS_REST);
        Ok(Statement { sql, params: vec![Param::Number(limit)] })
    }

    /// What asks for the columns of the telemetry table.
    pub fn existing_columns(&self) -> (r: Statement)
        ensures
            r@ == columns_statement(self.table_name@),
    {
        Statement {
            sql: String::from_str(
                "SELECT column_name FROM information_schema.columns WHERE table_name = $1",
            ),
            params: vec![Param::Text(String::from_str(self.table_name.as_str()))],
        }
    }

    /// What asks for the columns among which
    /// [`QuestDb::detect_logger_configs_col`] looks.
    pub fn logger_configs_columns(&self) -> (r: Statement)
        ensures
            r@ == folded_columns_statement(self.table_name@),
    {
        Statement {
            sql: String::from_str(
                "SELECT column_name FROM information_schema.columns WHERE lower(table_name) = lower($1)",
            ),
            params: vec![Param::Text(String::from_str(self.table_name.as_str()))],
        }
    }

    /// The column that holds a configuration, given the columns that are
    /// `present`.
    #[verifier::loop_isolation(false)]
    pub fn detect_logger_configs_col(&self, present: &Vec<String>) -> (r: Result<String, String>)
        ensures
            match r {
                Ok(c) => self.connected && c@ == first_present(
                    config_columns(),
                    text::texts(present@),
                ),
                Err(e) => !self.connected && e@ == "Not connected to QuestDB"@,
            },
    {
        if !self.connected {
            return Err(String::from_str("Not connected to QuestDB"));
        }
        let names = config_column_names();
        let ghost all = config_columns();
        let ghost there = text::texts(present@);
        assert(all.skip(0) == all);
        for i in 0..names.len()
            invariant
                first_present(all, there) == first_present(all.skip(i as int), there),
        {
            assert(all.skip(i as int)[0] == all[i as int]);
            assert(all[i as int] == names@[i as int]@);
            if text::listed(present, names[i].as_str()) {
                return Ok(names[i].clone());
            }
            assert(all.skip(i as int).drop_first() == all.skip(i + 1));
        }
        Ok(String::from_str("payload"))
    }

    /// What reads the points of a flight, given the columns that are `present`
    /// and whether the span of time has a start and an end.
    #[verifier::loop_isolation(false)]
    pub fn fetch_flight_points(
        &self,
        present: &Vec<String>,
        flight_id: &str,
        from: bool,
        to: bool,
        limit: i64,
    ) -> (r: Result<Statement, String>)
        ensures
            match r {
                Ok(s) => self.connected && s@ == points_statement(
                    self.table_name@,
                    self.time_col@,
                    text::texts(present@),
                    flight_id@,
                    from,
                    to,
                    limit,
                ),
                Err(e) => !self.connected && e@ == "Not connected to QuestDB"@,
            },
    {
        if !self.connected {
            return Err(String::from_str("Not connected to QuestDB"));
        }
        let ghost there = text::texts(present@);
        let ghost all = common_columns();
        let names = common_column_names();
        let mut items: Vec<String> = vec![quoted_text(self.time_col.as_str())];
        assert(text::texts(items@) == seq![quoted_name(self.time_col@)] + present_items(
            all.take(0),
            there,
        ));
        for i in 0..names.len()
            invariant
                text::texts(items@) == seq![quoted_name(self.time_col@)] + present_items(
                    all.take(i as int),
                    there,
                ),
        {
            let ghost before = text::texts(items@);
            assert(all.take(i + 1).drop_last() == all.take(i as int));
            assert(all.take(i + 1).last() == names@[i as int]@) by {
                assert(all[i as int] == text::texts(names@)[i as int]);
            }
            if text::listed(present, names[i].as_str()) {
                let item = quoted_text(names[i].as_str());
                items.push(item);
                assert(text::texts(items@) == before.push(item@));
            }
        }
        assert(all.take(names@.len() as int) == all);
        push_rate(&mut items, "GyroXdps", "GyroX", present);
        push_rate(&mut items, "GyroYdps", "GyroY", present);
        push_rate(&mut items, "GyroZdps", "GyroZ", present);
        let mut sql = String::from_str("SELECT ");
        sql.append(text::joined(&items, ", ").as_str());
        sql.append(" FROM \"");
        sql.append(self.table_name.as_str());
        sql.append("\" WHERE flight_id = $1");
        let mut params: Vec<Param> = vec![Param::Text(String::from_str(flight_id))];
        let mut place: u64 = 2;
        if from {
            let mut bound = String::from_str(" AND \"");
            bound.append(self.time_col.as_str());
            bound.append("\" >= $");
            bound.append(text::nat_to_text(place).as_str());
            sql.append(bound.as_str());
            params.push(Param::From);
            place += 1;
        }
        if to {
            let mut bound = String::from_str(" AND \"");
            bound.append(self.time_col.as_str());
            bound.append("\" <= $");
            bound.append(text::nat_to_text(place).as_str());
            sql.append(bound.as_str());
            params.push(Param::To);
            place += 1;
        }
        sql.append(" ORDER BY \"");
        sql.append(self.time_col.as_str());
        sql.append("\" LIMIT $");
        sql.append(text::nat_to_text(place).as_str());
        params.push(Param::Number(limit));
        Ok(Statement { sql, params })
    }

    /// What the server's reply to written lines means.
    pub fn write_lines(&self, status: u16, status_text: &str, body: &str) -> (r: Result<(), String>)
        ensures
            match r {
                Ok(_) => 200 <= status < 300,
                Err(e) => !(200 <= status < 300) && e@ == "ILP write failed: url="@ + self.ilp.url@
                    + " status="@ + status_text@ + " body="@ + body@,
            },
    {
        self.ilp.write_lines(status, status_text, body)
    }
}

/// What a column of telemetry is read as.
#[derive(Debug, PartialEq, Eq, Clone, Copy)]
pub enum ColumnKind {
    Text,
    Double,
    Long,
}

/// The columns that a point may hold, and what each is read as.
pub open spec fn payload_columns() -> Seq<(Seq<char>, ColumnKind)> {
    seq![
        ("flight_id"@, ColumnKind::Text),
        ("schema_version"@, ColumnKind::Text),
        ("mode"@, ColumnKind::Text),
        ("AngleRoll"@, ColumnKind::Double),
        ("AnglePitch"@, ColumnKind::Double),
        ("Yaw"@, ColumnKind::Double),
        ("RateRoll"@, ColumnKind::Double),
        ("RatePitch"@, ColumnKind::Double),
        ("RateYaw"@, ColumnKind::Double),
        ("GyroXdps"@, ColumnKind::Double),
        ("GyroYdps"@, ColumnKind::Double),
        ("GyroZdps"@, ColumnKind::Double),
        ("MotorInput1"@, ColumnKind::Double),
        ("MotorInput2"@, ColumnKind::Double),
        ("MotorInput3"@, ColumnKind::Double),
        ("MotorInput4"@, ColumnKind::Double),
        ("InputThrottle"@, ColumnKind::Long),
        ("InputRoll"@, ColumnKind::Long),
        ("InputPitch"@, ColumnKind::Long),
        ("InputYaw"@, ColumnKind::Long),
        ("error_phi"@, ColumnKind::Double),
        ("error_theta"@, ColumnKind::Double),
        ("ErrorYaw"@, ColumnKind::Double),
        ("Altura"@, ColumnKind::Double),
        ("tau_x"@, ColumnKind::Double),
        ("tau_y"@, ColumnKind::Double),
        ("tau_z"@, ColumnKind::Double),
        ("Kc"@, ColumnKind::Double),
        ("Ki"@, ColumnKind::Double),
    ]
}

/// The members of a point: the columns whose cell could be read.
pub open spec fn payload_members(
    columns: Seq<(Seq<char>, ColumnKind)>,
    cells: Seq<Option<Json>>,
) -> Seq<(Seq<char>, JsonView)>
    decreases columns.len(),
{
    if columns.len() == 0 || cells.len() == 0 {
        seq![]
    } else {
        let rest = payload_members(columns.drop_last(), cells.drop_last());
        match cells.last() {
            Some(j) => json::put(rest, columns.last().0, j@),
            None => rest,
        }
    }
}

/// The names and kinds that a list of columns holds.
pub open spec fn kinds(list: Seq<(String, ColumnKind)>) -> Seq<(Seq<char>, ColumnKind)> {
    list.map_values(|c: (String, ColumnKind)| (c.0@, c.1))
}

impl FlightPoint {
    /// The columns that a point may hold, and what each is read as.
    pub fn columns() -> (r: Vec<(String, ColumnKind)>)
        ensures
            kinds(r@) == payload_columns(),
    {
        vec![
            (String::from_str("flight_id"), ColumnKind::Text),
            (String::from_str("schema_version"), ColumnKind::Text),
            (String::from_str("mode"), ColumnKind::Text),
            (String::from_str("AngleRoll"), ColumnKind::Double),
            (String::from_str("AnglePitch"), ColumnKind::Double),
            (String::from_str("Yaw"), ColumnKind::Double),
            (String::from_str("RateRoll"), ColumnKind::Double),
            (String::from_str("RatePitch"), ColumnKind::Double),
            (String::from_str("RateYaw"), ColumnKind::Double),
            (String::from_str("GyroXdps"), ColumnKind::Double),
            (String::from_str("GyroYdps"), ColumnKind::Double),
            (String::from_str("GyroZdps"), ColumnKind::Double),
            (String::from_str("MotorInput1"), ColumnKind::Double),
            (String::from_str("MotorInput2"), ColumnKind::Double),
            (String::from_str("MotorInput3"), ColumnKind::Double),
            (String::from_str("MotorInput4"), ColumnKind::Double),
            (String::from_str("InputThrottle"), ColumnKind::Long),
            (String::from_str("InputRoll"), ColumnKind::Long),
            (String::from_str("InputPitch"), ColumnKind::Long),
            (String::from_str("InputYaw"), ColumnKind::Long),
            (String::from_str("error_phi"), ColumnKind::Double),
            (String::from_str("error_theta"), ColumnKind::Double),
            (String::from_str("ErrorYaw"), ColumnKind::Double),
            (String::from_str("Altura"), ColumnKind::Double),
            (String::from_str("tau_x"), ColumnKind::Double),
            (String::from_str("tau_y"), ColumnKind::Double),
            (String::from_str("tau_z"), ColumnKind::Double),
            (String::from_str("Kc"), ColumnKind::Double),
            (String::from_str("Ki"), ColumnKind::Double),
        ]
    }

    /// The point of a row: its time and, for each column, the cell that could
    /// be read.
    #[verifier::loop_isolation(false)]
    pub fn from_row(ts_micros: i64, cells: &Vec<Option<Json>>) -> (r: FlightPoint)
        requires
            cells@.len() == payload_columns().len(),
        ensures
            r.ts_micros == ts_micros,
            r.payload@ == JsonView::Object(payload_members(payload_columns(), cells@)),
    {
        let columns = FlightPoint::columns();
        let ghost all = payload_columns();
        let mut members: Vec<(String, Json)> = Vec::new();
        assert(columns@.len() == all.len()) by {
            assert(kinds(columns@).len() == all.len());
        }
        for i in 0..columns.len()
            invariant
                json::entries(members@) == payload_members(
                    all.take(i as int),
                    cells@.take(i as int),
                ),
        {
            assert(all.take(i + 1).drop_last() == all.take(i as int));
            assert(cells@.take(i + 1).drop_last() == cells@.take(i as int));
            assert(all.take(i + 1).last().0 == columns@[i as int].0@) by {
                assert(all[i as int] == kinds(columns@)[i as int]);
            }
            match &cells[i] {
                Some(j) => {
                    json::put_entry(&mut members, columns[i].0.clone(), j.clone());
                },
                None => {},
            }
        }
        assert(all.take(columns@.len() as int) == all);
        assert(cells@.take(columns@.len() as int) == cells@);
        let payload = Json::Object(members);
        proof {
            json::lemma_views(payload);
        }
        FlightPoint { ts_micros, payload }
    }
}

impl QuestDbConfig {
    /// How the connection is asked for.
    pub fn connection_string(&self) -> (r: String)
        ensures
            r@ == "host="@ + self.host@ + " port="@ + text::nat_text(self.port as nat) + " user="@
                + self.user@ + " password="@ + self.password@ + " dbname="@ + self.database@,
    {
        let mut r = String::from_str("host=");
        r.append(self.host.as_str());
        r.append(" port=");
        r.append(text::nat_to_text(self.port as u64).as_str());
        r.append(" user=");
        r.append(self.user.as_str());
        r.append(" password=");
        r.append(self.password.as_str());
        r.append(" dbname=");
        r.append(self.database.as_str());
        r
    }
}

/// `what`, and then `why`.
fn because(what: &str, why: &str) -> (r: String)
    ensures
        r@ == what@ + why@,
{
    let mut r = String::from_str(what);
    r.append(why);
    r
}

/// That the database could not be reached.
pub fn connect_failed(why: &str) -> (r: String)
    ensures
        r@ == "Failed to connect to QuestDB: "@ + why@,
{
    because("Failed to connect to QuestDB: ", why)
}

/// That the tables could not be created.
pub fn schema_failed(why: &str) -> (r: String)
    ensures
        r@ == "Failed to create database schema: "@ + why@,
{
    because("Failed to create database schema: ", why)
}

/// That a configuration could not be stored among the flight logs either.
pub fn legacy_failed(why: &str) -> (r: String)
    ensures
        r@ == "❌ Error legacy flight_logs: "@ + why@,
{
    because("❌ Error legacy flight_logs: ", why)
}

/// How many records were stored: as many as lines, none where there is no
/// line, which is then not sent.
pub fn ingested(lines: &Vec<String>, sent: Result<(), String>) -> (r: Result<usize, String>)
    ensures
        match r {
            Ok(n) => n == lines@.len() && (lines@.len() == 0 || sent is Ok),
            Err(e) => lines@.len() > 0 && sent == Err::<(), String>(e),
        },
{
    if lines.len() == 0 {
        return Ok(0);
    }
    match sent {
        Ok(_) => Ok(lines.len()),
        Err(e) => Err(e),
    }
}

/// A database that is connected when it is first needed.
#[derive(Debug)]
pub struct OptionalDb {
    pub inner: Option<QuestDb>,
    pub config: QuestDbConfig,
}

impl OptionalDb {
    /// A database that is not connected yet.
    pub fn new(config: QuestDbConfig) -> (r: OptionalDb)
        ensures
            r.inner is None,
            r.config == config,
    {
        OptionalDb { inner: None, config }
    }

    /// Takes the outcome of an attempt to connect, which counts only where
    /// nothing is connected yet.
    pub fn ensure_connected(&mut self, made: Result<QuestDb, String>) -> (r: Result<(), String>)
        ensures
            final(self).config == old(self).config,
            match old(self).inner {
                Some(_) => r is Ok && final(self).inner == old(self).inner,
                None => match made {
                    Ok(db) => r is Ok && final(self).inner == Some(db),
                    Err(e) => r == Err::<(), String>(e) && final(self).inner is None,
                },
            },
    {
        match self.inner {
            Some(_) => Ok(()),
            None => match made {
                Ok(db) => {
                    self.inner = Some(db);
                    Ok(())
                },
                Err(e) => Err(e),
            },
        }
    }

    /// [`QuestDb::ingest_telemetry_batch`] of the connected database.
    pub fn ingest_telemetry_batch(
        &self,
        flight_id: &str,
        schema_version: &str,
        mode: Option<&str>,
        records: &Vec<Json>,
        ts_field: Option<&str>,
    ) -> (r: Result<Vec<String>, String>)
        requires
            self.inner is Some,
        ensures
            match r {
                Ok(lines) => self.inner->0.connected && all_objects(json::values(records@)) && exists|
                    presents: Seq<Moment>,
                |
                    presents.len() == records@.len() && text::texts(lines@) == #[trigger] batch_lines(
                        self.inner->0.ilp.table@,
                        batch_tags(flight_id@, schema_version@, text::optional(mode)),
                        json::values(records@),
                        text::optional(ts_field),
                        presents,
                    ),
                Err(e) => if !self.inner->0.connected {
                    e@ == "Not connected to QuestDB"@
                } else {
                    !all_objects(json::values(records@)) && e@ == "record is not a JSON object"@
                },
            },
    {
        self.inner.as_ref().unwrap().ingest_telemetry_batch(flight_id, schema_version, mode, records, ts_field)
    }

    /// [`QuestDb::insert_flight_log`] of the connected database.
    pub fn insert_flight_log(&self, flight_id: &str, payload: &str) -> (r: Result<Statement, String>)
        requires
            self.inner is Some,
        ensures
            match r {
                Ok(s) => self.inner->0.connected && s@ == flight_log_statement(flight_id@, payload@),
                Err(e) => !self.inner->0.connected && e@ == "Not connected to QuestDB"@,
            },
    {
        self.inner.as_ref().unwrap().insert_flight_log(flight_id, payload)
    }

    /// [`QuestDb::insert_logger_config`] of the connected database.
    pub fn insert_logger_config(&self, config: &str) -> (r: Result<Statement, String>)
        requires
            self.inner is Some,
        ensures
            match r {
                Ok(s) => self.inner->0.connected && s@ == config_statement(config@),
                Err(e) => !self.inner->0.connected && e@
                    == "❌ No se pudo guardar la configuración: No hay conexión a QuestDB"@,
            },
    {
        self.inner.as_ref().unwrap().insert_logger_config(config)
    }

    /// [`QuestDb::list_flights`] of the connected database.
    pub fn list_flights(&self, limit: i64) -> (r: Result<Statement, String>)
        requires
            self.inner is Some,
        ensures
            match r {
                Ok(s) => self.inner->0.connected && s@ == flights_statement(
                    self.inner->0.table_name@,
                    self.inner->0.time_col@,
                    limit,
                ),
                Err(e) => !self.inner->0.connected && e@ == "Not connected to QuestDB"@,
            },
    {
        self.inner.as_ref().unwrap().list_flights(limit)
    }

    /// [`QuestDb::fetch_flight_points`] of the connected database.
    pub fn fetch_flight_points(
        &self,
        present: &Vec<String>,
        flight_id: &str,
        from: bool,
        to: bool,
        limit: i64,
    ) -> (r: Result<Statement, String>)
        requires
            self.inner is Some,
        ensures
            match r {
                Ok(s) => self.inner->0.connected && s@ == points_statement(
                    self.inner->0.table_name@,
                    self.inner->0.time_col@,
                    text::texts(present@),
                    flight_id@,
                    from,
                    to,
                    limit,
                ),
                Err(e) => !self.inner->0.connected && e@ == "Not connected to QuestDB"@,
            },
    {
        self.inner.as_ref().unwrap().fetch_flight_points(present, flight_id, from, to, limit)
    }

    /// The fields that can be asked for.
    pub fn list_available_fields(&self) -> (r: Vec<String>)
        ensures
            text::texts(r@) == seq![
                "timestamp"@,
                "latitude"@,
                "longitude"@,
                "altitude"@,
                "speed"@,
                "battery"@,
                "rssi"@,
                "voltage"@,
                "current"@,
                "temperature"@,
            ],
    {
        vec![
            String::from_str("timestamp"),
            String::from_str("latitude"),
            String::from_str("longitude"),
            String::from_str("altitude"),
            String::from_str("speed"),
            String::from_str("battery"),
            String::from_str("rssi"),
            String::from_str("voltage"),
            String::from_str("current"),
            String::from_str("temperature"),
        ]
    }
}

/// What the write probe inserts: up to the time column.
pub const PROBE_TABLE: &'static str = r#"
            INSERT INTO ""#;

/// From the table to the time column.
pub const PROBE_TIME: &'static str = r#"" (""#;

/// The rest.
pub const PROBE_REST: &'static str = r#"", flight_id, schema_version, mode, AngleRoll, InputThrottle)
            VALUES (now(), 'probe_fid', '1', 'probe', 1.23, 1234)
        "#;

/// The two statements of the write probe: the insertion and the count.
pub fn probe_sql_insert(db: &OptionalDb) -> (r: Result<(String, String), String>)
    ensures
        match r {
            Ok(q) => db.inner is Some && db.inner->0.connected && q.0@ == PROBE_TABLE@
                + db.inner->0.table_name@ + PROBE_TIME@ + db.inner->0.time_col@ + PROBE_REST@ && q.1@
                == "SELECT count() FROM \""@ + db.inner->0.table_name@
                + "\" WHERE flight_id='probe_fid'"@,
            Err(e) => match db.inner {
                Some(q) => !q.connected && e@ == "No PostgreSQL client"@,
                None => e@ == "QuestDB not connected"@,
            },
        },
{
    let q = match &db.inner {
        Some(q) => q,
        None => {
            return Err(String::from_str("QuestDB not connected"));
        },
    };
    if !q.connected {
        return Err(String::from_str("No PostgreSQL client"));
    }
    let mut insert = String::from_str(PROBE_TABLE);
    insert.append(q.table_name.as_str());
    insert.append(PROBE_TIME);
    insert.append(q.time_col.as_str());
    insert.append(PROBE_REST);
    let mut count = String::from_str("SELECT count() FROM \"");
    count.append(q.table_name.as_str());
    count.append("\" WHERE flight_id='probe_fid'");
    Ok((insert, count))
}

/// What the write probe answers, given what became of its two statements.
pub fn probe_answer(inserted: Result<(), String>, counted: Result<i64, String>) -> (r: Result<
    ProbeResp,
    String,
>)
    ensures
        match r {
            Ok(p) => inserted is Ok && counted == Ok::<i64, String>(p.rows) && p.ok,
            Err(e) => match inserted {
                Err(why) => e@ == "probe insert failed: "@ + why@,
                Ok(_) => match counted {
                    Err(why) => e@ == "probe count failed: "@ + why@,
                    Ok(_) => false,
                },
            },
        },
{
    match inserted {
        Err(why) => Err(because("probe insert failed: ", why.as_str())),
        Ok(_) => match counted {
            Err(why) => Err(because("probe count failed: ", why.as_str())),
            Ok(rows) => Ok(ProbeResp { ok: true, rows }),
        },
    }
}

/// A tag is never stored as a column.
pub proof fn law_columns_are_no_tags(
    record: Seq<(Seq<char>, JsonView)>,
    ts_field: Option<Seq<char>>,
    i: int,
)
    requires
        0 <= i < columns(record, ts_field).len(),
    ensures
        !is_tag(columns(record, ts_field)[i].0),
    decreases record.len(),
{
    reveal_strlit("flight_id");
    reveal_strlit("schema_version");
    reveal_strlit("mode");
    reveal_strlit("Yaw");
    reveal_strlit("RatePitch");
    reveal_strlit("RateRoll");
    let rest = columns(record.drop_last(), ts_field);
    let name = record.last().0;
    match record.last().1 {
        JsonView::Number(n) if ts_field != Some(name) && !is_tag(name) => {
            let value = JsonView::Number(stored(name, n));
            json::lemma_put_names(rest, column(name), value);
            let added = columns(record, ts_field)[i].0;
            assert("Yaw"@.len() == 3 && "mode"@[0] == 'm' && "flight_id"@[0] == 'f'
                && "schema_version"@[0] == 's');
            assert("RatePitch"@[0] == 'R' && "RateRoll"@[0] == 'R' && "Yaw"@[0] == 'Y');
            if added != column(name) {
                let k = choose|k: int| 0 <= k < rest.len() && (#[trigger] rest[k]).0 == added;
                law_columns_are_no_tags(record.drop_last(), ts_field, k);
            }
        },
        _ => {
            law_columns_are_no_tags(record.drop_last(), ts_field, i);
        },
    }
}

/// A record whose names ascend takes its time from the member that is its
/// timestamp field, and from no other.
pub proof fn law_record_time(
    record: Seq<(Seq<char>, JsonView)>,
    field: Seq<char>,
    present: Moment,
)
    requires
        json::ordered(record),
    ensures
        record_time(record, Some(field), present) == (match json::lookup(record, field) {
            Some(JsonView::Text(s)) => Some(clock::timestamp_ns(Some(s), present)),
            Some(JsonView::Number(NumberView::Int(i))) => Some(i),
            _ => None,
        }),
    decreases record.len(),
{
    if record.len() > 0 {
        let rest = record.drop_last();
        law_record_time(rest, field, present);
        json::lemma_lookup_last(record, field);
        if record.last().0 == field {
            assert forall|i: int| 0 <= i < rest.len() implies (#[trigger] rest[i]).0 != field by {
                text::lemma_precedes_total(record[i].0, record[record.len() - 1].0);
            }
            json::lemma_lookup_absent(rest, field);
        }
    }
}

/// A batch carries its flight, its schema and, where there is one, its mode;
/// its tags ascend.
pub proof fn law_batch_tags(
    flight_id: Seq<char>,
    schema_version: Seq<char>,
    mode: Option<Seq<char>>,
)
    ensures
        json::lookup(batch_tags(flight_id, schema_version, mode), "flight_id"@) == Some(flight_id),
        json::lookup(batch_tags(flight_id, schema_version, mode), "schema_version"@) == Some(
            schema_version,
        ),
        json::lookup(batch_tags(flight_id, schema_version, mode), "mode"@) == mode,
        json::ordered(batch_tags(flight_id, schema_version, mode)),
{
    reveal_strlit("flight_id");
    reveal_strlit("schema_version");
    reveal_strlit("mode");
    let f = "flight_id"@;
    let s = "schema_version"@;
    let m = "mode"@;
    assert(f[0] == 'f' && s[0] == 's' && m[0] == 'm');
    let none: Seq<(Seq<char>, Seq<char>)> = seq![];
    let one = json::put(none, f, flight_id);
    let two = json::put(one, s, schema_version);
    json::law_put_keeps_order(none, f, flight_id);
    json::law_put_keeps_order(one, s, schema_version);
    json::law_put_then_lookup(none, f, flight_id, f);
    json::law_put_then_lookup(none, f, flight_id, s);
    json::law_put_then_lookup(none, f, flight_id, m);
    json::law_put_then_lookup(one, s, schema_version, f);
    json::law_put_then_lookup(one, s, schema_version, m);
    match mode {
        Some(v) => {
            json::law_put_keeps_order(two, m, v);
            json::law_put_then_lookup(two, m, v, f);
            json::law_put_then_lookup(two, m, v, s);
        },
        None => {},
    }
}

/// Records that are stored in two batches give the lines that they give in
/// one.
pub proof fn law_batches_add_up(
    table: Seq<char>,
    tags: Seq<(Seq<char>, Seq<char>)>,
    first: Seq<JsonView>,
    second: Seq<JsonView>,
    ts_field: Option<Seq<char>>,
    early: Seq<Moment>,
    late: Seq<Moment>,
)
    requires
        early.len() == first.len(),
        late.len() == second.len(),
    ensures
        batch_lines(table, tags, first + second, ts_field, early + late) == batch_lines(
            table,
            tags,
            first,
            ts_field,
            early,
        ) + batch_lines(table, tags, second, ts_field, late),
    decreases second.len(),
{
    if second.len() == 0 {
        assert(first + second == first);
        assert(early + late == early);
    } else {
        law_batches_add_up(table, tags, first, second.drop_last(), ts_field, early, late.drop_last());
        assert((first + second).drop_last() == first + second.drop_last());
        assert((early + late).drop_last() == early + late.drop_last());
    }
}

/// No record gives more than one line.
pub proof fn law_lines_do_not_multiply(
    table: Seq<char>,
    tags: Seq<(Seq<char>, Seq<char>)>,
    records: Seq<JsonView>,
    ts_field: Option<Seq<char>>,
    presents: Seq<Moment>,
)
    ensures
        batch_lines(table, tags, records, ts_field, presents).len() <= records.len(),
    decreases records.len(),
{
    if records.len() > 0 {
        law_lines_do_not_multiply(table, tags, records.drop_last(), ts_field, presents.drop_last());
    }
}

/// The last place of the query for the points of a flight takes the limit, and
/// there are as many places as bound values.
pub proof fn law_points_places(
    table: Seq<char>,
    time_col: Seq<char>,
    present: Seq<Seq<char>>,
    flight_id: Seq<char>,
    from: bool,
    to: bool,
    limit: i64,
)
    ensures
        ({
            let s = points_statement(table, time_col, present, flight_id, from, to, limit);
            text::ends_with(s.sql, "\" LIMIT $"@ + text::nat_text(s.params.len())) && s.params.last()
                == ParamView::Number(limit)
        }),
{
    let s = points_statement(table, time_col, present, flight_id, from, to, limit);
    let tail = "\" LIMIT $"@ + text::nat_text(s.params.len());
    assert(s.sql.skip(s.sql.len() - tail.len()) =~= tail);
}


/// The line of a record begins with the table and the tags of its batch, and
/// ends with the time of the record.
pub proof fn law_line_shape(
    table: Seq<char>,
    tags: Seq<(Seq<char>, Seq<char>)>,
    record: Seq<(Seq<char>, JsonView)>,
    ts_field: Option<Seq<char>>,
    present: Moment,
)
    ensures
        record_line(table, tags, record, ts_field, present) matches Some(l) ==> {
            let time = match record_time(record, ts_field, present) {
                Some(ns) => ns,
                None => clock::moment_ns(present),
            };
            text::starts_with(l, ilp::line_head(table, tags) + " "@) && text::ends_with(
                l,
                " "@ + text::int_text(time as int),
            )
        },
{
    let head = ilp::line_head(table, tags) + " "@;
    let time = match record_time(record, ts_field, present) {
        Some(ns) => ns,
        None => clock::moment_ns(present),
    };
    let tail = " "@ + text::int_text(time as int);
    match record_line(table, tags, record, ts_field, present) {
        Some(l) => {
            assert(l.take(head.len() as int) == head);
            assert(l.skip(l.len() - tail.len()) == tail);
        },
        None => {},
    }
}

/// A record is stored exactly where it has a column.
pub proof fn law_record_owed(
    table: Seq<char>,
    tags: Seq<(Seq<char>, Seq<char>)>,
    record: Seq<(Seq<char>, JsonView)>,
    ts_field: Option<Seq<char>>,
    present: Moment,
)
    ensures
        record_line(table, tags, record, ts_field, present) is Some <==> columns(
            record,
            ts_field,
        ).len() > 0,
{
    let cols = columns(record, ts_field);
    let ts = match record_time(record, ts_field, present) {
        Some(ns) => ns,
        None => clock::moment_ns(present),
    };
    ilp::law_line_owed(table, tags, cols, Some(ts));
    if cols.len() > 0 {
        law_columns_are_numbers(record, ts_field, 0);
        assert(!(cols[0].1 is Null));
    }
}

/// Every column holds a number.
pub proof fn law_columns_are_numbers(
    record: Seq<(Seq<char>, JsonView)>,
    ts_field: Option<Seq<char>>,
    i: int,
)
    requires
        0 <= i < columns(record, ts_field).len(),
    ensures
        columns(record, ts_field)[i].1 is Number,
    decreases record.len(),
{
    let rest = columns(record.drop_last(), ts_field);
    let name = record.last().0;
    match record.last().1 {
        JsonView::Number(n) if ts_field != Some(name) && !is_tag(name) => {
            let value = JsonView::Number(stored(name, n));
            json::lemma_put_values(rest, column(name), value);
            let added = columns(record, ts_field)[i];
            if added != (column(name), value) {
                let k = choose|k: int| 0 <= k < rest.len() && #[trigger] rest[k] == added;
                law_columns_are_numbers(record.drop_last(), ts_field, k);
            }
        },
        _ => {
            law_columns_are_numbers(record.drop_last(), ts_field, i);
        },
    }
}


/// The columns of a record ascend, each once.
pub proof fn law_columns_ascend(
    record: Seq<(Seq<char>, JsonView)>,
    ts_field: Option<Seq<char>>,
)
    ensures
        json::ordered(columns(record, ts_field)),
    decreases record.len(),
{
    if record.len() > 0 {
        law_columns_ascend(record.drop_last(), ts_field);
        let rest = columns(record.drop_last(), ts_field);
        let name = record.last().0;
        match record.last().1 {
            JsonView::Number(n) => {
                json::law_put_keeps_order(rest, column(name), JsonView::Number(stored(name, n)));
            },
            _ => {},
        }
    }
}

/// The members of a point ascend, each once.
pub proof fn law_payload_ascends(
    columns: Seq<(Seq<char>, ColumnKind)>,
    cells: Seq<Option<Json>>,
)
    ensures
        json::ordered(payload_members(columns, cells)),
    decreases columns.len(),
{
    if columns.len() > 0 && cells.len() > 0 {
        law_payload_ascends(columns.drop_last(), cells.drop_last());
        let rest = payload_members(columns.drop_last(), cells.drop_last());
        match cells.last() {
            Some(j) => json::law_put_keeps_order(rest, columns.last().0, j@),
            None => {},
        }
    }
}

/// The number of entry `k` is what is stored in its column, where no later entry
/// goes to the same column.
proof fn lemma_stored_column(
    record: Seq<(Seq<char>, JsonView)>,
    ts_field: Option<Seq<char>>,
    k: int,
    n: NumberView,
)
    requires
        0 <= k < record.len(),
        record[k].1 == JsonView::Number(n),
        ts_field != Some(record[k].0),
        !is_tag(record[k].0),
        forall|j: int|
            k < j < record.len() && (#[trigger] record[j]).1 is Number ==> column(record[j].0) != column(
                record[k].0,
            ),
    ensures
        json::lookup(columns(record, ts_field), column(record[k].0)) == Some(
            JsonView::Number(stored(record[k].0, n)),
        ),
    decreases record.len(),
{
    let rest = columns(record.drop_last(), ts_field);
    let last = record.last();
    if k == record.len() - 1 {
        json::law_put_then_lookup(
            rest,
            column(last.0),
            JsonView::Number(stored(last.0, n)),
            column(last.0),
        );
    } else {
        lemma_stored_column(record.drop_last(), ts_field, k, n);
        assert(record[record.len() - 1] == last);
        match last.1 {
            JsonView::Number(m) => {
                json::law_put_then_lookup(
                    rest,
                    column(last.0),
                    JsonView::Number(stored(last.0, m)),
                    column(record[k].0),
                );
            },
            _ => {},
        }
    }
}

/// A record whose names ascend holds no number under a name that a later entry
/// of it would bring to the same column.
proof fn lemma_own_column(record: Seq<(Seq<char>, JsonView)>, k: int)
    requires
        json::ordered(record),
        0 <= k < record.len(),
        record[k].0 == "AngleYaw"@ ==> !is_number_under(record, "Yaw"@),
        record[k].0 == "RatePitch"@ ==> !is_number_under(record, "gyroRatePitch"@),
        record[k].0 == "RateRoll"@ ==> !is_number_under(record, "gyroRateRoll"@),
    ensures
        forall|j: int|
            k < j < record.len() && (#[trigger] record[j]).1 is Number ==> column(record[j].0) != column(
                record[k].0,
            ),
{
    reveal_strlit("AngleYaw");
    reveal_strlit("Yaw");
    reveal_strlit("gyroRatePitch");
    reveal_strlit("RatePitch");
    reveal_strlit("gyroRateRoll");
    reveal_strlit("RateRoll");
    assert("AngleYaw"@[0] == 'A' && "Yaw"@[0] == 'Y' && "gyroRatePitch"@[0] == 'g' && "RatePitch"@[0]
        == 'R' && "gyroRateRoll"@[0] == 'g' && "RateRoll"@[0] == 'R');
    assert("gyroRatePitch"@.len() == 13 && "gyroRateRoll"@.len() == 12 && "RatePitch"@.len() == 9
        && "RateRoll"@.len() == 8);
    assert forall|j: int| k < j < record.len() && (#[trigger] record[j]).1 is Number implies column(
        record[j].0,
    ) != column(record[k].0) by {
        text::lemma_precedes_total(record[k].0, record[j].0);
        json::law_ordered_lookup(record, j);
        assert(text::precedes(record[k].0, record[j].0));
    }
}

/// A number stands under `name`.
pub open spec fn is_number_under(record: Seq<(Seq<char>, JsonView)>, name: Seq<char>) -> bool {
    json::lookup(record, name) matches Some(JsonView::Number(_))
}

/// What is stored of a record: the number under a name, unless that names the
/// time or one of the tags.
pub open spec fn stores(
    record: Seq<(Seq<char>, JsonView)>,
    ts_field: Option<Seq<char>>,
    name: Seq<char>,
    n: NumberView,
) -> bool {
    &&& json::ordered(record)
    &&& json::lookup(record, name) == Some(JsonView::Number(n))
    &&& ts_field != Some(name)
    &&& name != "flight_id"@ && name != "schema_version"@ && name != "mode"@
}

/// The place of the entry that is found.
proof fn lemma_place_of_entry(record: Seq<(Seq<char>, JsonView)>, name: Seq<char>) -> (k: int)
    requires
        json::lookup(record, name) is Some,
    ensures
        0 <= k < record.len(),
        record[k] == (name, json::lookup(record, name)->0),
{
    json::law_lookup(record, name);
    choose|i: int|
        0 <= i < record.len() && #[trigger] record[i] == (name, json::lookup(record, name)->0)
}

/// An integer is stored as it is, under its own name, unless it belongs to one
/// of the fields that are doubles. That goes for the four inputs of the sticks
/// and for any other name.
pub proof fn law_integers_are_stored(
    record: Seq<(Seq<char>, JsonView)>,
    ts_field: Option<Seq<char>>,
    name: Seq<char>,
    i: i64,
)
    requires
        stores(record, ts_field, name, NumberView::Int(i)),
        name != "AngleYaw"@ && name != "gyroRatePitch"@ && name != "gyroRateRoll"@,
        name != "MotorInput1"@ && name != "MotorInput2"@ && name != "MotorInput3"@ && name
            != "MotorInput4"@,
        name != "error_phi"@ && name != "error_theta"@,
        name == "RatePitch"@ ==> !is_number_under(record, "gyroRatePitch"@),
        name == "RateRoll"@ ==> !is_number_under(record, "gyroRateRoll"@),
    ensures
        json::lookup(columns(record, ts_field), name) == Some(
            JsonView::Number(NumberView::Int(i)),
        ),
{
    let k = lemma_place_of_entry(record, name);
    lemma_own_column(record, k);
    lemma_stored_column(record, ts_field, k, NumberView::Int(i));
}

/// A number with places behind its point is stored as it is, under its own name,
/// unless it is an input of the sticks; those are rounded to integers.
pub proof fn law_reals_are_stored(
    record: Seq<(Seq<char>, JsonView)>,
    ts_field: Option<Seq<char>>,
    name: Seq<char>,
    x: json::RealView,
)
    requires
        stores(record, ts_field, name, NumberView::Real(x)),
        name != "AngleYaw"@ && name != "gyroRatePitch"@ && name != "gyroRateRoll"@,
        name == "RatePitch"@ ==> !is_number_under(record, "gyroRatePitch"@),
        name == "RateRoll"@ ==> !is_number_under(record, "gyroRateRoll"@),
    ensures
        json::lookup(columns(record, ts_field), name) == Some(
            JsonView::Number(
                if name == "InputThrottle"@ || name == "InputRoll"@ || name == "InputPitch"@ || name
                    == "InputYaw"@ {
                    NumberView::Int(x.double.rounded())
                } else {
                    NumberView::Real(x)
                },
            ),
        ),
{
    reveal_strlit("InputThrottle");
    reveal_strlit("InputRoll");
    reveal_strlit("InputPitch");
    reveal_strlit("InputYaw");
    reveal_strlit("MotorInput1");
    reveal_strlit("MotorInput2");
    reveal_strlit("MotorInput3");
    reveal_strlit("MotorInput4");
    reveal_strlit("error_phi");
    reveal_strlit("error_theta");
    assert("InputThrottle"@[0] == 'I' && "InputRoll"@[0] == 'I' && "InputPitch"@[0] == 'I'
        && "InputYaw"@[0] == 'I');
    assert("MotorInput1"@[0] == 'M' && "MotorInput2"@[0] == 'M' && "MotorInput3"@[0] == 'M'
        && "MotorInput4"@[0] == 'M' && "error_phi"@[0] == 'e' && "error_theta"@[0] == 'e');
    let k = lemma_place_of_entry(record, name);
    lemma_own_column(record, k);
    lemma_stored_column(record, ts_field, k, NumberView::Real(x));
}

/// An integer under the name of a motor or of an error is stored as a double,
/// under that name.
pub proof fn law_integers_as_doubles(
    record: Seq<(Seq<char>, JsonView)>,
    ts_field: Option<Seq<char>>,
    name: Seq<char>,
    i: i64,
)
    requires
        stores(record, ts_field, name, NumberView::Int(i)),
        name == "MotorInput1"@ || name == "MotorInput2"@ || name == "MotorInput3"@ || name
            == "MotorInput4"@ || name == "error_phi"@ || name == "error_theta"@,
    ensures
        json::lookup(columns(record, ts_field), name) == Some(
            JsonView::Number(NumberView::Real(json::double_of(i))),
        ),
{
    reveal_strlit("MotorInput1");
    reveal_strlit("MotorInput2");
    reveal_strlit("MotorInput3");
    reveal_strlit("MotorInput4");
    reveal_strlit("error_phi");
    reveal_strlit("error_theta");
    reveal_strlit("AngleYaw");
    reveal_strlit("gyroRatePitch");
    reveal_strlit("gyroRateRoll");
    reveal_strlit("RatePitch");
    reveal_strlit("RateRoll");
    assert(name[0] == 'M' || name[0] == 'e');
    assert("AngleYaw"@[0] == 'A' && "gyroRatePitch"@[0] == 'g' && "gyroRateRoll"@[0] == 'g'
        && "RatePitch"@[0] == 'R' && "RateRoll"@[0] == 'R');
    let k = lemma_place_of_entry(record, name);
    lemma_own_column(record, k);
    lemma_stored_column(record, ts_field, k, NumberView::Int(i));
}

/// The angle of the yaw and two of the rates are stored as doubles in columns of
/// other names; a yaw of its own goes before the angle.
pub proof fn law_renamed_columns(
    record: Seq<(Seq<char>, JsonView)>,
    ts_field: Option<Seq<char>>,
    name: Seq<char>,
    n: NumberView,
)
    requires
        stores(record, ts_field, name, n),
        (name == "AngleYaw"@ && !is_number_under(record, "Yaw"@)) || name == "gyroRatePitch"@ || name
            == "gyroRateRoll"@,
    ensures
        json::lookup(
            columns(record, ts_field),
            if name == "AngleYaw"@ {
                "Yaw"@
            } else if name == "gyroRatePitch"@ {
                "RatePitch"@
            } else {
                "RateRoll"@
            },
        ) == Some(
            JsonView::Number(
                NumberView::Real(
                    match n {
                        NumberView::Int(i) => json::double_of(i),
                        NumberView::Real(x) => x,
                    },
                ),
            ),
        ),
{
    reveal_strlit("AngleYaw");
    reveal_strlit("gyroRatePitch");
    reveal_strlit("gyroRateRoll");
    reveal_strlit("RatePitch");
    reveal_strlit("RateRoll");
    assert("AngleYaw"@[0] == 'A' && "gyroRatePitch"@[0] == 'g' && "gyroRateRoll"@[0] == 'g'
        && "RatePitch"@[0] == 'R' && "RateRoll"@[0] == 'R');
    assert("gyroRatePitch"@.len() == 13 && "gyroRateRoll"@.len() == 12);
    let k = lemma_place_of_entry(record, name);
    lemma_own_column(record, k);
    lemma_stored_column(record, ts_field, k, n);
}

/// The number under `name` goes to column `col`.
pub open spec fn goes_to(name: Seq<char>, col: Seq<char>) -> bool {
    ||| name == "AngleYaw"@ && col == "Yaw"@
    ||| name == "gyroRatePitch"@ && col == "RatePitch"@
    ||| name == "gyroRateRoll"@ && col == "RateRoll"@
    ||| name == col && name != "AngleYaw"@ && name != "gyroRatePitch"@ && name != "gyroRateRoll"@
}

/// Whatever is stored comes from a number of the record that is neither its time
/// nor a tag.
pub proof fn law_columns_come_from_numbers(
    record: Seq<(Seq<char>, JsonView)>,
    ts_field: Option<Seq<char>>,
    col: Seq<char>,
)
    requires
        json::lookup(columns(record, ts_field), col) is Some,
    ensures
        exists|k: int|
            0 <= k < record.len() && (#[trigger] record[k]).1 is Number && goes_to(record[k].0, col)
                && ts_field != Some(record[k].0) && record[k].0 != "flight_id"@ && record[k].0
                != "schema_version"@ && record[k].0 != "mode"@,
    decreases record.len(),
{
    if record.len() > 0 {
        let shorter = record.drop_last();
        let rest = columns(shorter, ts_field);
        let last = record.last();
        let here = last.1 is Number && ts_field != Some(last.0) && !is_tag(last.0) && column(last.0)
            == col;
        if here {
            assert(record[record.len() - 1] == last);
        } else {
            match last.1 {
                JsonView::Number(n) => {
                    json::law_put_then_lookup(
                        rest,
                        column(last.0),
                        JsonView::Number(stored(last.0, n)),
                        col,
                    );
                },
                _ => {},
            }
            law_columns_come_from_numbers(shorter, ts_field, col);
            let k = choose|k: int|
                0 <= k < shorter.len() && (#[trigger] shorter[k]).1 is Number && goes_to(
                    shorter[k].0,
                    col,
                ) && ts_field != Some(shorter[k].0) && shorter[k].0 != "flight_id"@ && shorter[k].0
                    != "schema_version"@ && shorter[k].0 != "mode"@;
            assert(record[k] == shorter[k]);
        }
    }
}

/// A record without a timestamp field has no time of its own.
pub proof fn law_no_timestamp_field(record: Seq<(Seq<char>, JsonView)>, present: Moment)
    ensures
        record_time(record, None, present) is None,
    decreases record.len(),
{
    if record.len() > 0 {
        law_no_timestamp_field(record.drop_last(), present);
    }
}

/// A record that is stored gives one line: its table and tags, its columns, each
/// as its name, an equals sign and its number, and the time of the record or else
/// the present.
pub proof fn law_record_line(
    table: Seq<char>,
    tags: Seq<(Seq<char>, Seq<char>)>,
    record: Seq<(Seq<char>, JsonView)>,
    ts_field: Option<Seq<char>>,
    present: Moment,
)
    ensures
        ({
            let cols = columns(record, ts_field);
            let written = Seq::new(
                cols.len(),
                |k: int|
                    cols[k].0 + (match cols[k].1 {
                        JsonView::Number(NumberView::Int(i)) => seq!['='] + text::int_text(i as int)
                            + seq!['i'],
                        JsonView::Number(NumberView::Real(x)) => seq!['='] + x.plain,
                        _ => seq![],
                    }),
            );
            let time = match record_time(record, ts_field, present) {
                Some(ns) => ns,
                None => clock::moment_ns(present),
            };
            record_line(table, tags, record, ts_field, present) == (if cols.len() == 0 {
                None
            } else {
                Some(
                    ilp::line_head(table, tags) + seq![' '] + text::join(written, seq![',']) + seq![' ']
                        + text::int_text(time as int),
                )
            })
        }),
{
    reveal_strlit(" ");
    reveal_strlit(",");
    assert(" "@ == seq![' '] && ","@ == seq![',']);
    let cols = columns(record, ts_field);
    let written = Seq::new(
        cols.len(),
        |k: int|
            cols[k].0 + (match cols[k].1 {
                JsonView::Number(NumberView::Int(i)) => seq!['='] + text::int_text(i as int)
                    + seq!['i'],
                JsonView::Number(NumberView::Real(x)) => seq!['='] + x.plain,
                _ => seq![],
            }),
    );
    assert forall|k: int| 0 <= k < cols.len() implies (#[trigger] cols[k]).1 is Number by {
        law_columns_are_numbers(record, ts_field, k);
    }
    lemma_numbers_written(cols, cols.len());
    assert(cols.take(cols.len() as int) == cols);
    assert(ilp::field_texts(cols) =~= written);
}

/// Numbers are all written.
proof fn lemma_numbers_written(cols: Seq<(Seq<char>, JsonView)>, n: nat)
    requires
        n <= cols.len(),
        forall|k: int| 0 <= k < cols.len() ==> (#[trigger] cols[k]).1 is Number,
    ensures
        ilp::field_texts(cols.take(n as int)).len() == n,
        forall|k: int|
            0 <= k < n ==> #[trigger] ilp::field_texts(cols.take(n as int))[k] == cols[k].0 + (
            match cols[k].1 {
                JsonView::Number(NumberView::Int(i)) => seq!['='] + text::int_text(i as int)
                    + seq!['i'],
                JsonView::Number(NumberView::Real(x)) => seq!['='] + x.plain,
                _ => seq![],
            }),
    decreases n,
{
    reveal_strlit("=");
    reveal_strlit("i");
    assert("="@ == seq!['='] && "i"@ == seq!['i']);
    if n > 0 {
        lemma_numbers_written(cols, (n - 1) as nat);
        let shorter = cols.take(n - 1);
        assert(cols.take(n as int).drop_last() == shorter);
        let last = cols[n - 1];
        assert(cols.take(n as int).last() == last);
        match last.1 {
            JsonView::Number(NumberView::Int(i)) => {
                assert(last.0 + "="@ + text::int_text(i as int) + "i"@ == last.0 + (seq!['=']
                    + text::int_text(i as int) + seq!['i']));
            },
            JsonView::Number(NumberView::Real(x)) => {
                assert(last.0 + "="@ + x.plain == last.0 + (seq!['='] + x.plain));
            },
            _ => {},
        }
    }
}

/// The line of record `i` of a batch, where it gives one.
pub open spec fn line_at(
    table: Seq<char>,
    tags: Seq<(Seq<char>, Seq<char>)>,
    records: Seq<JsonView>,
    ts_field: Option<Seq<char>>,
    presents: Seq<Moment>,
) -> spec_fn(int) -> Option<Seq<char>> {
    |i: int|
        match records[i] {
            JsonView::Object(e) => record_line(table, tags, e, ts_field, presents[i]),
            _ => None,
        }
}

/// The lines of a batch are those of its records, all of them, in order, each
/// read at its own moment.
pub proof fn law_batch_lines(
    table: Seq<char>,
    tags: Seq<(Seq<char>, Seq<char>)>,
    records: Seq<JsonView>,
    ts_field: Option<Seq<char>>,
    presents: Seq<Moment>,
)
    requires
        presents.len() == records.len(),
    ensures
        lists::gathers(
            line_at(table, tags, records, ts_field, presents),
            0,
            records.len() as int,
            batch_lines(table, tags, records, ts_field, presents),
        ),
{
    lemma_batch_lines(table, tags, records, ts_field, presents, records.len());
    assert(records.take(records.len() as int) == records);
    assert(presents.take(records.len() as int) == presents);
}

proof fn lemma_batch_lines(
    table: Seq<char>,
    tags: Seq<(Seq<char>, Seq<char>)>,
    records: Seq<JsonView>,
    ts_field: Option<Seq<char>>,
    presents: Seq<Moment>,
    n: nat,
)
    requires
        presents.len() == records.len(),
        n <= records.len(),
    ensures
        lists::gathers(
            line_at(table, tags, records, ts_field, presents),
            0,
            n as int,
            batch_lines(
                table,
                tags,
                records.take(n as int),
                ts_field,
                presents.take(n as int),
            ),
        ),
    decreases n,
{
    let f = line_at(table, tags, records, ts_field, presents);
    if n == 0 {
        lists::lemma_gathers_nothing(f, 0, 0);
        assert(batch_lines(table, tags, records.take(0), ts_field, presents.take(0)) == Seq::<
            Seq<char>,
        >::empty());
    } else {
        lemma_batch_lines(table, tags, records, ts_field, presents, (n - 1) as nat);
        assert(records.take(n as int).drop_last() == records.take(n - 1));
        assert(presents.take(n as int).drop_last() == presents.take(n - 1));
        lists::lemma_gathers_next(
            f,
            0,
            n - 1,
            batch_lines(table, tags, records.take(n - 1), ts_field, presents.take(n - 1)),
        );
    }
}

/// The column of a configuration is the first of the candidates that is present,
/// and `payload` where none is.
pub proof fn law_first_present(candidates: Seq<Seq<char>>, present: Seq<Seq<char>>)
    ensures
        (forall|i: int| 0 <= i < candidates.len() ==> !present.contains(#[trigger] candidates[i]))
            ==> first_present(candidates, present) == "payload"@,
        forall|i: int|
            0 <= i < candidates.len() && present.contains(#[trigger] candidates[i]) && (forall|
                j: int,
            |
                0 <= j < i ==> !present.contains(#[trigger] candidates[j])) ==> first_present(
                candidates,
                present,
            ) == candidates[i],
    decreases candidates.len(),
{
    if candidates.len() > 0 {
        let rest = candidates.drop_first();
        law_first_present(rest, present);
        if !present.contains(candidates[0]) {
            if forall|i: int|
                0 <= i < candidates.len() ==> !present.contains(#[trigger] candidates[i]) {
                assert forall|i: int| 0 <= i < rest.len() implies !present.contains(
                    #[trigger] rest[i],
                ) by {
                    assert(rest[i] == candidates[i + 1]);
                }
            }
            assert forall|i: int|
                0 <= i < candidates.len() && present.contains(#[trigger] candidates[i]) && (forall|
                    j: int,
                |
                    0 <= j < i ==> !present.contains(
                        #[trigger] candidates[j],
                    )) implies first_present(candidates, present) == candidates[i] by {
                assert(i > 0);
                assert(rest[i - 1] == candidates[i]);
                assert forall|j: int| 0 <= j < i - 1 implies !present.contains(#[trigger] rest[j]) by {
                    assert(rest[j] == candidates[j + 1]);
                }
            }
        } else {
            assert forall|i: int|
                0 <= i < candidates.len() && present.contains(#[trigger] candidates[i]) && (forall|
                    j: int,
                |
                    0 <= j < i ==> !present.contains(
                        #[trigger] candidates[j],
                    )) implies first_present(candidates, present) == candidates[i] by {
                if i > 0 {
                    assert(!present.contains(candidates[0]));
                }
            }
        }
    }
}

/// Where a configuration is looked for: in `payload`, or else `config`, or else
/// `data`, or else `json`, or else `value`.
pub proof fn law_config_column(present: Seq<Seq<char>>)
    ensures
        ({
            let found = first_present(config_columns(), present);
            if present.contains("payload"@) {
                found == "payload"@
            } else if present.contains("config"@) {
                found == "config"@
            } else if present.contains("data"@) {
                found == "data"@
            } else if present.contains("json"@) {
                found == "json"@
            } else if present.contains("value"@) {
                found == "value"@
            } else {
                found == "payload"@
            }
        }),
{
    reveal_with_fuel(first_present, 7);
    let all = config_columns();
    let one = all.drop_first();
    let two = one.drop_first();
    let three = two.drop_first();
    let four = three.drop_first();
    assert(one[0] == "config"@ && two[0] == "data"@ && three[0] == "json"@ && four[0] == "value"@);
    assert(four.drop_first().len() == 0);
}

/// Column `i`, in double quotes, where it is present.
pub open spec fn item_at(names: Seq<Seq<char>>, present: Seq<Seq<char>>) -> spec_fn(int) -> Option<
    Seq<char>,
> {
    |i: int|
        if present.contains(names[i]) {
            Some(seq!['"'] + names[i] + seq!['"'])
        } else {
            None
        }
}

/// Every column that is present is selected, in order, in double quotes, and no
/// other.
pub proof fn law_present_items(names: Seq<Seq<char>>, present: Seq<Seq<char>>)
    ensures
        lists::gathers(item_at(names, present), 0, names.len() as int, present_items(names, present)),
{
    lemma_present_items(names, present, names.len());
    assert(names.take(names.len() as int) == names);
}

proof fn lemma_present_items(names: Seq<Seq<char>>, present: Seq<Seq<char>>, n: nat)
    requires
        n <= names.len(),
    ensures
        lists::gathers(
            item_at(names, present),
            0,
            n as int,
            present_items(names.take(n as int), present),
        ),
    decreases n,
{
    reveal_strlit("\"");
    assert("\""@ == seq!['"']);
    if n == 0 {
        lists::lemma_gathers_nothing(item_at(names, present), 0, 0);
        assert(present_items(names.take(0), present) == Seq::<Seq<char>>::empty());
    } else {
        lemma_present_items(names, present, (n - 1) as nat);
        assert(names.take(n as int).drop_last() == names.take(n - 1));
        lists::lemma_gathers_next(
            item_at(names, present),
            0,
            n - 1,
            present_items(names.take(n - 1), present),
        );
    }
}

/// A rate is selected from its own column, or else from the older one under its
/// name, or else not at all.
pub proof fn law_rate_items(want: Seq<char>, legacy: Seq<char>, present: Seq<Seq<char>>)
    ensures
        present.contains(want) ==> rate_items(want, legacy, present) == seq![
            seq!['"'] + want + seq!['"'],
        ],
        !present.contains(want) && present.contains(legacy) ==> rate_items(want, legacy, present)
            == seq![
            seq!['"'] + legacy + seq!['"', ' ', 'A', 'S', ' ', '"'] + want + seq!['"'],
        ],
        !present.contains(want) && !present.contains(legacy) ==> rate_items(
            want,
            legacy,
            present,
        ).len() == 0,
{
    reveal_strlit("\"");
    reveal_strlit(" AS ");
    assert("\""@ == seq!['"']);
    assert(quoted_name(legacy) + " AS "@ + quoted_name(want) == seq!['"'] + legacy + seq![
        '"',
        ' ',
        'A',
        'S',
        ' ',
        '"',
    ] + want + seq!['"']);
}

/// Every column that a point is made of is selected where it is present: it is
/// one of the common ones or one of the three rates.
pub proof fn law_points_are_selected(i: int)
    requires
        0 <= i < payload_columns().len(),
    ensures
        common_columns().contains(payload_columns()[i].0) || payload_columns()[i].0 == "GyroXdps"@
            || payload_columns()[i].0 == "GyroYdps"@ || payload_columns()[i].0 == "GyroZdps"@,
        common_columns().len() == 26,
        payload_columns().len() == 29,
{
    let k = if i < 9 {
        i
    } else if 12 <= i < 16 {
        i + 1
    } else if 16 <= i < 20 {
        i - 7
    } else {
        i - 3
    };
    if i < 9 || i >= 12 {
        assert(common_columns()[k] == payload_columns()[i].0);
    }
}

/// Of the columns of a point the flight, the schema and the mode are texts, the
/// inputs of the sticks integers, and all others doubles.
pub proof fn law_column_kinds(i: int)
    requires
        0 <= i < payload_columns().len(),
    ensures
        ({
            let (name, kind) = payload_columns()[i];
            &&& kind is Text <==> name == "flight_id"@ || name == "schema_version"@ || name == "mode"@
            &&& kind is Long <==> name == "InputThrottle"@ || name == "InputRoll"@ || name
                == "InputPitch"@ || name == "InputYaw"@
        }),
{
    reveal_strlit("flight_id");
    reveal_strlit("schema_version");
    reveal_strlit("mode");
    reveal_strlit("AngleRoll");
    reveal_strlit("AnglePitch");
    reveal_strlit("Yaw");
    reveal_strlit("RateRoll");
    reveal_strlit("RatePitch");
    reveal_strlit("RateYaw");
    reveal_strlit("GyroXdps");
    reveal_strlit("GyroYdps");
    reveal_strlit("GyroZdps");
    reveal_strlit("MotorInput1");
    reveal_strlit("MotorInput2");
    reveal_strlit("MotorInput3");
    reveal_strlit("MotorInput4");
    reveal_strlit("InputThrottle");
    reveal_strlit("InputRoll");
    reveal_strlit("InputPitch");
    reveal_strlit("InputYaw");
    reveal_strlit("error_phi");
    reveal_strlit("error_theta");
    reveal_strlit("ErrorYaw");
    reveal_strlit("Altura");
    reveal_strlit("tau_x");
    reveal_strlit("tau_y");
    reveal_strlit("tau_z");
    reveal_strlit("Kc");
    reveal_strlit("Ki");
    assert("flight_id"@[0] == 'f' && "schema_version"@[0] == 's' && "mode"@[0] == 'm' && "AngleRoll"@[0] == 'A' && "AnglePitch"@[0] == 'A' && "Yaw"@[0] == 'Y' && "RateRoll"@[0] == 'R' && "RatePitch"@[0] == 'R' && "RateYaw"@[0] == 'R' && "GyroXdps"@[0] == 'G' && "GyroYdps"@[0] == 'G' && "GyroZdps"@[0] == 'G' && "MotorInput1"@[0] == 'M' && "MotorInput2"@[0] == 'M' && "MotorInput3"@[0] == 'M' && "MotorInput4"@[0] == 'M' && "InputThrottle"@[0] == 'I' && "InputRoll"@[0] == 'I' && "InputPitch"@[0] == 'I' && "InputYaw"@[0] == 'I' && "error_phi"@[0] == 'e' && "error_theta"@[0] == 'e' && "ErrorYaw"@[0] == 'E' && "Altura"@[0] == 'A' && "tau_x"@[0] == 't' && "tau_y"@[0] == 't' && "tau_z"@[0] == 't' && "Kc"@[0] == 'K' && "Ki"@[0] == 'K');
}

/// A cell that could be read is the member of its column; a column whose cell
/// could not be read is no member.
pub proof fn law_payload_members(
    columns: Seq<(Seq<char>, ColumnKind)>,
    cells: Seq<Option<Json>>,
    i: int,
)
    requires
        columns.len() == cells.len(),
        0 <= i < columns.len(),
        forall|j: int, k: int|
            0 <= j < k < columns.len() ==> (#[trigger] columns[j]).0 != (#[trigger] columns[k]).0,
    ensures
        json::lookup(payload_members(columns, cells), columns[i].0) == (match cells[i] {
            Some(j) => Some(j@),
            None => None,
        }),
    decreases columns.len(),
{
    let shorter = columns.drop_last();
    let fewer = cells.drop_last();
    let rest = payload_members(shorter, fewer);
    assert forall|j: int, k: int| 0 <= j < k < shorter.len() implies (#[trigger] shorter[j]).0 != (
    #[trigger] shorter[k]).0 by {
        assert(columns[j].0 != columns[k].0);
    }
    let last = columns.len() - 1;
    if i < last {
        law_payload_members(shorter, fewer, i);
        assert(columns[i].0 != columns[last].0);
        match cells.last() {
            Some(j) => json::law_put_then_lookup(rest, columns.last().0, j@, columns[i].0),
            None => {},
        }
    } else {
        match cells.last() {
            Some(j) => json::law_put_then_lookup(rest, columns.last().0, j@, columns[i].0),
            None => {
                lemma_absent_member(shorter, fewer, columns[i].0);
            },
        }
    }
}

proof fn lemma_absent_member(
    columns: Seq<(Seq<char>, ColumnKind)>,
    cells: Seq<Option<Json>>,
    name: Seq<char>,
)
    requires
        columns.len() == cells.len(),
        forall|j: int| 0 <= j < columns.len() ==> (#[trigger] columns[j]).0 != name,
    ensures
        json::lookup(payload_members(columns, cells), name) is None,
    decreases columns.len(),
{
    if columns.len() > 0 {
        let shorter = columns.drop_last();
        assert forall|j: int| 0 <= j < shorter.len() implies (#[trigger] shorter[j]).0 != name by {
            assert(shorter[j] == columns[j]);
        }
        lemma_absent_member(shorter, cells.drop_last(), name);
        let rest = payload_members(shorter, cells.drop_last());
        assert(columns[columns.len() - 1].0 != name);
        match cells.last() {
            Some(j) => json::law_put_then_lookup(rest, columns.last().0, j@, name),
            None => {},
        }
    }
}

/// What is selected of a flight is its time, then the common columns, then the
/// three rates.
pub proof fn law_select_items(time_col: Seq<char>, present: Seq<Seq<char>>)
    ensures
        select_items(time_col, present)[0] == seq!['"'] + time_col + seq!['"'],
        select_items(time_col, present).drop_first() == present_items(common_columns(), present)
            + rate_items("GyroXdps"@, "GyroX"@, present) + rate_items(
            "GyroYdps"@,
            "GyroY"@,
            present,
        ) + rate_items("GyroZdps"@, "GyroZ"@, present),
{
    reveal_strlit("\"");
    assert("\""@ == seq!['"']);
}

/// The query for the points of a flight asks for that flight, from the start of
/// the span on where it has one and up to its end where it has one, in the order
/// of time, and no more than the limit; each place of the statement is bound to
/// what it asks for.
pub proof fn law_points_statement(
    table: Seq<char>,
    time_col: Seq<char>,
    present: Seq<Seq<char>>,
    flight_id: Seq<char>,
    from: bool,
    to: bool,
    limit: i64,
)
    ensures
        ({
            let s = points_statement(table, time_col, present, flight_id, from, to, limit);
            let head = "SELECT "@ + text::join(select_items(time_col, present), ", "@) + " FROM \""@
                + table + "\" WHERE flight_id = $1"@;
            let lower = " AND \""@ + time_col + "\" >= $"@ + seq!['2'];
            let upper = " AND \""@ + time_col + "\" <= $"@ + (if from {
                seq!['3']
            } else {
                seq!['2']
            });
            let tail = " ORDER BY \""@ + time_col + "\" LIMIT $"@;
            let flight = ParamView::Text(flight_id);
            let most = ParamView::Number(limit);
            if from && to {
                s.sql == head + lower + upper + tail + seq!['4'] && s.params == seq![
                    flight,
                    ParamView::From,
                    ParamView::To,
                    most,
                ]
            } else if from {
                s.sql == head + lower + tail + seq!['3'] && s.params == seq![
                    flight,
                    ParamView::From,
                    most,
                ]
            } else if to {
                s.sql == head + upper + tail + seq!['3'] && s.params == seq![
                    flight,
                    ParamView::To,
                    most,
                ]
            } else {
                s.sql == head + tail + seq!['2'] && s.params == seq![flight, most]
            }
        }),
{
    assert(text::nat_text(2) == seq!['2'] && text::nat_text(3) == seq!['3'] && text::nat_text(4)
        == seq!['4']);
    let s = points_statement(table, time_col, present, flight_id, from, to, limit);
    let head = "SELECT "@ + text::join(select_items(time_col, present), ", "@) + " FROM \""@ + table
        + "\" WHERE flight_id = $1"@;
    let lower = " AND \""@ + time_col + "\" >= $"@ + seq!['2'];
    let upper = " AND \""@ + time_col + "\" <= $"@ + (if from {
        seq!['3']
    } else {
        seq!['2']
    });
    let tail = " ORDER BY \""@ + time_col + "\" LIMIT $"@;
    if from && to {
        assert(s.sql =~= head + lower + upper + tail + seq!['4']);
    } else if from {
        assert(s.sql =~= head + lower + tail + seq!['3']);
    } else if to {
        assert(s.sql =~= head + upper + tail + seq!['3']);
    } else {
        assert(s.sql =~= head + tail + seq!['2']);
    }
}

/// The flights are listed with the time of their last point, the latest first,
/// and no more than the limit.
pub proof fn law_flights_statement(table: Seq<char>, time_col: Seq<char>, limit: i64)
    ensures
        ({
            let s = flights_statement(table, time_col, limit);
            &&& text::has_part(s.sql, "max(\""@ + time_col + "\") AS last_ts"@)
            &&& text::has_part(s.sql, "FROM \""@ + table + "\""@)
            &&& text::has_part(s.sql, "ORDER BY last_ts DESC"@)
            &&& text::has_part(s.sql, "LIMIT $1"@)
            &&& s.params == seq![ParamView::Number(limit)]
        }),
{
    let s = flights_statement(table, time_col, limit);
    let h = FLIGHTS_HEAD@;
    let t = FLIGHTS_TABLE@;
    let r = FLIGHTS_REST@;
    reveal_strlit("\n            SELECT flight_id, max(\"");
    reveal_strlit("\") AS last_ts\n            FROM \"");
    reveal_strlit(
        "\"\n            GROUP BY flight_id\n            ORDER BY last_ts DESC\n            LIMIT $1\n        ",
    );
    reveal_strlit("max(\"");
    reveal_strlit("\") AS last_ts");
    reveal_strlit("FROM \"");
    reveal_strlit("\"");
    reveal_strlit("ORDER BY last_ts DESC");
    reveal_strlit("LIMIT $1");
    assert(h == h.take(h.len() - 5) + "max(\""@);
    assert(t == "\") AS last_ts"@ + t.skip(13));
    let one = "max(\""@ + time_col + "\") AS last_ts"@;
    assert(s.sql == h.take(h.len() - 5) + one + (t.skip(13) + table + r));
    text::law_parts(h.take(h.len() - 5), one, t.skip(13) + table + r);
    assert(t == t.take(t.len() - 6) + "FROM \""@);
    assert(r == "\""@ + r.skip(1));
    let two = "FROM \""@ + table + "\""@;
    assert(s.sql == (h + time_col + t.take(t.len() - 6)) + two + r.skip(1));
    text::law_parts(h + time_col + t.take(t.len() - 6), two, r.skip(1));
    let three = "ORDER BY last_ts DESC"@;
    let at = 45int;
    assert(r.subrange(at, at + three.len()) == three);
    assert(r == r.take(at) + three + r.skip(at + three.len()));
    let before = h + time_col + t + table;
    assert(s.sql == (before + r.take(at)) + three + r.skip(at + three.len()));
    text::law_parts(before + r.take(at), three, r.skip(at + three.len()));
    let four = "LIMIT $1"@;
    let end = 79int;
    assert(r.subrange(end, end + four.len()) == four);
    assert(r == r.take(end) + four + r.skip(end + four.len()));
    assert(s.sql == (before + r.take(end)) + four + r.skip(end + four.len()));
    text::law_parts(before + r.take(end), four, r.skip(end + four.len()));
}

/// A part of the columns that are declared is part of what creates the tables.
proof fn lemma_declared(table: Seq<char>, time_col: Seq<char>, part: Seq<char>, at: int)
    requires
        0 <= at,
        at + part.len() <= DDL_COLUMNS@.len(),
        DDL_COLUMNS@.subrange(at, at + part.len()) == part,
    ensures
        text::has_part(ddl(table, time_col), part),
{
    let c = DDL_COLUMNS@;
    let front = DDL_TABLE@ + table + DDL_TIME@ + time_col;
    let back = time_col + DDL_REST@;
    assert(c == c.take(at) + part + c.skip(at + part.len()));
    assert(ddl(table, time_col) == (front + c.take(at)) + part + (c.skip(at + part.len()) + back));
    text::law_parts(front + c.take(at), part, c.skip(at + part.len()) + back);
}

/// The table of telemetry has a column for everything that is stored: the tags as
/// symbols, the inputs of the sticks as integers, and all others as doubles.
pub proof fn law_declared_columns(table: Seq<char>, time_col: Seq<char>)
    ensures
        text::has_part(ddl(table, time_col), " flight_id SYMBOL"@),
        text::has_part(ddl(table, time_col), " schema_version SYMBOL"@),
        text::has_part(ddl(table, time_col), " mode SYMBOL"@),
        text::has_part(ddl(table, time_col), " AngleRoll DOUBLE"@),
        text::has_part(ddl(table, time_col), " AnglePitch DOUBLE"@),
        text::has_part(ddl(table, time_col), " Yaw DOUBLE"@),
        text::has_part(ddl(table, time_col), " RateRoll DOUBLE"@),
        text::has_part(ddl(table, time_col), " RatePitch DOUBLE"@),
        text::has_part(ddl(table, time_col), " RateYaw DOUBLE"@),
        text::has_part(ddl(table, time_col), " GyroXdps DOUBLE"@),
        text::has_part(ddl(table, time_col), " GyroYdps DOUBLE"@),
        text::has_part(ddl(table, time_col), " GyroZdps DOUBLE"@),
        text::has_part(ddl(table, time_col), " MotorInput1 DOUBLE"@),
        text::has_part(ddl(table, time_col), " MotorInput2 DOUBLE"@),
        text::has_part(ddl(table, time_col), " MotorInput3 DOUBLE"@),
        text::has_part(ddl(table, time_col), " MotorInput4 DOUBLE"@),
        text::has_part(ddl(table, time_col), " error_phi DOUBLE"@),
        text::has_part(ddl(table, time_col), " error_theta DOUBLE"@),
        text::has_part(ddl(table, time_col), " ErrorYaw DOUBLE"@),
        text::has_part(ddl(table, time_col), " Altura DOUBLE"@),
        text::has_part(ddl(table, time_col), " tau_x DOUBLE"@),
        text::has_part(ddl(table, time_col), " tau_y DOUBLE"@),
        text::has_part(ddl(table, time_col), " tau_z DOUBLE"@),
        text::has_part(ddl(table, time_col), " Kc DOUBLE"@),
        text::has_part(ddl(table, time_col), " Ki DOUBLE"@),
        text::has_part(ddl(table, time_col), " InputThrottle LONG"@),
        text::has_part(ddl(table, time_col), " InputRoll LONG"@),
        text::has_part(ddl(table, time_col), " InputPitch LONG"@),
        text::has_part(ddl(table, time_col), " InputYaw LONG"@),
{
    reveal_strlit(
        r#"" TIMESTAMP,
        flight_id SYMBOL,
        schema_version SYMBOL,
        mode SYMBOL,
    
        AngleRoll DOUBLE, AnglePitch DOUBLE, Yaw DOUBLE,
        RateRoll DOUBLE, RatePitch DOUBLE, RateYaw DOUBLE,
    
        GyroXdps DOUBLE, GyroYdps DOUBLE, GyroZdps DOUBLE,
    
        -- Controles discretos (enteros)
        InputThrottle LONG, InputRoll LONG, InputPitch LONG, InputYaw LONG,
    
        -- Señales de motor en DOUBLE (pueden venir con decimales)
        MotorInput1 DOUBLE, MotorInput2 DOUBLE, MotorInput3 DOUBLE, MotorInput4 DOUBLE,
    
        error_phi DOUBLE, error_theta DOUBLE, ErrorYaw DOUBLE,
        Altura DOUBLE, tau_x DOUBLE, tau_y DOUBLE, tau_z DOUBLE,
        Kc DOUBLE, Ki DOUBLE
    ) TIMESTAMP(""#,
    );
    reveal_strlit(" flight_id SYMBOL");
    assert(DDL_COLUMNS@.subrange(20, 37) =~= " flight_id SYMBOL"@);
    lemma_declared(table, time_col, " flight_id SYMBOL"@, 20);
    reveal_strlit(" schema_version SYMBOL");
    assert(DDL_COLUMNS@.subrange(46, 68) =~= " schema_version SYMBOL"@);
    lemma_declared(table, time_col, " schema_version SYMBOL"@, 46);
    reveal_strlit(" mode SYMBOL");
    assert(DDL_COLUMNS@.subrange(77, 89) =~= " mode SYMBOL"@);
    lemma_declared(table, time_col, " mode SYMBOL"@, 77);
    reveal_strlit(" AngleRoll DOUBLE");
    assert(DDL_COLUMNS@.subrange(103, 120) =~= " AngleRoll DOUBLE"@);
    lemma_declared(table, time_col, " AngleRoll DOUBLE"@, 103);
    reveal_strlit(" AnglePitch DOUBLE");
    assert(DDL_COLUMNS@.subrange(121, 139) =~= " AnglePitch DOUBLE"@);
    lemma_declared(table, time_col, " AnglePitch DOUBLE"@, 121);
    reveal_strlit(" Yaw DOUBLE");
    assert(DDL_COLUMNS@.subrange(140, 151) =~= " Yaw DOUBLE"@);
    lemma_declared(table, time_col, " Yaw DOUBLE"@, 140);
    reveal_strlit(" RateRoll DOUBLE");
    assert(DDL_COLUMNS@.subrange(160, 176) =~= " RateRoll DOUBLE"@);
    lemma_declared(table, time_col, " RateRoll DOUBLE"@, 160);
    reveal_strlit(" RatePitch DOUBLE");
    assert(DDL_COLUMNS@.subrange(177, 194) =~= " RatePitch DOUBLE"@);
    lemma_declared(table, time_col, " RatePitch DOUBLE"@, 177);
    reveal_strlit(" RateYaw DOUBLE");
    assert(DDL_COLUMNS@.subrange(195, 210) =~= " RateYaw DOUBLE"@);
    lemma_declared(table, time_col, " RateYaw DOUBLE"@, 195);
    reveal_strlit(" GyroXdps DOUBLE");
    assert(DDL_COLUMNS@.subrange(224, 240) =~= " GyroXdps DOUBLE"@);
    lemma_declared(table, time_col, " GyroXdps DOUBLE"@, 224);
    reveal_strlit(" GyroYdps DOUBLE");
    assert(DDL_COLUMNS@.subrange(241, 257) =~= " GyroYdps DOUBLE"@);
    lemma_declared(table, time_col, " GyroYdps DOUBLE"@, 241);
    reveal_strlit(" GyroZdps DOUBLE");
    assert(DDL_COLUMNS@.subrange(258, 274) =~= " GyroZdps DOUBLE"@);
    lemma_declared(table, time_col, " GyroZdps DOUBLE"@, 258);
    reveal_strlit(" MotorInput1 DOUBLE");
    assert(DDL_COLUMNS@.subrange(477, 496) =~= " MotorInput1 DOUBLE"@);
    lemma_declared(table, time_col, " MotorInput1 DOUBLE"@, 477);
    reveal_strlit(" MotorInput2 DOUBLE");
    assert(DDL_COLUMNS@.subrange(497, 516) =~= " MotorInput2 DOUBLE"@);
    lemma_declared(table, time_col, " MotorInput2 DOUBLE"@, 497);
    reveal_strlit(" MotorInput3 DOUBLE");
    assert(DDL_COLUMNS@.subrange(517, 536) =~= " MotorInput3 DOUBLE"@);
    lemma_declared(table, time_col, " MotorInput3 DOUBLE"@, 517);
    reveal_strlit(" MotorInput4 DOUBLE");
    assert(DDL_COLUMNS@.subrange(537, 556) =~= " MotorInput4 DOUBLE"@);
    lemma_declared(table, time_col, " MotorInput4 DOUBLE"@, 537);
    reveal_strlit(" error_phi DOUBLE");
    assert(DDL_COLUMNS@.subrange(570, 587) =~= " error_phi DOUBLE"@);
    lemma_declared(table, time_col, " error_phi DOUBLE"@, 570);
    reveal_strlit(" error_theta DOUBLE");
    assert(DDL_COLUMNS@.subrange(588, 607) =~= " error_theta DOUBLE"@);
    lemma_declared(table, time_col, " error_theta DOUBLE"@, 588);
    reveal_strlit(" ErrorYaw DOUBLE");
    assert(DDL_COLUMNS@.subrange(608, 624) =~= " ErrorYaw DOUBLE"@);
    lemma_declared(table, time_col, " ErrorYaw DOUBLE"@, 608);
    reveal_strlit(" Altura DOUBLE");
    assert(DDL_COLUMNS@.subrange(633, 647) =~= " Altura DOUBLE"@);
    lemma_declared(table, time_col, " Altura DOUBLE"@, 633);
    reveal_strlit(" tau_x DOUBLE");
    assert(DDL_COLUMNS@.subrange(648, 661) =~= " tau_x DOUBLE"@);
    lemma_declared(table, time_col, " tau_x DOUBLE"@, 648);
    reveal_strlit(" tau_y DOUBLE");
    assert(DDL_COLUMNS@.subrange(662, 675) =~= " tau_y DOUBLE"@);
    lemma_declared(table, time_col, " tau_y DOUBLE"@, 662);
    reveal_strlit(" tau_z DOUBLE");
    assert(DDL_COLUMNS@.subrange(676, 689) =~= " tau_z DOUBLE"@);
    lemma_declared(table, time_col, " tau_z DOUBLE"@, 676);
    reveal_strlit(" Kc DOUBLE");
    assert(DDL_COLUMNS@.subrange(698, 708) =~= " Kc DOUBLE"@);
    lemma_declared(table, time_col, " Kc DOUBLE"@, 698);
    reveal_strlit(" Ki DOUBLE");
    assert(DDL_COLUMNS@.subrange(709, 719) =~= " Ki DOUBLE"@);
    lemma_declared(table, time_col, " Ki DOUBLE"@, 709);
    reveal_strlit(" InputThrottle LONG");
    assert(DDL_COLUMNS@.subrange(329, 348) =~= " InputThrottle LONG"@);
    lemma_declared(table, time_col, " InputThrottle LONG"@, 329);
    reveal_strlit(" InputRoll LONG");
    assert(DDL_COLUMNS@.subrange(349, 364) =~= " InputRoll LONG"@);
    lemma_declared(table, time_col, " InputRoll LONG"@, 349);
    reveal_strlit(" InputPitch LONG");
    assert(DDL_COLUMNS@.subrange(365, 381) =~= " InputPitch LONG"@);
    lemma_declared(table, time_col, " InputPitch LONG"@, 365);
    reveal_strlit(" InputYaw LONG");
    assert(DDL_COLUMNS@.subrange(382, 396) =~= " InputYaw LONG"@);
    lemma_declared(table, time_col, " InputYaw LONG"@, 382);
}

/// A configuration that goes to the flight logs is stored there under a flight of
/// its own, with the configuration as its payload.
pub proof fn law_legacy_statement(config: Seq<char>)
    ensures
        text::has_part(
            legacy_statement(config).sql,
            "INSERT INTO flight_logs (ts, flight_id, payload)"@,
        ),
        text::has_part(legacy_statement(config).sql, "VALUES (now(), $1, $2)"@),
        legacy_statement(config).params == seq![
            ParamView::Text("__config__"@),
            ParamView::Text(config),
        ],
{
    let l = LEGACY_INSERT@;
    reveal_strlit(
        r#"
            INSERT INTO flight_logs (ts, flight_id, payload)
            VALUES (now(), $1, $2)
        "#,
    );
    reveal_strlit("INSERT INTO flight_logs (ts, flight_id, payload)");
    assert(l.subrange(13, 61) =~= "INSERT INTO flight_logs (ts, flight_id, payload)"@);
    assert(l == l.take(13) + "INSERT INTO flight_logs (ts, flight_id, payload)"@ + l.skip(61));
    text::law_parts(l.take(13), "INSERT INTO flight_logs (ts, flight_id, payload)"@, l.skip(61));
    reveal_strlit("VALUES (now(), $1, $2)");
    assert(l.subrange(74, 96) =~= "VALUES (now(), $1, $2)"@);
    assert(l == l.take(74) + "VALUES (now(), $1, $2)"@ + l.skip(96));
    text::law_parts(l.take(74), "VALUES (now(), $1, $2)"@, l.skip(96));
}

}
