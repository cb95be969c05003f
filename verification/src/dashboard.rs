//! What the dashboard answers.
//!
//! Files are read and replies are sent elsewhere; here is what the replies hold.

use crate::helpers;
use crate::helpers::Spread;
use crate::json;
use crate::response;
use crate::storage;
use crate::text;
use hotaru::http::HttpResponse;
use serde_json::Value;
use vstd::prelude::*;

verus! {

/// The status of a reply.
#[derive(Clone, Copy, Debug, PartialEq, Eq, Structural)]
pub enum Status {
    Fine,
    BadRequest,
    NotFound,
    InternalServerError,
}

/// A reply: a status and a body in JSON.
#[derive(Debug)]
pub struct Reply {
    pub status: Status,
    pub body: Vec<u8>,
}

/// What a reply says.
pub ghost struct ReplyView {
    pub status: Status,
    pub body: Seq<u8>,
}

impl View for Reply {
    type V = ReplyView;

    open spec fn view(&self) -> ReplyView {
        ReplyView { status: self.status, body: self.body@ }
    }
}

/// The code of a status.
pub open spec fn status_code(status: Status) -> u16 {
    match status {
        Status::Fine => 200,
        Status::BadRequest => 400,
        Status::NotFound => 404,
        Status::InternalServerError => 500,
    }
}

/// The reply as it is sent.
pub fn http_response(reply: Reply) -> (sent: HttpResponse)
    ensures
        response::response_view(sent) == (response::ResponseView {
            code: status_code(reply.status),
            media: "application/json"@,
            body: reply.body@,
        }),
{
    let code: u16 = match reply.status {
        Status::Fine => 200,
        Status::BadRequest => 400,
        Status::NotFound => 404,
        Status::InternalServerError => 500,
    };
    response::as_json(response::plain_response(code, reply.body))
}

/// The page that leads to all the others.
pub const INDEX_PAGE: &'static str = "<!doctype html>
<html>
  <head><meta charset=\"utf-8\"><title>Project Azure</title></head>
  <body>
    <h1>Project Azure Dashboard</h1>
    <ul>
      <li><a href=\"/latest\">/latest</a></li>
      <li><a href=\"/stats\">/stats</a></li>
      <li>/sensor/&lt;id&gt;:
        <a href=\"/sensor/thermo-1\">thermo-1</a>,
        <a href=\"/sensor/thermo-2\">thermo-2</a>,
        <a href=\"/sensor/accel-1\">accel-1</a>,
        <a href=\"/sensor/accel-2\">accel-2</a>,
        <a href=\"/sensor/force-1\">force-1</a>
      </li>
    </ul>
  </body>
</html>";

/// The page that leads to all the others, as it is sent.
pub fn index() -> (sent: HttpResponse)
    ensures
        response::response_view(sent) == (response::ResponseView {
            code: 200,
            media: "text/html"@,
            body: vstd::utf8::encode_utf8(INDEX_PAGE@),
        }),
{
    response::page(INDEX_PAGE)
}

/// The bytes of an optional file.
pub open spec fn bytes_of(file: Option<Vec<u8>>) -> Option<Seq<u8>> {
    match file {
        Some(bytes) => Some(bytes@),
        None => None,
    }
}

/// The reply that hands out a file as it is, or says that there is none.
pub open spec fn file_reply(file: Option<Seq<u8>>) -> ReplyView {
    match file {
        Some(bytes) => ReplyView { status: Status::Fine, body: bytes },
        None => ReplyView {
            status: Status::NotFound,
            body: vstd::utf8::encode_utf8("{\"error\":\"not found\"}"@),
        },
    }
}

/// The reply that hands out a file as it is, or says that there is none.
pub fn json_file_response(file: Option<Vec<u8>>) -> (reply: Reply)
    ensures
        reply@ == file_reply(bytes_of(file)),
{
    match file {
        Some(bytes) => json_bytes_response(Status::Fine, bytes),
        None => json_bytes_response(
            Status::NotFound,
            "{\"error\":\"not found\"}".as_bytes_vec(),
        ),
    }
}

/// The reply with the given status and body.
pub fn json_bytes_response(status: Status, bytes: Vec<u8>) -> (reply: Reply)
    ensures
        reply@ == (ReplyView { status, body: bytes@ }),
{
    Reply { status, body: bytes }
}

/// The reply that hands out a document, or says that it cannot be written.
pub open spec fn document_reply(status: Status, tree: json::JsonTree) -> ReplyView {
    match json::rendered(tree) {
        Some(bytes) => ReplyView { status, body: bytes },
        None => ReplyView {
            status: Status::InternalServerError,
            body: vstd::utf8::encode_utf8("{\"error\":\"serialize\"}"@),
        },
    }
}

/// The reply that hands out a document, or says that it cannot be written.
pub fn json_value_response(status: Status, v: &Value) -> (reply: Reply)
    ensures
        reply@ == document_reply(status, json::json_tree(*v)),
{
    match json::render(v) {
        Some(bytes) => json_bytes_response(status, bytes),
        None => json_bytes_response(
            Status::InternalServerError,
            "{\"error\":\"serialize\"}".as_bytes_vec(),
        ),
    }
}

/// What a file stands for, where there is one and it is JSON.
pub open spec fn document_in(file: Option<Seq<u8>>) -> Option<json::JsonTree> {
    match file {
        Some(bytes) => json::parsed_bytes(bytes),
        None => None,
    }
}

/// The document in a file, where there is one and it is JSON.
pub fn read_json_value(file: Option<Vec<u8>>) -> (v: Option<Value>)
    ensures
        json::json_tree_of(v) == document_in(bytes_of(file)),
        forall|t: Seq<char>|
            bytes_of(file) == Some(#[trigger] vstd::utf8::encode_utf8(t)) ==> json::json_tree_of(v)
                == json::parsed_text(t),
        forall|pair: json::JsonPair|
            bytes_of(file) == Some(#[trigger] pair.bytes()) && pair.is_sound() ==> v is Some
                && pair.reads_as(json::json_tree(v->Some_0)),
{
    match file {
        Some(bytes) => json::parse_bytes(bytes.as_slice()),
        None => None,
    }
}

/// The field of a snapshot, where the snapshot can be read and has it.
pub open spec fn snapshot_field(snapshot: Option<Seq<u8>>, key: Seq<char>) -> Option<
    json::JsonTree,
> {
    match document_in(snapshot) {
        Some(tree) => tree.field(key),
        None => None,
    }
}

/// Whether a file is the snapshot that was published of a frame and its statistics, both of
/// which can be read again.
pub open spec fn is_snapshot_of(
    file: Option<Seq<u8>>,
    line: Seq<char>,
    stats: json::JsonTree,
) -> bool {
    &&& file == Some(storage::snapshot_bytes(line, stats))
    &&& storage::snapshot_pair(line, stats).is_sound()
}

/// The field of a snapshot, where the snapshot can be read and has it.
///
/// A snapshot that the storage worker has published gives back what was persisted: the frame
/// and the statistics, these but for the values of fractions.
pub fn read_runtime_snapshot_field(snapshot: Option<Vec<u8>>, key: &str) -> (v: Option<Value>)
    ensures
        json::json_tree_of(v) == snapshot_field(bytes_of(snapshot), key@),
        forall|line: Seq<char>, stats: json::JsonTree| #[trigger]
            is_snapshot_of(bytes_of(snapshot), line, stats) && key@ == "latest"@
                ==> json::json_tree_of(v) == json::parsed_text(line),
        forall|line: Seq<char>, stats: json::JsonTree| #[trigger]
            is_snapshot_of(bytes_of(snapshot), line, stats) && key@ == "stats"@ ==> v is Some
                && json::alike(
                stats,
                json::json_tree(v->Some_0),
                (json::DEEPEST - 1) as nat,
            ) && (json::whole_within(stats, (json::DEEPEST - 1) as nat) ==> json::json_tree_of(v)
                == Some(stats)),
{
    proof {
        assert forall|stats: json::JsonTree, found: json::JsonTree| #[trigger]
            json::alike(stats, found, (json::DEEPEST - 1) as nat) && json::whole_within(
                stats,
                (json::DEEPEST - 1) as nat,
            ) implies stats == found by {
            json::law_alike_without_fractions(stats, found, (json::DEEPEST - 1) as nat);
        }
    }
    match read_json_value(snapshot) {
        Some(tree) => match json::field(&tree, key) {
            Some(v) => Some(v.clone()),
            None => None,
        },
        None => None,
    }
}

/// Whether a reply hands out a document, but for the values of fractions in it.
pub open spec fn hands_out_alike(reply: ReplyView, tree: json::JsonTree) -> bool {
    exists|sent: json::JsonTree|
        json::alike(tree, sent, (json::DEEPEST - 1) as nat) && reply
            == #[trigger] document_reply(Status::Fine, sent)
}

/// The reply with a field of the snapshot; nothing where there is no such field, and then a
/// file of its own stands in for it.
pub fn snapshot_reply(snapshot: Option<Vec<u8>>, key: &str) -> (reply: Option<Reply>)
    ensures
        match snapshot_field(bytes_of(snapshot), key@) {
            Some(tree) => reply is Some && reply->Some_0@ == document_reply(Status::Fine, tree),
            None => reply is None,
        },
        forall|line: Seq<char>, stats: json::JsonTree| #[trigger]
            is_snapshot_of(bytes_of(snapshot), line, stats) && key@ == "latest"@ ==> reply is Some
                && reply->Some_0@ == document_reply(
                Status::Fine,
                json::parsed_text(line)->Some_0,
            ),
        forall|line: Seq<char>, stats: json::JsonTree| #[trigger]
            is_snapshot_of(bytes_of(snapshot), line, stats) && key@ == "stats"@ ==> reply is Some
                && hands_out_alike(reply->Some_0@, stats) && (json::whole_within(
                stats,
                (json::DEEPEST - 1) as nat,
            ) ==> reply->Some_0@ == document_reply(Status::Fine, stats)),
{
    match read_runtime_snapshot_field(snapshot, key) {
        Some(v) => Some(json_value_response(Status::Fine, &v)),
        None => None,
    }
}

/// The reply with a field of the snapshot, where there is one, or else with the file that stands
/// in for it.
pub fn reply_or_file(from_snapshot: Option<Reply>, file: Option<Vec<u8>>) -> (reply: Reply)
    ensures
        reply@ == (match from_snapshot {
            Some(r) => r@,
            None => file_reply(bytes_of(file)),
        }),
{
    match from_snapshot {
        Some(reply) => reply,
        None => json_file_response(file),
    }
}

/// A document that says what went wrong.
pub open spec fn error_tree(message: Seq<char>) -> json::JsonTree {
    json::JsonTree::Object(
        Map::<Seq<char>, json::JsonTree>::empty().insert(
            "error"@,
            json::JsonTree::Text(message),
        ),
    )
}

/// The reply that says what went wrong.
pub fn error_reply(status: Status, message: &str) -> (reply: Reply)
    ensures
        reply@ == document_reply(status, error_tree(message@)),
{
    let mut fields = json::no_fields();
    assert(json::json_fields(fields) =~= Map::<Seq<char>, json::JsonTree>::empty());
    json::set_field(&mut fields, "error", json::text_value(message.to_owned()));
    json_value_response(status, &json::object(fields))
}

/// The most hours that a query may reach over, beside the first.
pub const MAX_HOUR_SPAN: i64 = 336;

/// The logs that a query for a range of time takes.
#[derive(Clone, Copy, Debug, PartialEq, Eq, Structural)]
pub struct RangePlan {
    /// The first second, since the epoch.
    pub since_s: u64,
    /// The last second, since the epoch.
    pub until_s: u64,
    /// The first hour, since the epoch.
    pub start_hour: i64,
    /// The last hour, since the epoch.
    pub end_hour: i64,
}

/// What is asked of a sensor.
#[derive(Debug)]
pub enum SensorQuery {
    /// Nothing that can be answered; this is the reply.
    Refused(Reply),
    /// All frames that end within a range of time.
    Range(RangePlan),
    /// The latest frame.
    Latest,
}

/// The first second of a range: the epoch, unless told.
pub open spec fn range_start(since: Option<u64>) -> u64 {
    match since {
        Some(s) => s,
        None => 0,
    }
}

/// The last second of a range: the end of time, unless told.
pub open spec fn range_end(until: Option<u64>) -> u64 {
    match until {
        Some(s) => s,
        None => u64::MAX,
    }
}

/// Tells what is asked of a sensor, by its id and the two ends of a range of time.
///
/// Without an id there is nothing to answer, nor for a range that ends before it begins or that
/// reaches over too many hours. Without a range, it is the latest frame.
pub fn sensor_query(sensor_id: &String, since: Option<u64>, until: Option<u64>) -> (q: SensorQuery)
    ensures
        ({
            let first = range_start(since);
            let last = range_end(until);
            if sensor_id@.len() == 0 {
                q is Refused && q->Refused_0@ == document_reply(
                    Status::BadRequest,
                    error_tree("missing sensor id"@),
                )
            } else if since is None && until is None {
                q is Latest
            } else if first > last {
                q is Refused && q->Refused_0@ == document_reply(
                    Status::BadRequest,
                    error_tree("since > until"@),
                )
            } else if last / 3600 - first / 3600 > MAX_HOUR_SPAN {
                q is Refused && q->Refused_0@ == document_reply(
                    Status::BadRequest,
                    error_tree("range too large (max 14 days)"@),
                )
            } else {
                q is Range && q->Range_0 == (RangePlan {
                    since_s: first,
                    until_s: last,
                    start_hour: (first / 3600) as i64,
                    end_hour: (last / 3600) as i64,
                })
            }
        }),
{
    if sensor_id.as_str().is_empty() {
        return SensorQuery::Refused(error_reply(Status::BadRequest, "missing sensor id"));
    }
    if since.is_none() && until.is_none() {
        return SensorQuery::Latest;
    }
    let since_s: u64 = match since {
        Some(s) => s,
        None => 0,
    };
    let until_s: u64 = match until {
        Some(s) => s,
        None => u64::MAX,
    };
    if since_s > until_s {
        return SensorQuery::Refused(error_reply(Status::BadRequest, "since > until"));
    }
    let start_hour: i64 = (since_s / 3600) as i64;
    let end_hour: i64 = (until_s / 3600) as i64;
    if end_hour - start_hour > MAX_HOUR_SPAN {
        return SensorQuery::Refused(
            error_reply(Status::BadRequest, "range too large (max 14 days)"),
        );
    }
    SensorQuery::Range(RangePlan { since_s, until_s, start_hour, end_hour })
}

/// The path of the log of an hour.
pub open spec fn log_path(hour: int) -> Seq<char> {
    "data/frames/"@ + storage::hour_file(hour)
}

/// The paths of the logs of all hours from the first to the last, in order.
pub fn log_paths(start_hour: i64, end_hour: i64) -> (paths: Vec<String>)
    requires
        0 <= start_hour <= end_hour,
        end_hour - start_hour <= MAX_HOUR_SPAN,
    ensures
        paths@.len() == end_hour - start_hour + 1,
        forall|i: int|
            #![trigger paths@[i]]
            0 <= i < paths@.len() ==> paths@[i]@ == log_path(start_hour + i),
{
    let mut paths: Vec<String> = Vec::new();
    let count: i64 = end_hour - start_hour;
    let mut i: i64 = 0;
    while i <= count
        invariant
            0 <= start_hour,
            count == end_hour - start_hour,
            0 <= count <= MAX_HOUR_SPAN,
            0 <= i <= count + 1,
            paths@.len() == i,
            forall|k: int|
                #![trigger paths@[k]]
                0 <= k < paths@.len() ==> paths@[k]@ == log_path(start_hour + k),
        decreases count + 1 - i,
    {
        let name = storage::hour_filename(start_hour + i);
        paths.push("data/frames/".to_owned().concat(name.as_str()));
        i += 1;
    }
    paths
}

/// The second, since the epoch, in which the window of a frame ends; the epoch where the frame
/// does not tell.
pub open spec fn frame_end(frame: json::JsonTree) -> u64 {
    match frame.field("window_end"@) {
        Some(end) => match helpers::unix_secs(end) {
            Some(secs) => secs,
            None => 0,
        },
        None => 0,
    }
}

/// The statistics of a sensor in a frame.
pub open spec fn sensor_stats(frame: json::JsonTree, sensor_id: Seq<char>) -> Option<
    json::JsonTree,
> {
    match frame.field("per_sensor"@) {
        Some(all) => all.field(sensor_id),
        None => None,
    }
}

/// Whether an anomaly is one of the sensor.
pub open spec fn is_anomaly_of(anomaly: json::JsonTree, sensor_id: Seq<char>) -> bool {
    match anomaly.field("sensor_id"@) {
        Some(id) => id.text() == Some(sensor_id),
        None => false,
    }
}

/// The anomalies of a sensor in a frame, in their order.
pub open spec fn sensor_anomalies(frame: json::JsonTree, sensor_id: Seq<char>) -> Seq<
    json::JsonTree,
> {
    match frame.field("anomalies"@) {
        Some(all) => match all.list() {
            Some(list) => list.filter(|a: json::JsonTree| is_anomaly_of(a, sensor_id)),
            None => Seq::empty(),
        },
        None => Seq::empty(),
    }
}

/// What is told of a sensor in a frame, `stddev` being the document of its standard deviation.
pub open spec fn sensor_entry(
    frame: json::JsonTree,
    sensor_id: Seq<char>,
    stddev: json::JsonTree,
) -> json::JsonTree {
    json::JsonTree::Object(
        Map::<Seq<char>, json::JsonTree>::empty().insert(
            "window_id"@,
            json::tree_or_null(frame.field("window_id"@)),
        ).insert("window_start"@, json::tree_or_null(frame.field("window_start"@))).insert(
            "window_end"@,
            json::tree_or_null(frame.field("window_end"@)),
        ).insert("sensor_id"@, json::JsonTree::Text(sensor_id)).insert(
            "stats"@,
            json::tree_or_null(sensor_stats(frame, sensor_id)),
        ).insert("stddev_sample"@, stddev).insert(
            "anomalies"@,
            json::JsonTree::List(sensor_anomalies(frame, sensor_id)),
        ),
    )
}

/// Whether a frame tells of the sensor and ends within the range of time.
pub open spec fn is_selected(
    frame: json::JsonTree,
    sensor_id: Seq<char>,
    since_s: u64,
    until_s: u64,
) -> bool {
    since_s <= frame_end(frame) <= until_s && sensor_stats(frame, sensor_id) is Some
}

/// The frames among the lines of a log that tell of the sensor and end within the range of
/// time; lines that are no JSON are passed over.
pub open spec fn selected_in(
    all: Seq<Seq<char>>,
    sensor_id: Seq<char>,
    since_s: u64,
    until_s: u64,
) -> Seq<json::JsonTree>
    decreases all.len(),
{
    if all.len() == 0 {
        Seq::empty()
    } else {
        let front = selected_in(all.drop_last(), sensor_id, since_s, until_s);
        match json::parsed_text(all.last()) {
            Some(frame) => if is_selected(frame, sensor_id, since_s, until_s) {
                front.push(frame)
            } else {
                front
            },
            None => front,
        }
    }
}

/// The lines of an optional log.
pub open spec fn log_lines(log: Option<String>) -> Seq<Seq<char>> {
    match log {
        Some(content) => text::lines(content@),
        None => Seq::empty(),
    }
}

/// The frames among the lines of several logs, one log after the other.
pub open spec fn selected_from(
    logs: Seq<Option<String>>,
    sensor_id: Seq<char>,
    since_s: u64,
    until_s: u64,
) -> Seq<json::JsonTree>
    decreases logs.len(),
{
    if logs.len() == 0 {
        Seq::empty()
    } else {
        selected_from(logs.drop_last(), sensor_id, since_s, until_s) + selected_in(
            log_lines(logs.last()),
            sensor_id,
            since_s,
            until_s,
        )
    }
}

/// The statistics of a sensor in a frame.
fn find_stats<'a>(frame: &'a Value, sensor_id: &String) -> (stats: Option<&'a Value>)
    ensures
        stats matches Some(v) ==> sensor_stats(json::json_tree(*frame), sensor_id@) == Some(
            json::json_tree(*v),
        ),
        stats is None ==> sensor_stats(json::json_tree(*frame), sensor_id@) is None,
{
    match json::field(frame, "per_sensor") {
        Some(all) => json::field(all, sensor_id.as_str()),
        None => None,
    }
}

/// Whether an anomaly is one of the sensor.
fn check_anomaly(anomaly: &Value, sensor_id: &String) -> (b: bool)
    ensures
        b == is_anomaly_of(json::json_tree(*anomaly), sensor_id@),
{
    match json::field(anomaly, "sensor_id") {
        Some(id) => match json::text(id) {
            Some(s) => s.to_owned() == *sensor_id,
            None => false,
        },
        None => false,
    }
}

/// Copies of the anomalies of a sensor in a frame, in their order.
fn find_anomalies(frame: &Value, sensor_id: &String) -> (found: Vec<Value>)
    ensures
        json::json_trees(found@) == sensor_anomalies(json::json_tree(*frame), sensor_id@),
{
    let mut found: Vec<Value> = Vec::new();
    let list: &Vec<Value> = match json::field(frame, "anomalies") {
        Some(all) => match json::items(all) {
            Some(list) => list,
            None => {
                assert(json::json_trees(found@) =~= Seq::<json::JsonTree>::empty());
                return found;
            },
        },
        None => {
            assert(json::json_trees(found@) =~= Seq::<json::JsonTree>::empty());
            return found;
        },
    };
    let ghost told = json::json_trees(list@);
    let ghost keep = |a: json::JsonTree| is_anomaly_of(a, sensor_id@);
    assert(json::json_trees(found@) =~= told.take(0).filter(keep)) by {
        reveal(Seq::filter);
    }
    let mut i: usize = 0;
    while i < list.len()
        invariant
            i <= list.len(),
            told == json::json_trees(list@),
            keep == (|a: json::JsonTree| is_anomaly_of(a, sensor_id@)),
            json::json_trees(found@) == told.take(i as int).filter(keep),
        decreases list.len() - i,
    {
        let ghost before = json::json_trees(found@);
        proof {
            reveal(Seq::filter);
            assert(told.take(i + 1).drop_last() =~= told.take(i as int));
            assert(told.take(i + 1).last() == json::json_tree(list@[i as int]));
        }
        if check_anomaly(&list[i], sensor_id) {
            found.push(list[i].clone());
            assert(json::json_trees(found@) =~= before.push(json::json_tree(list@[i as int])));
        }
        i += 1;
    }
    assert(told.take(list.len() as int) =~= told);
    found
}

/// What is told of a sensor in a frame, `stddev` being the document of its standard deviation.
pub fn sensor_entry_of(frame: &Value, sensor_id: &String, stddev: Value) -> (entry: Value)
    ensures
        json::json_tree(entry) == sensor_entry(
            json::json_tree(*frame),
            sensor_id@,
            json::json_tree(stddev),
        ),
{
    let stats = match find_stats(frame, sensor_id) {
        Some(v) => v.clone(),
        None => json::null(),
    };
    let mut fields = json::no_fields();
    assert(json::json_fields(fields) =~= Map::<Seq<char>, json::JsonTree>::empty());
    json::set_field(&mut fields, "window_id", json::field_or_null(frame, "window_id"));
    json::set_field(&mut fields, "window_start", json::field_or_null(frame, "window_start"));
    json::set_field(&mut fields, "window_end", json::field_or_null(frame, "window_end"));
    json::set_field(&mut fields, "sensor_id", json::text_value(sensor_id.clone()));
    json::set_field(&mut fields, "stats", stats);
    json::set_field(&mut fields, "stddev_sample", stddev);
    json::set_field(&mut fields, "anomalies", json::list(find_anomalies(frame, sensor_id)));
    json::object(fields)
}

/// A frame that answers a query, and how the standard deviation of the sensor comes about.
pub struct SelectedFrame {
    pub frame: Value,
    pub spread: Option<Spread>,
}

/// What the frames that answer a query hold.
pub open spec fn selected_trees(list: Seq<SelectedFrame>) -> Seq<json::JsonTree> {
    Seq::new(list.len(), |i: int| json::json_tree(list[i].frame))
}

/// Whether each frame comes with the spread of the sensor in it.
pub open spec fn spreads_fit(list: Seq<SelectedFrame>, sensor_id: Seq<char>) -> bool {
    forall|i: int|
        #![trigger list[i]]
        0 <= i < list.len() ==> {
            let stats = sensor_stats(json::json_tree(list[i].frame), sensor_id);
            stats is Some && list[i].spread == helpers::spread_of(stats->Some_0)
        }
}

/// Takes a line of a log for a frame, if it is one that answers the query.
fn select_line(line: &String, sensor_id: &String, since_s: u64, until_s: u64) -> (r: Option<
    SelectedFrame,
>)
    ensures
        match json::parsed_text(line@) {
            Some(tree) => if is_selected(tree, sensor_id@, since_s, until_s) {
                r is Some && json::json_tree(r->Some_0.frame) == tree && r->Some_0.spread
                    == helpers::spread_of(sensor_stats(tree, sensor_id@)->Some_0)
            } else {
                r is None
            },
            None => r is None,
        },
{
    let frame = match json::parse_text(line.as_str()) {
        Some(frame) => frame,
        None => {
            return None;
        },
    };
    let end_secs: u64 = match json::field(&frame, "window_end") {
        Some(end) => match helpers::unix_secs_from_systemtime_value(end) {
            Some(secs) => secs,
            None => 0,
        },
        None => 0,
    };
    if end_secs < since_s || end_secs > until_s {
        return None;
    }
    let spread = match find_stats(&frame, sensor_id) {
        Some(stats) => helpers::stddev_from_stats(stats),
        None => {
            return None;
        },
    };
    Some(SelectedFrame { frame, spread })
}

/// The frames of a log that answer a query, in their order.
fn select_in_log(content: &str, sensor_id: &String, since_s: u64, until_s: u64) -> (found: Vec<
    SelectedFrame,
>)
    ensures
        selected_trees(found@) == selected_in(
            text::lines(content@),
            sensor_id@,
            since_s,
            until_s,
        ),
        spreads_fit(found@, sensor_id@),
{
    let all = text::split_lines(content);
    let ghost told = text::views(all@);
    let mut found: Vec<SelectedFrame> = Vec::new();
    assert(selected_trees(found@) =~= Seq::<json::JsonTree>::empty());
    let mut i: usize = 0;
    while i < all.len()
        invariant
            i <= all.len(),
            told == text::views(all@),
            selected_trees(found@) == selected_in(
                told.take(i as int),
                sensor_id@,
                since_s,
                until_s,
            ),
            spreads_fit(found@, sensor_id@),
        decreases all.len() - i,
    {
        let ghost before = selected_trees(found@);
        proof {
            assert(told.take(i + 1).drop_last() =~= told.take(i as int));
            assert(told.take(i + 1).last() == all@[i as int]@);
        }
        if let Some(one) = select_line(&all[i], sensor_id, since_s, until_s) {
            let ghost tree = json::json_tree(one.frame);
            found.push(one);
            assert(selected_trees(found@) =~= before.push(tree));
        }
        i += 1;
    }
    assert(told.take(all.len() as int) =~= told);
    found
}

/// The frames of several logs that answer a query, one log after the other; a log that could
/// not be read is passed over.
pub fn select_frames(
    logs: &Vec<Option<String>>,
    sensor_id: &String,
    since_s: u64,
    until_s: u64,
) -> (found: Vec<SelectedFrame>)
    ensures
        selected_trees(found@) == selected_from(logs@, sensor_id@, since_s, until_s),
        spreads_fit(found@, sensor_id@),
{
    let mut found: Vec<SelectedFrame> = Vec::new();
    assert(selected_trees(found@) =~= Seq::<json::JsonTree>::empty());
    let mut i: usize = 0;
    while i < logs.len()
        invariant
            i <= logs.len(),
            selected_trees(found@) == selected_from(
                logs@.take(i as int),
                sensor_id@,
                since_s,
                until_s,
            ),
            spreads_fit(found@, sensor_id@),
        decreases logs.len() - i,
    {
        let ghost before = selected_trees(found@);
        assert(logs@.take(i + 1).drop_last() =~= logs@.take(i as int));
        match &logs[i] {
            Some(content) => {
                let mut more = select_in_log(content.as_str(), sensor_id, since_s, until_s);
                let ghost added = selected_trees(more@);
                let ghost old_found = found@;
                let ghost old_more = more@;
                found.append(&mut more);
                assert(selected_trees(found@) =~= before + added);
                assert(spreads_fit(found@, sensor_id@)) by {
                    assert forall|k: int| #![trigger found@[k]] 0 <= k < found@.len() implies {
                        let stats = sensor_stats(json::json_tree(found@[k].frame), sensor_id@);
                        stats is Some && found@[k].spread == helpers::spread_of(stats->Some_0)
                    } by {
                        if k < old_found.len() {
                            assert(found@[k] == old_found[k]);
                        } else {
                            assert(found@[k] == old_more[k - old_found.len()]);
                        }
                    }
                }
            },
            None => {
                assert(before + selected_in(
                    Seq::<Seq<char>>::empty(),
                    sensor_id@,
                    since_s,
                    until_s,
                ) =~= before);
            },
        }
        i += 1;
    }
    assert(logs@.take(logs.len() as int) =~= logs@);
    found
}

/// What is told of a sensor in each of the frames, with the documents of the standard
/// deviations.
pub open spec fn entries_of(
    frames: Seq<json::JsonTree>,
    sensor_id: Seq<char>,
    stddevs: Seq<json::JsonTree>,
) -> Seq<json::JsonTree> {
    Seq::new(frames.len(), |i: int| sensor_entry(frames[i], sensor_id, stddevs[i]))
}

/// The answer to a query for a range of time.
pub open spec fn range_tree(
    sensor_id: Seq<char>,
    since: Option<u64>,
    until: Option<u64>,
    frames: Seq<json::JsonTree>,
) -> json::JsonTree {
    json::JsonTree::Object(
        Map::<Seq<char>, json::JsonTree>::empty().insert(
            "sensor_id"@,
            json::JsonTree::Text(sensor_id),
        ).insert("since"@, json::natural_or_null(since)).insert(
            "until"@,
            json::natural_or_null(until),
        ).insert("frames"@, json::JsonTree::List(frames)),
    )
}

/// The reply to a query for a range of time, `stddevs` being the documents of the standard
/// deviations of the frames.
pub fn range_reply(
    sensor_id: &String,
    since: Option<u64>,
    until: Option<u64>,
    frames: &Vec<SelectedFrame>,
    stddevs: &Vec<Value>,
) -> (reply: Reply)
    requires
        stddevs@.len() == frames@.len(),
    ensures
        reply@ == document_reply(
            Status::Fine,
            range_tree(
                sensor_id@,
                since,
                until,
                entries_of(
                    selected_trees(frames@),
                    sensor_id@,
                    json::json_trees(stddevs@),
                ),
            ),
        ),
{
    let ghost all = entries_of(selected_trees(frames@), sensor_id@, json::json_trees(stddevs@));
    let mut out: Vec<Value> = Vec::new();
    let mut i: usize = 0;
    while i < frames.len()
        invariant
            i <= frames.len(),
            stddevs@.len() == frames@.len(),
            all == entries_of(
                selected_trees(frames@),
                sensor_id@,
                json::json_trees(stddevs@),
            ),
            json::json_trees(out@) =~= all.take(i as int),
        decreases frames.len() - i,
    {
        let ghost before = json::json_trees(out@);
        let entry = sensor_entry_of(&frames[i].frame, sensor_id, stddevs[i].clone());
        let ghost tree = json::json_tree(entry);
        out.push(entry);
        assert(json::json_trees(out@) =~= before.push(tree));
        assert(all.take(i + 1) =~= all.take(i as int).push(tree));
        i += 1;
    }
    assert(all.take(frames.len() as int) =~= all);
    let mut fields = json::no_fields();
    assert(json::json_fields(fields) =~= Map::<Seq<char>, json::JsonTree>::empty());
    json::set_field(&mut fields, "sensor_id", json::text_value(sensor_id.clone()));
    json::set_field(&mut fields, "since", json::natural_or_null_value(since));
    json::set_field(&mut fields, "until", json::natural_or_null_value(until));
    json::set_field(&mut fields, "frames", json::list(out));
    json_value_response(Status::Fine, &json::object(fields))
}

/// The latest frame: that of the snapshot, or else that of the file of its own, which gives back
/// the frame that was persisted.
pub fn latest_frame(from_snapshot: Option<Value>, file: Option<Vec<u8>>) -> (frame: Option<Value>)
    ensures
        json::json_tree_of(frame) == (match json::json_tree_of(from_snapshot) {
            Some(tree) => Some(tree),
            None => document_in(bytes_of(file)),
        }),
        forall|line: Seq<char>|
            from_snapshot is None && bytes_of(file) == Some(
                #[trigger] vstd::utf8::encode_utf8(line),
            ) ==> json::json_tree_of(frame) == json::parsed_text(line),
{
    match from_snapshot {
        Some(frame) => Some(frame),
        None => read_json_value(file),
    }
}

/// How the standard deviation of a sensor in the latest frame comes about, or the reply that
/// there is no such frame, or no such sensor in it.
pub fn latest_spread(latest: Option<&Value>, sensor_id: &String) -> (r: Result<
    Option<Spread>,
    Reply,
>)
    ensures
        match storage::tree_of(latest) {
            None => r is Err && r->Err_0@ == document_reply(
                Status::NotFound,
                error_tree("latest not found"@),
            ),
            Some(tree) => match sensor_stats(tree, sensor_id@) {
                None => r is Err && r->Err_0@ == document_reply(
                    Status::NotFound,
                    error_tree("sensor not found in latest"@),
                ),
                Some(stats) => r == Ok::<Option<Spread>, Reply>(helpers::spread_of(stats)),
            },
        },
{
    match latest {
        None => Err(error_reply(Status::NotFound, "latest not found")),
        Some(frame) => match find_stats(frame, sensor_id) {
            None => Err(error_reply(Status::NotFound, "sensor not found in latest")),
            Some(stats) => Ok(helpers::stddev_from_stats(stats)),
        },
    }
}

/// The reply to a query for the latest frame, `stddev` being the document of the standard
/// deviation.
pub fn latest_reply(latest: &Value, sensor_id: &String, stddev: Value) -> (reply: Reply)
    ensures
        reply@ == document_reply(
            Status::Fine,
            sensor_entry(json::json_tree(*latest), sensor_id@, json::json_tree(stddev)),
        ),
{
    json_value_response(Status::Fine, &sensor_entry_of(latest, sensor_id, stddev))
}

/// Every frame that is handed out answers the query, and every line of a log that is a frame
/// which answers it is handed out.
pub proof fn law_selection_is_exact(
    all: Seq<Seq<char>>,
    sensor_id: Seq<char>,
    since_s: u64,
    until_s: u64,
)
    ensures
        forall|f: json::JsonTree| #[trigger]
            selected_in(all, sensor_id, since_s, until_s).contains(f) ==> is_selected(
                f,
                sensor_id,
                since_s,
                until_s,
            ),
        forall|i: int|
            #![trigger all[i]]
            0 <= i < all.len() ==> match json::parsed_text(all[i]) {
                Some(f) => is_selected(f, sensor_id, since_s, until_s) ==> selected_in(
                    all,
                    sensor_id,
                    since_s,
                    until_s,
                ).contains(f),
                None => true,
            },
        selected_in(all, sensor_id, since_s, until_s).len() <= all.len(),
    decreases all.len(),
{
    let found = selected_in(all, sensor_id, since_s, until_s);
    if all.len() > 0 {
        let front = all.drop_last();
        let before = selected_in(front, sensor_id, since_s, until_s);
        law_selection_is_exact(front, sensor_id, since_s, until_s);
        assert forall|f: json::JsonTree| #[trigger] found.contains(f) implies is_selected(
            f,
            sensor_id,
            since_s,
            until_s,
        ) by {
            let k = found.index_of(f);
            assert(found[k] == f);
            if k < before.len() {
                assert(before[k] == f);
                assert(before.contains(f));
            }
        }
        assert forall|i: int| #![trigger all[i]] 0 <= i < all.len() implies (match json::parsed_text(
            all[i],
        ) {
            Some(f) => is_selected(f, sensor_id, since_s, until_s) ==> found.contains(f),
            None => true,
        }) by {
            match json::parsed_text(all[i]) {
                Some(f) => {
                    if is_selected(f, sensor_id, since_s, until_s) {
                        if i < front.len() {
                            assert(front[i] == all[i]);
                            assert(before.contains(f));
                            let k = before.index_of(f);
                            assert(before[k] == f);
                            assert(found[k] == f);
                        } else {
                            assert(found[before.len() as int] == f);
                        }
                    }
                },
                None => {},
            }
        }
    }
}

/// The lines of several logs, one log after the other.
pub open spec fn all_lines(logs: Seq<Option<String>>) -> Seq<Seq<char>>
    decreases logs.len(),
{
    if logs.len() == 0 {
        Seq::empty()
    } else {
        all_lines(logs.drop_last()) + log_lines(logs.last())
    }
}

/// A query over several logs is one query over all their lines, in the order of the logs.
pub proof fn law_logs_are_read_as_one(
    logs: Seq<Option<String>>,
    sensor_id: Seq<char>,
    since_s: u64,
    until_s: u64,
)
    ensures
        selected_from(logs, sensor_id, since_s, until_s) == selected_in(
            all_lines(logs),
            sensor_id,
            since_s,
            until_s,
        ),
    decreases logs.len(),
{
    if logs.len() > 0 {
        law_logs_are_read_as_one(logs.drop_last(), sensor_id, since_s, until_s);
        law_selection_joins(
            all_lines(logs.drop_last()),
            log_lines(logs.last()),
            sensor_id,
            since_s,
            until_s,
        );
    }
}

/// A query over two rows of lines is the query over the first, followed by that over the second.
pub proof fn law_selection_joins(
    a: Seq<Seq<char>>,
    b: Seq<Seq<char>>,
    sensor_id: Seq<char>,
    since_s: u64,
    until_s: u64,
)
    ensures
        selected_in(a + b, sensor_id, since_s, until_s) == selected_in(
            a,
            sensor_id,
            since_s,
            until_s,
        ) + selected_in(b, sensor_id, since_s, until_s),
    decreases b.len(),
{
    let left = selected_in(a, sensor_id, since_s, until_s);
    if b.len() == 0 {
        assert(a + b =~= a);
        assert(left + selected_in(b, sensor_id, since_s, until_s) =~= left);
    } else {
        law_selection_joins(a, b.drop_last(), sensor_id, since_s, until_s);
        assert((a + b).drop_last() =~= a + b.drop_last());
        assert((a + b).last() == b.last());
        assert(selected_in(a + b, sensor_id, since_s, until_s) =~= left + selected_in(
            b,
            sensor_id,
            since_s,
            until_s,
        ));
    }
}

/// What the storage worker has persisted, the dashboard finds: a frame in the log of an hour,
/// once that log is published, is handed out to every query that it answers.
pub proof fn law_persisted_frame_is_found(
    log: storage::HourLog,
    i: int,
    content: Seq<char>,
    sensor_id: Seq<char>,
    since_s: u64,
    until_s: u64,
)
    requires
        log.hour is Some,
        forall|k: int|
            #![trigger log.lines[k]]
            0 <= k < log.lines.len() ==> text::is_log_line(log.lines[k]),
        vstd::utf8::encode_utf8(content) == log.file().bytes,
        0 <= i < log.lines.len(),
        json::parsed_text(log.lines[i]) is Some,
        is_selected(json::parsed_text(log.lines[i])->Some_0, sensor_id, since_s, until_s),
    ensures
        selected_in(text::lines(content), sensor_id, since_s, until_s).contains(
            json::parsed_text(log.lines[i])->Some_0,
        ),
{
    let body = text::log_text(log.lines);
    vstd::utf8::encode_utf8_decode_utf8(content);
    vstd::utf8::encode_utf8_decode_utf8(body);
    text::law_log_reads_back(log.lines);
    law_selection_is_exact(log.lines, sensor_id, since_s, until_s);
}

/// Where no snapshot stands in the way, the latest frame is handed out as it was persisted, byte
/// for byte.
pub proof fn law_latest_file_is_handed_out(
    base: Seq<char>,
    book: storage::LogBook,
    line: Seq<char>,
    window_id: u64,
    window_end: crate::types::FrameTime,
    stats: Option<json::JsonTree>,
)
    ensures
        ({
            let list = storage::artifacts(base, book, line, window_id, window_end, stats);
            let file = list[book.files().len() as int];
            &&& file.at == storage::base_place(base, "latest.json"@)
            &&& file_reply(Some(file.bytes)) == (ReplyView {
                status: Status::Fine,
                body: vstd::utf8::encode_utf8(line),
            })
        }),
{
}

/// The log into which the storage worker puts a frame is among those that a query reads whose
/// range of time the frame ends in: it is of one of their hours, and lies where the path of that
/// hour leads.
pub proof fn law_query_reads_the_right_log(
    log: storage::HourLog,
    secs: u64,
    nanos: u32,
    first: u64,
    last: u64,
)
    requires
        first <= secs <= last,
        log.dir == storage::frames_dir("data"@),
    ensures
        ({
            let hour = storage::unix_hour(crate::types::FrameTime::SinceEpoch { secs, nanos });
            &&& first / 3600 <= hour <= last / 3600
            &&& log_path(hour) == log.place(hour).dir + "/"@ + log.place(hour).name
        }),
{
    let hour = storage::unix_hour(crate::types::FrameTime::SinceEpoch { secs, nanos });
    reveal_strlit("data/frames/");
    reveal_strlit("data");
    reveal_strlit("/frames");
    reveal_strlit("/");
    assert("data/frames/"@ =~= log.dir + "/"@);
    assert(log_path(hour) =~= log.place(hour).dir + "/"@ + log.place(hour).name);
}

/// Where the lines lie that a query over one log selects.
proof fn lemma_selected_at(
    all: Seq<Seq<char>>,
    sensor_id: Seq<char>,
    since_s: u64,
    until_s: u64,
) -> (at: Seq<int>)
    ensures
        ({
            let found = selected_in(all, sensor_id, since_s, until_s);
            &&& at.len() == found.len()
            &&& forall|k: int|
                #![trigger at[k]]
                0 <= k < at.len() ==> 0 <= at[k] < all.len() && json::parsed_text(all[at[k]])
                    == Some(found[k]) && is_selected(found[k], sensor_id, since_s, until_s)
            &&& forall|k: int, m: int|
                #![trigger at[k], at[m]]
                0 <= k < m < at.len() ==> at[k] < at[m]
            &&& forall|i: int|
                #![trigger all[i]]
                0 <= i < all.len() && json::parsed_text(all[i]) is Some && is_selected(
                    json::parsed_text(all[i])->Some_0,
                    sensor_id,
                    since_s,
                    until_s,
                ) ==> at.contains(i)
        }),
    decreases all.len(),
{
    if all.len() == 0 {
        Seq::empty()
    } else {
        let front = all.drop_last();
        let before = lemma_selected_at(front, sensor_id, since_s, until_s);
        let last = all.len() - 1;
        let taken = match json::parsed_text(all.last()) {
            Some(frame) => is_selected(frame, sensor_id, since_s, until_s),
            None => false,
        };
        let at = if taken {
            before.push(last)
        } else {
            before
        };
        assert forall|k: int| #![trigger at[k]] 0 <= k < at.len() implies 0 <= at[k] < all.len()
            && json::parsed_text(all[at[k]]) == Some(
            selected_in(all, sensor_id, since_s, until_s)[k],
        ) by {
            if k < before.len() {
                assert(at[k] == before[k]);
                assert(front[before[k]] == all[before[k]]);
            }
        }
        assert forall|i: int|
            #![trigger all[i]]
            0 <= i < all.len() && json::parsed_text(all[i]) is Some && is_selected(
                json::parsed_text(all[i])->Some_0,
                sensor_id,
                since_s,
                until_s,
            ) implies at.contains(i) by {
            if i < last {
                assert(front[i] == all[i]);
                let k = before.index_of(i);
                assert(before[k] == i);
                assert(at[k] == i);
            } else {
                assert(at[at.len() - 1] == i);
            }
        }
        at
    }
}

/// Where the lines lie that a query over several logs selects: which log, and which line of it.
proof fn lemma_selected_from_at(
    logs: Seq<Option<String>>,
    sensor_id: Seq<char>,
    since_s: u64,
    until_s: u64,
) -> (at: Seq<(int, int)>)
    ensures
        ({
            let found = selected_from(logs, sensor_id, since_s, until_s);
            &&& at.len() == found.len()
            &&& forall|k: int|
                #![trigger at[k]]
                0 <= k < at.len() ==> {
                    &&& 0 <= at[k].0 < logs.len()
                    &&& logs[at[k].0] is Some
                    &&& 0 <= at[k].1 < text::lines(logs[at[k].0]->Some_0@).len()
                    &&& json::parsed_text(text::lines(logs[at[k].0]->Some_0@)[at[k].1]) == Some(
                        found[k],
                    )
                    &&& is_selected(found[k], sensor_id, since_s, until_s)
                }
            &&& forall|k: int, m: int|
                #![trigger at[k], at[m]]
                0 <= k < m < at.len() ==> at[k].0 < at[m].0 || (at[k].0 == at[m].0 && at[k].1
                    < at[m].1)
            &&& forall|i: int, j: int|
                #![trigger text::lines(logs[i]->Some_0@)[j]]
                0 <= i < logs.len() && logs[i] is Some && 0 <= j < text::lines(
                    logs[i]->Some_0@,
                ).len() && json::parsed_text(text::lines(logs[i]->Some_0@)[j]) is Some
                    && is_selected(
                    json::parsed_text(text::lines(logs[i]->Some_0@)[j])->Some_0,
                    sensor_id,
                    since_s,
                    until_s,
                ) ==> at.contains((i, j))
        }),
    decreases logs.len(),
{
    if logs.len() == 0 {
        Seq::empty()
    } else {
        let front = logs.drop_last();
        let before = lemma_selected_from_at(front, sensor_id, since_s, until_s);
        let last = logs.len() - 1;
        let more = lemma_selected_at(log_lines(logs.last()), sensor_id, since_s, until_s);
        let at = before + Seq::new(more.len(), |k: int| (last, more[k]));
        let found = selected_from(logs, sensor_id, since_s, until_s);
        assert forall|k: int| #![trigger at[k]] 0 <= k < at.len() implies {
            &&& 0 <= at[k].0 < logs.len()
            &&& logs[at[k].0] is Some
            &&& 0 <= at[k].1 < text::lines(logs[at[k].0]->Some_0@).len()
            &&& json::parsed_text(text::lines(logs[at[k].0]->Some_0@)[at[k].1]) == Some(found[k])
            &&& is_selected(found[k], sensor_id, since_s, until_s)
        } by {
            if k < before.len() {
                assert(at[k] == before[k]);
                assert(front[before[k].0] == logs[before[k].0]);
            } else {
                let m = k - before.len();
                assert(at[k] == (last, more[m]));
                assert(0 <= more[m] < log_lines(logs.last()).len());
            }
        }
        assert forall|k: int, m: int|
            #![trigger at[k], at[m]]
            0 <= k < m < at.len() implies at[k].0 < at[m].0 || (at[k].0 == at[m].0 && at[k].1
            < at[m].1) by {
            if m < before.len() {
                assert(at[k] == before[k] && at[m] == before[m]);
            } else {
                assert(at[m] == (last, more[m - before.len()]));
                if k < before.len() {
                    assert(at[k] == before[k]);
                } else {
                    assert(at[k] == (last, more[k - before.len()]));
                }
            }
        }
        assert forall|i: int, j: int|
            #![trigger text::lines(logs[i]->Some_0@)[j]]
            0 <= i < logs.len() && logs[i] is Some && 0 <= j < text::lines(logs[i]->Some_0@).len()
                && json::parsed_text(text::lines(logs[i]->Some_0@)[j]) is Some && is_selected(
                json::parsed_text(text::lines(logs[i]->Some_0@)[j])->Some_0,
                sensor_id,
                since_s,
                until_s,
            ) implies at.contains((i, j)) by {
            if i < last {
                assert(front[i] == logs[i]);
                assert(text::lines(front[i]->Some_0@)[j] == text::lines(logs[i]->Some_0@)[j]);
                let k = before.index_of((i, j));
                assert(before[k] == (i, j));
                assert(at[k] == (i, j));
            } else {
                assert(log_lines(logs.last())[j] == text::lines(logs[i]->Some_0@)[j]);
                assert(more.contains(j));
                let m = more.index_of(j);
                assert(more[m] == j);
                assert(at[before.len() + m] == (i, j));
            }
        }
        at
    }
}

/// A query over logs selects every line that is a frame which ends within the range of time and
/// tells of the sensor, and no other, in the order of the logs and of their lines; a frame that
/// does not tell when it ends, ends at the epoch. Each comes with the spread of the sensor in it.
///
/// What is given is where each frame was found: in which log, and in which line of it.
pub proof fn law_every_frame_in_range_is_selected(
    logs: &Vec<Option<String>>,
    sensor_id: &String,
    since_s: u64,
    until_s: u64,
    found: Vec<SelectedFrame>,
) -> (at: Seq<(int, int)>)
    requires
        call_ensures(select_frames, (logs, sensor_id, since_s, until_s), found),
    ensures
        at.len() == found@.len(),
        forall|k: int|
            #![trigger at[k]]
            #![trigger found@[k]]
            0 <= k < found@.len() ==> {
                let frame = json::json_tree(found@[k].frame);
                &&& 0 <= at[k].0 < logs@.len()
                &&& logs@[at[k].0] is Some
                &&& 0 <= at[k].1 < text::lines(logs@[at[k].0]->Some_0@).len()
                &&& json::parsed_text(text::lines(logs@[at[k].0]->Some_0@)[at[k].1]) == Some(frame)
                &&& frame.field("per_sensor"@) is Some
                &&& frame.field("per_sensor"@)->Some_0.field(sensor_id@) is Some
                &&& found@[k].spread == helpers::spread_of(
                    frame.field("per_sensor"@)->Some_0.field(sensor_id@)->Some_0,
                )
            },
        forall|k: int, m: int|
            #![trigger at[k], at[m]]
            0 <= k < m < at.len() ==> at[k].0 < at[m].0 || (at[k].0 == at[m].0 && at[k].1
                < at[m].1),
        forall|i: int, j: int|
            #![trigger text::lines(logs@[i]->Some_0@)[j]]
            0 <= i < logs@.len() && logs@[i] is Some && 0 <= j < text::lines(
                logs@[i]->Some_0@,
            ).len() ==> match json::parsed_text(text::lines(logs@[i]->Some_0@)[j]) {
                None => !at.contains((i, j)),
                Some(frame) => {
                    let told = match frame.field("per_sensor"@) {
                        Some(all) => all.field(sensor_id@) is Some,
                        None => false,
                    };
                    let end = match frame.field("window_end"@) {
                        Some(t) => match t.field("secs_since_epoch"@) {
                            Some(n) => match n.natural() {
                                Some(secs) => secs,
                                None => 0u64,
                            },
                            None => 0u64,
                        },
                        None => 0u64,
                    };
                    at.contains((i, j)) <==> told && since_s <= end && end <= until_s
                },
            },
{
    let at = lemma_selected_from_at(logs@, sensor_id@, since_s, until_s);
    let trees = selected_from(logs@, sensor_id@, since_s, until_s);
    assert(selected_trees(found@) == trees);
    assert(selected_trees(found@).len() == found@.len());
    assert forall|k: int| 0 <= k < found@.len() implies json::json_tree(#[trigger] found@[k].frame)
        == trees[k] && is_selected(trees[k], sensor_id@, since_s, until_s) by {
        assert(selected_trees(found@)[k] == json::json_tree(found@[k].frame));
        assert(0 <= at[k].0 < logs@.len());
    }
    assert forall|i: int, j: int|
        #![trigger text::lines(logs@[i]->Some_0@)[j]]
        0 <= i < logs@.len() && logs@[i] is Some && 0 <= j < text::lines(logs@[i]->Some_0@).len()
            && at.contains((i, j)) implies json::parsed_text(
        text::lines(logs@[i]->Some_0@)[j],
    ) is Some && is_selected(
        json::parsed_text(text::lines(logs@[i]->Some_0@)[j])->Some_0,
        sensor_id@,
        since_s,
        until_s,
    ) by {
        let k = at.index_of((i, j));
        assert(at[k] == (i, j));
    }
    at
}

/// Where the anomalies lie that are kept for a sensor.
proof fn lemma_anomalies_at(list: Seq<json::JsonTree>, sensor_id: Seq<char>) -> (at: Seq<int>)
    ensures
        ({
            let kept = list.filter(|a: json::JsonTree| is_anomaly_of(a, sensor_id));
            &&& at.len() == kept.len()
            &&& forall|k: int|
                #![trigger at[k]]
                0 <= k < at.len() ==> 0 <= at[k] < list.len() && kept[k] == list[at[k]]
                    && is_anomaly_of(kept[k], sensor_id)
            &&& forall|k: int, m: int|
                #![trigger at[k], at[m]]
                0 <= k < m < at.len() ==> at[k] < at[m]
            &&& forall|i: int|
                #![trigger list[i]]
                0 <= i < list.len() && is_anomaly_of(list[i], sensor_id) ==> at.contains(i)
        }),
    decreases list.len(),
{
    reveal(Seq::filter);
    if list.len() == 0 {
        Seq::empty()
    } else {
        let front = list.drop_last();
        let before = lemma_anomalies_at(front, sensor_id);
        let last = list.len() - 1;
        let at = if is_anomaly_of(list.last(), sensor_id) {
            before.push(last)
        } else {
            before
        };
        let kept = list.filter(|a: json::JsonTree| is_anomaly_of(a, sensor_id));
        assert forall|k: int| #![trigger at[k]] 0 <= k < at.len() implies 0 <= at[k] < list.len()
            && kept[k] == list[at[k]] && is_anomaly_of(kept[k], sensor_id) by {
            if k < before.len() {
                assert(at[k] == before[k]);
                assert(front[before[k]] == list[before[k]]);
            }
        }
        assert forall|i: int|
            #![trigger list[i]]
            0 <= i < list.len() && is_anomaly_of(list[i], sensor_id) implies at.contains(i) by {
            if i < last {
                assert(front[i] == list[i]);
                let k = before.index_of(i);
                assert(before[k] == i);
                assert(at[k] == i);
            } else {
                assert(at[at.len() - 1] == i);
            }
        }
        at
    }
}

/// The keys of an entry are different from each other.
proof fn lemma_entry_keys()
    ensures
        "window_id"@ != "window_start"@ && "window_id"@ != "window_end"@ && "window_id"@
            != "sensor_id"@ && "window_id"@ != "stats"@ && "window_id"@ != "stddev_sample"@
            && "window_id"@ != "anomalies"@,
        "window_start"@ != "window_end"@ && "window_start"@ != "sensor_id"@ && "window_start"@
            != "stats"@ && "window_start"@ != "stddev_sample"@ && "window_start"@ != "anomalies"@,
        "window_end"@ != "sensor_id"@ && "window_end"@ != "stats"@ && "window_end"@
            != "stddev_sample"@ && "window_end"@ != "anomalies"@,
        "sensor_id"@ != "stats"@ && "sensor_id"@ != "stddev_sample"@ && "sensor_id"@
            != "anomalies"@,
        "stats"@ != "stddev_sample"@ && "stats"@ != "anomalies"@,
        "stddev_sample"@ != "anomalies"@,
{
    reveal_strlit("window_id");
    reveal_strlit("window_start");
    reveal_strlit("window_end");
    reveal_strlit("sensor_id");
    reveal_strlit("stats");
    reveal_strlit("stddev_sample");
    reveal_strlit("anomalies");
    assert("window_id"@[0] == 'w' && "sensor_id"@[0] == 's' && "anomalies"@[0] == 'a');
    assert("window_id"@.len() == 9 && "sensor_id"@.len() == 9 && "anomalies"@.len() == 9);
    assert("window_start"@.len() == 12 && "window_end"@.len() == 10);
    assert("stats"@.len() == 5 && "stddev_sample"@.len() == 13);
}

/// An entry tells of one sensor in one frame: its window and the statistics of the sensor as the
/// frame has them, or nothing in their place; the sensor; its standard deviation; and those
/// anomalies of the frame, in their order, whose sensor is the very one that was asked for, all of
/// them and no other.
///
/// What is given is where each of these anomalies lies in the list of the frame.
pub proof fn law_an_entry_tells_of_its_sensor_alone(
    frame: &Value,
    sensor_id: &String,
    stddev: Value,
    entry: Value,
) -> (at: Seq<int>)
    requires
        call_ensures(sensor_entry_of, (frame, sensor_id, stddev), entry),
    ensures
        ({
            let doc = json::json_tree(*frame);
            let told = json::json_tree(entry);
            &&& told is Object
            &&& told->Object_0.dom() == set![
                "window_id"@,
                "window_start"@,
                "window_end"@,
                "sensor_id"@,
                "stats"@,
                "stddev_sample"@,
                "anomalies"@,
            ]
            &&& match doc.field("window_id"@) {
                Some(v) => told->Object_0["window_id"@] == v,
                None => told->Object_0["window_id"@] is Null,
            }
            &&& match doc.field("window_start"@) {
                Some(v) => told->Object_0["window_start"@] == v,
                None => told->Object_0["window_start"@] is Null,
            }
            &&& match doc.field("window_end"@) {
                Some(v) => told->Object_0["window_end"@] == v,
                None => told->Object_0["window_end"@] is Null,
            }
            &&& told->Object_0["sensor_id"@] == json::JsonTree::Text(sensor_id@)
            &&& told->Object_0["stddev_sample"@] == json::json_tree(stddev)
            &&& match doc.field("per_sensor"@) {
                Some(all) => match all.field(sensor_id@) {
                    Some(stats) => told->Object_0["stats"@] == stats,
                    None => told->Object_0["stats"@] is Null,
                },
                None => told->Object_0["stats"@] is Null,
            }
            &&& told->Object_0["anomalies"@] is List
            &&& match doc.field("anomalies"@) {
                Some(json::JsonTree::List(list)) => {
                    let kept = told->Object_0["anomalies"@]->List_0;
                    &&& at.len() == kept.len()
                    &&& forall|k: int|
                        #![trigger kept[k]]
                        0 <= k < kept.len() ==> 0 <= at[k] < list.len() && kept[k] == list[at[k]]
                            && kept[k].field("sensor_id"@) == Some(
                            json::JsonTree::Text(sensor_id@),
                        )
                    &&& forall|k: int, m: int|
                        #![trigger at[k], at[m]]
                        0 <= k < m < at.len() ==> at[k] < at[m]
                    &&& forall|i: int|
                        #![trigger list[i]]
                        0 <= i < list.len() && list[i].field("sensor_id"@) == Some(
                            json::JsonTree::Text(sensor_id@),
                        ) ==> at.contains(i)
                },
                _ => told->Object_0["anomalies"@]->List_0.len() == 0,
            }
        }),
{
    let doc = json::json_tree(*frame);
    let told = json::json_tree(entry);
    lemma_entry_keys();
    assert(told->Object_0.dom() =~= set![
        "window_id"@,
        "window_start"@,
        "window_end"@,
        "sensor_id"@,
        "stats"@,
        "stddev_sample"@,
        "anomalies"@,
    ]);
    match doc.field("anomalies"@) {
        Some(json::JsonTree::List(list)) => {
            let at = lemma_anomalies_at(list, sensor_id@);
            let kept = told->Object_0["anomalies"@]->List_0;
            assert(kept == list.filter(|a: json::JsonTree| is_anomaly_of(a, sensor_id@)));
            assert forall|k: int| #![trigger kept[k]] 0 <= k < kept.len() implies 0 <= at[k]
                < list.len() && kept[k] == list[at[k]] && kept[k].field("sensor_id"@) == Some(
                json::JsonTree::Text(sensor_id@),
            ) by {
                assert(0 <= at[k] < list.len());
                assert(is_anomaly_of(kept[k], sensor_id@));
            }
            at
        },
        _ => Seq::empty(),
    }
}

/// The answer to a query for a range of time has as many entries as frames were selected, and
/// each tells of its own frame, as an entry alone would. Beside them stands what was asked for.
///
/// What is given is the document that is sent.
pub proof fn law_a_range_is_answered_frame_by_frame(
    sensor_id: &String,
    since: Option<u64>,
    until: Option<u64>,
    frames: &Vec<SelectedFrame>,
    stddevs: &Vec<Value>,
    reply: Reply,
) -> (tree: json::JsonTree)
    requires
        stddevs@.len() == frames@.len(),
        call_ensures(range_reply, (sensor_id, since, until, frames, stddevs), reply),
    ensures
        json::rendered(tree) matches Some(bytes) ==> reply.status is Fine && reply.body@ == bytes,
        json::rendered(tree) is None ==> reply.status is InternalServerError && reply.body@
            == vstd::utf8::encode_utf8("{\"error\":\"serialize\"}"@),
        tree is Object,
        tree->Object_0.dom() == set!["sensor_id"@, "since"@, "until"@, "frames"@],
        tree->Object_0["sensor_id"@] == json::JsonTree::Text(sensor_id@),
        match since {
            Some(n) => tree->Object_0["since"@] == json::natural_tree(n),
            None => tree->Object_0["since"@] is Null,
        },
        match until {
            Some(n) => tree->Object_0["until"@] == json::natural_tree(n),
            None => tree->Object_0["until"@] is Null,
        },
        tree->Object_0["frames"@] is List,
        tree->Object_0["frames"@]->List_0.len() == frames@.len(),
        forall|i: int, entry: Value|
            #![trigger frames@[i], json::json_tree(entry)]
            0 <= i < frames@.len() && call_ensures(
                sensor_entry_of,
                (&frames@[i].frame, sensor_id, stddevs@[i]),
                entry,
            ) ==> tree->Object_0["frames"@]->List_0[i] == json::json_tree(entry),
        forall|i: int|
            #![trigger frames@[i]]
            0 <= i < frames@.len() ==> {
                let told = tree->Object_0["frames"@]->List_0[i];
                let doc = json::json_tree(frames@[i].frame);
                &&& match doc.field("window_id"@) {
                    Some(v) => told.field("window_id"@) == Some(v),
                    None => told.field("window_id"@) == Some(json::JsonTree::Null),
                }
                &&& match doc.field("window_start"@) {
                    Some(v) => told.field("window_start"@) == Some(v),
                    None => told.field("window_start"@) == Some(json::JsonTree::Null),
                }
                &&& match doc.field("window_end"@) {
                    Some(v) => told.field("window_end"@) == Some(v),
                    None => told.field("window_end"@) == Some(json::JsonTree::Null),
                }
                &&& told.field("sensor_id"@) == Some(json::JsonTree::Text(sensor_id@))
                &&& told.field("stddev_sample"@) == Some(json::json_tree(stddevs@[i]))
            },
{
    let list = entries_of(selected_trees(frames@), sensor_id@, json::json_trees(stddevs@));
    let tree = range_tree(sensor_id@, since, until, list);
    reveal_strlit("sensor_id");
    reveal_strlit("since");
    reveal_strlit("until");
    reveal_strlit("frames");
    assert("sensor_id"@.len() == 9 && "since"@.len() == 5 && "until"@.len() == 5
        && "frames"@.len() == 6);
    assert("since"@[0] == 's' && "until"@[0] == 'u');
    assert(tree->Object_0.dom() =~= set!["sensor_id"@, "since"@, "until"@, "frames"@]);
    lemma_entry_keys();
    assert forall|i: int| #![trigger frames@[i]] 0 <= i < frames@.len() implies list[i]
        == sensor_entry(
        json::json_tree(frames@[i].frame),
        sensor_id@,
        json::json_tree(stddevs@[i]),
    ) by {
        assert(selected_trees(frames@)[i] == json::json_tree(frames@[i].frame));
        assert(json::json_trees(stddevs@)[i] == json::json_tree(stddevs@[i]));
    }
    tree
}

/// The answer to a query for the latest frame is what an entry tells of it.
pub proof fn law_the_latest_answer_is_an_entry(
    latest: &Value,
    sensor_id: &String,
    stddev: Value,
    entry: Value,
    reply: Reply,
)
    requires
        call_ensures(latest_reply, (latest, sensor_id, stddev), reply),
        call_ensures(sensor_entry_of, (latest, sensor_id, stddev), entry),
    ensures
        json::rendered(json::json_tree(entry)) matches Some(bytes) ==> reply.status is Fine
            && reply.body@ == bytes,
        json::rendered(json::json_tree(entry)) is None ==> reply.status is InternalServerError
            && reply.body@ == vstd::utf8::encode_utf8("{\"error\":\"serialize\"}"@),
{
}

/// An error is told in a document of one field, under the status that was asked for.
///
/// What is given is that document.
pub proof fn law_errors_are_told(status: Status, message: &str, reply: Reply) -> (tree:
    json::JsonTree)
    requires
        call_ensures(error_reply, (status, message), reply),
    ensures
        tree is Object,
        tree->Object_0.dom() == set!["error"@],
        tree->Object_0["error"@] == json::JsonTree::Text(message@),
        json::rendered(tree) matches Some(bytes) ==> reply.status == status && reply.body@ == bytes,
        json::rendered(tree) is None ==> reply.status is InternalServerError,
{
    let tree = error_tree(message@);
    assert(tree->Object_0.dom() =~= set!["error"@]);
    tree
}

/// A query without a sensor is refused, and so is a range that ends before it begins or reaches
/// over more than fourteen days. Where neither end of a range is given, the latest frame is asked
/// for; else the hours from that of the first second to that of the last are to be read, an end
/// that is not given being the epoch or the end of time.
pub proof fn law_queries_are_told_apart(
    sensor_id: &String,
    since: Option<u64>,
    until: Option<u64>,
    message: &str,
    told: Reply,
    q: SensorQuery,
)
    requires
        call_ensures(sensor_query, (sensor_id, since, until), q),
        call_ensures(error_reply, (Status::BadRequest, message), told),
    ensures
        sensor_id@.len() == 0 ==> q is Refused,
        sensor_id@.len() == 0 && message@ == "missing sensor id"@ ==> q->Refused_0@ == told@,
        q is Latest <==> sensor_id@.len() > 0 && since is None && until is None,
        sensor_id@.len() > 0 && (since is Some || until is Some) ==> {
            let first: int = match since {
                Some(s) => s as int,
                None => 0,
            };
            let last: int = match until {
                Some(s) => s as int,
                None => 0xFFFF_FFFF_FFFF_FFFF,
            };
            &&& q is Range || q is Refused
            &&& q is Range <==> first <= last && last / 3600 - first / 3600 <= 14 * 24
            &&& q matches SensorQuery::Range(plan) ==> {
                &&& plan.since_s == first
                &&& plan.until_s == last
                &&& 3600 * plan.start_hour <= first < 3600 * (plan.start_hour + 1)
                &&& 3600 * plan.end_hour <= last < 3600 * (plan.end_hour + 1)
            }
            &&& first > last && message@ == "since > until"@ ==> q->Refused_0@ == told@
            &&& first <= last && q is Refused && message@ == "range too large (max 14 days)"@
                ==> q->Refused_0@ == told@
        },
{
}

/// The logs of a range are those of all its hours, in order, each under its name.
pub proof fn law_every_hour_of_a_range_is_read(
    start_hour: i64,
    end_hour: i64,
    paths: Vec<String>,
    hour: i64,
    name: String,
)
    requires
        call_ensures(log_paths, (start_hour, end_hour), paths),
        call_ensures(storage::hour_filename, (hour,), name),
        0 <= start_hour <= hour <= end_hour,
    ensures
        paths@.len() == end_hour - start_hour + 1,
        paths@[hour - start_hour]@ == "data/frames/"@ + name@,
{
    assert(paths@[hour - start_hour]@ == log_path(start_hour + (hour - start_hour)));
}

/// The latest frame is that of the snapshot, where there is one, and else what is in the file.
pub proof fn law_the_snapshot_goes_before_the_file(
    from_snapshot: Option<Value>,
    file: Option<Vec<u8>>,
    alone: Option<Value>,
    frame: Option<Value>,
)
    requires
        call_ensures(latest_frame, (from_snapshot, file), frame),
        call_ensures(read_json_value, (file,), alone),
    ensures
        from_snapshot matches Some(v) ==> frame is Some && json::json_tree(frame->Some_0)
            == json::json_tree(v),
        from_snapshot is None ==> (frame is Some <==> alone is Some),
        from_snapshot is None && frame is Some ==> json::json_tree(frame->Some_0)
            == json::json_tree(alone->Some_0),
        file is None ==> alone is None,
        file matches Some(bytes) ==> json::json_tree_of(alone) == json::parsed_bytes(bytes@),
{
}

/// A field of the snapshot is handed out where the snapshot is JSON and has it, and answered with
/// as a document.
pub proof fn law_fields_of_the_snapshot_are_handed_out(
    snapshot: Option<Vec<u8>>,
    key: &str,
    whole: Option<Value>,
    v: Option<Value>,
    reply: Option<Reply>,
)
    requires
        call_ensures(read_json_value, (snapshot,), whole),
        call_ensures(read_runtime_snapshot_field, (snapshot, key), v),
        call_ensures(snapshot_reply, (snapshot, key), reply),
    ensures
        whole is None ==> v is None && reply is None,
        whole matches Some(doc) ==> match json::json_tree(doc).field(key@) {
            None => v is None && reply is None,
            Some(part) => {
                &&& v is Some
                &&& json::json_tree(v->Some_0) == part
                &&& reply is Some
                &&& json::rendered(part) matches Some(bytes) ==> reply->Some_0.status is Fine
                    && reply->Some_0.body@ == bytes
                &&& json::rendered(part) is None ==> reply->Some_0.status is InternalServerError
            },
        },
{
}

/// A reply out of the snapshot goes before the file; a file is handed out byte for byte, and a
/// missing one is answered as not found.
pub proof fn law_files_are_handed_out_as_they_are(
    from_snapshot: Option<Reply>,
    file: Option<Vec<u8>>,
    reply: Reply,
    plain: Reply,
)
    requires
        call_ensures(reply_or_file, (from_snapshot, file), reply),
        call_ensures(json_file_response, (file,), plain),
    ensures
        from_snapshot matches Some(r) ==> reply@ == r@,
        from_snapshot is None ==> reply@ == plain@,
        file matches Some(bytes) ==> plain.status is Fine && plain.body@ == bytes@,
        file is None ==> plain.status is NotFound && plain.body@ == vstd::utf8::encode_utf8(
            "{\"error\":\"not found\"}"@,
        ),
{
}

/// A document is answered with as it is written, and one that cannot be written with an error.
pub proof fn law_documents_become_replies(status: Status, v: &Value, reply: Reply)
    requires
        call_ensures(json_value_response, (status, v), reply),
    ensures
        json::rendered(json::json_tree(*v)) matches Some(bytes) ==> reply.status == status
            && reply.body@ == bytes,
        json::rendered(json::json_tree(*v)) is None ==> reply.status is InternalServerError
            && reply.body@ == vstd::utf8::encode_utf8("{\"error\":\"serialize\"}"@),
{
}

/// Replies are sent as JSON, under the code of their status, with their body as it is.
pub proof fn law_replies_are_sent_as_they_are(reply: Reply, sent: HttpResponse)
    requires
        call_ensures(http_response, (reply,), sent),
    ensures
        ({
            let view = response::response_view(sent);
            &&& view.media == "application/json"@
            &&& view.body == reply.body@
            &&& reply.status is Fine ==> view.code == 200
            &&& reply.status is BadRequest ==> view.code == 400
            &&& reply.status is NotFound ==> view.code == 404
            &&& reply.status is InternalServerError ==> view.code == 500
        }),
{
}

/// The spread of a sensor in the latest frame is that of its statistics there; without a frame,
/// or without the sensor in it, the answer is that there is none.
pub proof fn law_the_latest_spread_is_of_the_sensor(
    latest: Option<&Value>,
    sensor_id: &String,
    message: &str,
    told: Reply,
    r: Result<Option<Spread>, Reply>,
)
    requires
        call_ensures(latest_spread, (latest, sensor_id), r),
        call_ensures(error_reply, (Status::NotFound, message), told),
    ensures
        match latest {
            None => r is Err && (message@ == "latest not found"@ ==> r->Err_0@ == told@),
            Some(frame) => match json::json_tree(*frame).field("per_sensor"@) {
                None => r is Err && (message@ == "sensor not found in latest"@ ==> r->Err_0@
                    == told@),
                Some(all) => match all.field(sensor_id@) {
                    None => r is Err && (message@ == "sensor not found in latest"@ ==> r->Err_0@
                        == told@),
                    Some(stats) => r == Ok::<Option<Spread>, Reply>(helpers::spread_of(stats)),
                },
            },
        },
{
}

/// A reply has the status and the bytes that it was made of.
pub proof fn law_bytes_become_replies(status: Status, bytes: Vec<u8>, reply: Reply)
    requires
        call_ensures(json_bytes_response, (status, bytes), reply),
    ensures
        reply.status == status,
        reply.body@ == bytes@,
{
}

} // verus!
