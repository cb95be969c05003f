use azure_gateway::dashboard::{
    error_reply, http_response, index, json_bytes_response, json_file_response,
    json_value_response, latest_frame, latest_reply, latest_spread, log_paths, range_reply,
    read_json_value, read_runtime_snapshot_field, reply_or_file, select_frames, sensor_entry_of,
    sensor_query, snapshot_reply, RangePlan, Reply, SensorQuery, Status,
};
use azure_gateway::helpers::Spread;
use azure_gateway::storage::{persist_runtime_artifacts, HourlyWriter, ReadOutcome};
use azure_gateway::types::{AggregatedFrame, FrameTime};
use hotaru::http::{HttpBody, HttpContentType, HttpResponse};
use serde_json::Value;
use std::collections::HashMap;

fn body(reply: &Reply) -> String {
    String::from_utf8(reply.body.clone()).unwrap()
}

fn document(text: &str) -> Value {
    serde_json::from_str(text).unwrap()
}

fn id(text: &str) -> String {
    text.to_string()
}

fn frame_line(window_id: u64, end: u64, sensor: &str) -> String {
    format!(
        "{{\"window_id\":{window_id},\"window_start\":{{\"secs_since_epoch\":{},\"nanos_since_epoch\":0}},\"window_end\":{{\"secs_since_epoch\":{end},\"nanos_since_epoch\":0}},\"per_sensor\":{{\"{sensor}\":{{\"count\":3,\"min\":1.5,\"max\":4.5,\"mean\":3.0,\"m2\":8.0}}}},\"anomalies\":[{{\"sensor_id\":\"{sensor}\",\"z\":3.5}},{{\"sensor_id\":\"other\",\"z\":4.5}},{{\"z\":1}},{{\"sensor_id\":7}},{{\"sensor_id\":\"{sensor}\",\"z\":5.5}}]}}",
        end - 1
    )
}

/// The standard deviation that a spread stands for, in JSON.
fn stddev(spread: &Option<Spread>) -> Value {
    match spread {
        None => Value::Null,
        Some(Spread::Zero) => Value::from(0.0),
        Some(Spread::RootOf { m2, divisor }) => {
            Value::from((f64::from_bits(m2.bits) / *divisor as f64).sqrt())
        }
    }
}

/// The status, the type of the content and the body of a response.
fn parts(mut response: HttpResponse) -> (u16, HttpContentType, String) {
    let code = response.meta.start_line.status_code().as_u16();
    let media = response.meta.get_content_type().unwrap();
    match response.body {
        HttpBody::Binary(bytes) => (code, media, String::from_utf8(bytes).unwrap()),
        other => panic!("{other:?}"),
    }
}

#[test]
fn replies_are_sent_as_json_under_their_status() {
    for (status, code) in [
        (Status::Fine, 200u16),
        (Status::BadRequest, 400),
        (Status::NotFound, 404),
        (Status::InternalServerError, 500),
    ] {
        let sent = http_response(json_bytes_response(status, b"{\"a\":1}".to_vec()));
        assert_eq!(
            parts(sent),
            (code, HttpContentType::ApplicationJson(), "{\"a\":1}".to_string())
        );
    }
}

#[test]
fn the_index_is_a_page_with_links() {
    let (code, media, page) = parts(index());
    assert_eq!(code, 200);
    assert_eq!(media, HttpContentType::TextHtml());
    assert!(page.starts_with("<!doctype html>\n<html>\n  <head><meta charset=\"utf-8\">"));
    for target in ["/latest", "/stats", "/sensor/thermo-1", "/sensor/force-1"] {
        assert!(page.contains(&format!("<a href=\"{target}\">")));
    }
    assert!(page.ends_with("</html>"));
}

#[test]
fn a_snapshot_is_read_down_to_the_deepest_level() {
    let nested = |n: usize| format!("{}{}", "[".repeat(n), "]".repeat(n));
    let snapshot = |first: &str| format!("{{\"latest\":{first},\"stats\":{{}}}}").into_bytes();
    let deep = nested(126);
    assert_eq!(
        read_runtime_snapshot_field(Some(snapshot(&deep)), "latest"),
        Some(document(&deep))
    );
    let deeper = nested(127);
    let _ = document(&deeper);
    assert_eq!(read_runtime_snapshot_field(Some(snapshot(&deeper)), "latest"), None);
    let quoted = "\"[[[[ \\\" [[[\"";
    assert_eq!(
        read_runtime_snapshot_field(Some(snapshot(quoted)), "latest"),
        Some(document(quoted))
    );
}

#[test]
fn a_file_is_handed_out_as_it_is() {
    let reply = json_file_response(Some(b"whatever".to_vec()));
    assert_eq!(reply.status, Status::Fine);
    assert_eq!(body(&reply), "whatever");
    let missing = json_file_response(None);
    assert_eq!(missing.status, Status::NotFound);
    assert_eq!(body(&missing), "{\"error\":\"not found\"}");
}

#[test]
fn bytes_and_documents_become_replies() {
    let reply = json_bytes_response(Status::BadRequest, vec![1, 2]);
    assert_eq!(reply.status, Status::BadRequest);
    assert_eq!(reply.body, vec![1, 2]);
    let reply = json_value_response(Status::Fine, &document(" { \"b\" : [1, null], \"a\" : \"x\" } "));
    assert_eq!(reply.status, Status::Fine);
    assert_eq!(body(&reply), "{\"a\":\"x\",\"b\":[1,null]}");
    let reply = error_reply(Status::NotFound, "say \"no\"");
    assert_eq!(reply.status, Status::NotFound);
    assert_eq!(body(&reply), "{\"error\":\"say \\\"no\\\"\"}");
}

#[test]
fn documents_are_read_from_files_that_are_json() {
    assert_eq!(read_json_value(Some(b" [1,2] ".to_vec())), Some(document("[1,2]")));
    assert_eq!(read_json_value(Some(b"[1,2".to_vec())), None);
    assert_eq!(read_json_value(Some(vec![0xFF])), None);
    assert_eq!(read_json_value(None), None);
}

#[test]
fn snapshot_fields_are_handed_out() {
    let snapshot = b"{\"latest\":{\"window_id\":4},\"stats\":[5]}".to_vec();
    assert_eq!(
        read_runtime_snapshot_field(Some(snapshot.clone()), "latest"),
        Some(document("{\"window_id\":4}"))
    );
    assert_eq!(read_runtime_snapshot_field(Some(snapshot.clone()), "other"), None);
    assert_eq!(read_runtime_snapshot_field(Some(b"[1]".to_vec()), "latest"), None);
    assert_eq!(read_runtime_snapshot_field(None, "latest"), None);
    let reply = snapshot_reply(Some(snapshot.clone()), "stats").unwrap();
    assert_eq!(reply.status, Status::Fine);
    assert_eq!(body(&reply), "[5]");
    assert!(snapshot_reply(Some(snapshot), "other").is_none());
    assert!(snapshot_reply(None, "stats").is_none());
}

#[test]
fn a_file_stands_in_for_the_snapshot() {
    let own = json_bytes_response(Status::Fine, b"[1]".to_vec());
    assert_eq!(body(&reply_or_file(Some(own), Some(b"[2]".to_vec()))), "[1]");
    let file = reply_or_file(None, Some(b"[2]".to_vec()));
    assert_eq!(file.status, Status::Fine);
    assert_eq!(body(&file), "[2]");
    let nothing = reply_or_file(None, None);
    assert_eq!(nothing.status, Status::NotFound);
    assert_eq!(body(&nothing), "{\"error\":\"not found\"}");
}

#[test]
fn a_published_snapshot_gives_back_what_was_persisted() {
    let frame = AggregatedFrame {
        window_id: 12,
        window_start: FrameTime::SinceEpoch { secs: 7_199, nanos: 0 },
        window_end: FrameTime::SinceEpoch { secs: 7_200, nanos: 0 },
        per_sensor: HashMap::new(),
        anomalies: Vec::new(),
    };
    let line = frame_line(12, 7_200, "thermo-1");
    let stats = document("{\"sensors\":1,\"deep\":[[-3,\"\\u0007\\\"\"],{\"\":null}],\"ok\":true}");
    let mut hourly = HourlyWriter::new("data/frames".to_string(), 1);
    let files = persist_runtime_artifacts(
        "data",
        &mut hourly,
        &frame,
        Some(&stats),
        ReadOutcome::Missing,
        &Ok(line.clone()),
    )
    .unwrap();
    assert_eq!(files[3].at.name, "snapshot.json");
    let snapshot = files[3].bytes.clone();
    assert_eq!(
        read_runtime_snapshot_field(Some(snapshot.clone()), "latest"),
        Some(document(&line))
    );
    assert_eq!(read_runtime_snapshot_field(Some(snapshot.clone()), "stats"), Some(stats.clone()));
    let reply = snapshot_reply(Some(snapshot), "stats").unwrap();
    assert_eq!(reply.body, serde_json::to_vec(&stats).unwrap());
}

/// Whether two documents are the same but for the values of fractions.
fn alike(a: &Value, b: &Value) -> bool {
    match (a, b) {
        (Value::Number(m), Value::Number(n)) => (m.is_f64() && n.is_f64()) || m == n,
        (Value::Array(x), Value::Array(y)) => {
            x.len() == y.len() && x.iter().zip(y).all(|(p, q)| alike(p, q))
        }
        (Value::Object(x), Value::Object(y)) => {
            x.len() == y.len() && x.iter().zip(y).all(|((k, p), (l, q))| k == l && alike(p, q))
        }
        _ => a == b,
    }
}

#[test]
fn statistics_with_fractions_come_back_alike() {
    let frame = AggregatedFrame {
        window_id: 3,
        window_start: FrameTime::SinceEpoch { secs: 59, nanos: 0 },
        window_end: FrameTime::SinceEpoch { secs: 60, nanos: 0 },
        per_sensor: HashMap::new(),
        anomalies: Vec::new(),
    };
    let line = frame_line(3, 60, "s");
    let fractions: Vec<f64> =
        vec![0.1, -0.0, 1e16, 5e-324, f64::MAX, f64::MIN_POSITIVE, 1.0 / 3.0, 123456789.123456789];
    let mut fields = serde_json::Map::new();
    fields.insert("fractions".to_string(), Value::from(fractions));
    fields.insert("whole".to_string(), Value::from(vec![u64::MAX, 0, 7]));
    fields.insert("below".to_string(), Value::from(i64::MIN));
    fields.insert("name".to_string(), Value::from("s\n"));
    let stats = Value::Object(fields);
    let mut hourly = HourlyWriter::new("data/frames".to_string(), 1);
    let files = persist_runtime_artifacts(
        "data",
        &mut hourly,
        &frame,
        Some(&stats),
        ReadOutcome::Missing,
        &Ok(line.clone()),
    )
    .unwrap();
    let latest = files.iter().find(|file| file.at.name == "latest.json").unwrap();
    let snapshot = files.iter().find(|file| file.at.name == "snapshot.json").unwrap();
    let found = read_runtime_snapshot_field(Some(snapshot.bytes.clone()), "stats").unwrap();
    assert!(alike(&found, &stats), "{found}");
    assert_eq!(found.get("whole"), stats.get("whole"));
    assert_eq!(found.get("below"), stats.get("below"));
    let reply = snapshot_reply(Some(snapshot.bytes.clone()), "stats").unwrap();
    assert!(alike(&document(&body(&reply)), &stats));
    // And the latest frame is what its text says.
    assert_eq!(latest_frame(None, Some(latest.bytes.clone())), Some(document(&line)));
}

#[test]
fn a_persisted_frame_is_found_in_its_log() {
    let frame = AggregatedFrame {
        window_id: 12,
        window_start: FrameTime::SinceEpoch { secs: 7_199, nanos: 0 },
        window_end: FrameTime::SinceEpoch { secs: 7_200, nanos: 0 },
        per_sensor: HashMap::new(),
        anomalies: Vec::new(),
    };
    let line = frame_line(12, 7_200, "thermo-1");
    let mut hourly = HourlyWriter::new("data/frames".to_string(), 1);
    let files = persist_runtime_artifacts(
        "data",
        &mut hourly,
        &frame,
        None,
        ReadOutcome::Missing,
        &Ok(line.clone()),
    )
    .unwrap();
    let path = format!("{}/{}", files[0].at.dir, files[0].at.name);
    let plan = match sensor_query(&id("thermo-1"), Some(7_000), Some(7_200)) {
        SensorQuery::Range(plan) => plan,
        other => panic!("{other:?}"),
    };
    let paths = log_paths(plan.start_hour, plan.end_hour);
    assert!(paths.contains(&path));
    let logs: Vec<Option<String>> = paths
        .iter()
        .map(|p| {
            if *p == path {
                Some(String::from_utf8(files[0].bytes.clone()).unwrap())
            } else {
                None
            }
        })
        .collect();
    let found = select_frames(&logs, &id("thermo-1"), plan.since_s, plan.until_s);
    assert_eq!(found.len(), 1);
    assert_eq!(found[0].frame, document(&line));
}

fn refusal(query: SensorQuery) -> String {
    match query {
        SensorQuery::Refused(reply) => {
            assert_eq!(reply.status, Status::BadRequest);
            body(&reply)
        }
        other => panic!("{other:?}"),
    }
}

#[test]
fn queries_are_told_apart() {
    assert_eq!(
        refusal(sensor_query(&id(""), None, None)),
        "{\"error\":\"missing sensor id\"}"
    );
    assert_eq!(
        refusal(sensor_query(&id(""), Some(5), Some(1))),
        "{\"error\":\"missing sensor id\"}"
    );
    assert!(matches!(sensor_query(&id("x"), None, None), SensorQuery::Latest));
    assert_eq!(
        refusal(sensor_query(&id("x"), Some(5), Some(4))),
        "{\"error\":\"since > until\"}"
    );
    let day = 86_400u64;
    assert_eq!(
        refusal(sensor_query(&id("x"), Some(0), Some(14 * day + 3_600))),
        "{\"error\":\"range too large (max 14 days)\"}"
    );
    assert_eq!(
        refusal(sensor_query(&id("x"), Some(1_700_000_000), None)),
        "{\"error\":\"range too large (max 14 days)\"}"
    );
    match sensor_query(&id("x"), None, Some(14 * day + 3_599)) {
        SensorQuery::Range(plan) => assert_eq!(
            plan,
            RangePlan { since_s: 0, until_s: 14 * day + 3_599, start_hour: 0, end_hour: 336 }
        ),
        other => panic!("{other:?}"),
    }
    match sensor_query(&id("x"), Some(u64::MAX), None) {
        SensorQuery::Range(plan) => {
            assert_eq!(plan.start_hour, 5_124_095_576_030_431);
            assert_eq!(plan.end_hour, 5_124_095_576_030_431);
        }
        other => panic!("{other:?}"),
    }
}

#[test]
fn logs_of_all_hours_are_listed() {
    assert_eq!(log_paths(7, 7), vec!["data/frames/hour-7.jsonl"]);
    assert_eq!(
        log_paths(9, 11),
        vec!["data/frames/hour-9.jsonl", "data/frames/hour-10.jsonl", "data/frames/hour-11.jsonl"]
    );
    assert_eq!(log_paths(0, 336).len(), 337);
}

#[test]
fn frames_are_selected_by_time_and_sensor() {
    let a = frame_line(1, 100, "s");
    let b = frame_line(2, 200, "s");
    let c = frame_line(3, 300, "s");
    let other = frame_line(4, 200, "t");
    let logs = vec![
        Some(format!("{a}\n{b}\nnot json\n\n{other}\n")),
        None,
        Some(format!("{c}\r\n[]\n{{\"per_sensor\":{{\"s\":1}}}}")),
    ];
    let windows = |since: u64, until: u64| -> Vec<Option<u64>> {
        select_frames(&logs, &id("s"), since, until)
            .iter()
            .map(|f| f.frame.get("window_id").and_then(Value::as_u64))
            .collect()
    };
    assert_eq!(windows(1, 1_000), vec![Some(1), Some(2), Some(3)]);
    assert_eq!(windows(100, 200), vec![Some(1), Some(2)]);
    assert_eq!(windows(101, 299), vec![Some(2)]);
    assert_eq!(windows(301, 1_000), Vec::<Option<u64>>::new());
    // A frame that does not tell when it ends counts as one of the epoch.
    assert_eq!(windows(0, 0), vec![None]);
    let joint = vec![Some(format!("{a}\n{b}\n{c}\n"))];
    let split = vec![Some(format!("{a}\n")), Some(format!("{b}\n{c}"))];
    let frames = |logs: &Vec<Option<String>>| -> Vec<Value> {
        select_frames(logs, &id("s"), 0, 1_000).into_iter().map(|f| f.frame).collect()
    };
    assert_eq!(frames(&joint), frames(&split));
}

#[test]
fn an_entry_tells_of_one_sensor() {
    let frame = document(&frame_line(5, 60, "s"));
    let entry = sensor_entry_of(&frame, &id("s"), Value::from(2.0));
    assert_eq!(
        entry,
        document(
            "{\"window_id\":5,\"window_start\":{\"secs_since_epoch\":59,\"nanos_since_epoch\":0},\"window_end\":{\"secs_since_epoch\":60,\"nanos_since_epoch\":0},\"sensor_id\":\"s\",\"stats\":{\"count\":3,\"min\":1.5,\"max\":4.5,\"mean\":3.0,\"m2\":8.0},\"stddev_sample\":2.0,\"anomalies\":[{\"sensor_id\":\"s\",\"z\":3.5},{\"sensor_id\":\"s\",\"z\":5.5}]}"
        )
    );
    let bare = sensor_entry_of(&document("{\"anomalies\":3}"), &id("s"), Value::Null);
    assert_eq!(
        bare,
        document(
            "{\"window_id\":null,\"window_start\":null,\"window_end\":null,\"sensor_id\":\"s\",\"stats\":null,\"stddev_sample\":null,\"anomalies\":[]}"
        )
    );
}

#[test]
fn a_range_is_answered_with_its_frames() {
    let logs = vec![Some(frame_line(1, 100, "s"))];
    let frames = select_frames(&logs, &id("s"), 0, 1_000);
    let stddevs: Vec<Value> = frames.iter().map(|f| stddev(&f.spread)).collect();
    assert_eq!(stddevs, vec![Value::from(2.0)]);
    let reply = range_reply(&id("s"), None, Some(1_000), &frames, &stddevs);
    assert_eq!(reply.status, Status::Fine);
    let answer = document(&body(&reply));
    assert_eq!(answer.get("sensor_id"), Some(&Value::from("s")));
    assert_eq!(answer.get("since"), Some(&Value::Null));
    assert_eq!(answer.get("until"), Some(&Value::from(1_000)));
    let entry = sensor_entry_of(&frames[0].frame, &id("s"), Value::from(2.0));
    assert_eq!(answer.get("frames"), Some(&Value::Array(vec![entry])));

    let empty = range_reply(&id("s"), Some(0), None, &Vec::new(), &Vec::new());
    assert_eq!(body(&empty), "{\"frames\":[],\"sensor_id\":\"s\",\"since\":0,\"until\":null}");
}

#[test]
fn the_latest_frame_comes_from_the_snapshot_first() {
    let first = document("{\"window_id\":1}");
    let file = b"{\"window_id\":2}".to_vec();
    assert_eq!(latest_frame(Some(first.clone()), Some(file.clone())), Some(first));
    assert_eq!(latest_frame(None, Some(file)), Some(document("{\"window_id\":2}")));
    assert_eq!(latest_frame(None, Some(b"{".to_vec())), None);
    assert_eq!(latest_frame(None, None), None);
}

#[test]
fn the_latest_frame_is_answered_for_its_sensors() {
    let none = latest_spread(None, &id("s")).err().unwrap();
    assert_eq!(none.status, Status::NotFound);
    assert_eq!(body(&none), "{\"error\":\"latest not found\"}");

    let latest = document(&frame_line(8, 100, "s"));
    let unknown = latest_spread(Some(&latest), &id("t")).err().unwrap();
    assert_eq!(unknown.status, Status::NotFound);
    assert_eq!(body(&unknown), "{\"error\":\"sensor not found in latest\"}");

    let spread = latest_spread(Some(&latest), &id("s")).unwrap();
    let reply = latest_reply(&latest, &id("s"), stddev(&spread));
    assert_eq!(reply.status, Status::Fine);
    assert_eq!(
        document(&body(&reply)),
        sensor_entry_of(&latest, &id("s"), Value::from(2.0))
    );
}
