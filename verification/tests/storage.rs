use azure_gateway::storage::{
    atomic_write_bytes, frames_dir_in, hour_filename, hour_key_from_system_time, persist_answer,
    persist_runtime_artifacts, persist_with_metrics, sync_snapshot_files, temp_filename, FileStep,
    HourlyWriter, Publication, ReadOutcome, StorageConfig, StorageError, StorageMetrics,
    StorageWorker, StorePath, WorkerEvent, WorkerStep,
};
use azure_gateway::types::{AggregatedFrame, FrameTime};
use serde_json::Value;
use std::collections::HashMap;

fn object(fields: Vec<(&str, Value)>) -> Value {
    let mut map = serde_json::Map::new();
    for (key, value) in fields {
        map.insert(key.to_string(), value);
    }
    Value::Object(map)
}

fn at(secs: u64) -> FrameTime {
    FrameTime::SinceEpoch { secs, nanos: 250 }
}

fn sample_frame(window_id: u64, end_secs: u64) -> AggregatedFrame {
    AggregatedFrame {
        window_id,
        window_start: at(end_secs - 1),
        window_end: at(end_secs),
        per_sensor: HashMap::new(),
        anomalies: Vec::new(),
    }
}

/// A frame in JSON.
fn encode(frame: &AggregatedFrame) -> String {
    let time = |t: FrameTime| match t {
        FrameTime::BeforeEpoch => "null".to_string(),
        FrameTime::SinceEpoch { secs, nanos } => {
            format!("{{\"secs_since_epoch\":{secs},\"nanos_since_epoch\":{nanos}}}")
        }
    };
    format!(
        "{{\"window_id\":{},\"window_start\":{},\"window_end\":{},\"per_sensor\":{{}},\"anomalies\":[]}}",
        frame.window_id,
        time(frame.window_start),
        time(frame.window_end)
    )
}

fn join(path: &StorePath) -> String {
    format!("{}/{}", path.dir, path.name)
}

/// A worker on files that are held in memory.
struct Store {
    worker: StorageWorker,
    files: HashMap<String, Vec<u8>>,
    synced: Vec<String>,
}

impl Store {
    fn start(cfg: StorageConfig) -> Self {
        Store {
            worker: StorageWorker::new(&cfg),
            files: HashMap::new(),
            synced: Vec::new(),
        }
    }

    fn look(&self, path: &StorePath) -> ReadOutcome {
        match self.files.get(&join(path)) {
            Some(bytes) => match String::from_utf8(bytes.clone()) {
                Ok(text) => ReadOutcome::Content(text),
                Err(_) => ReadOutcome::Failed("not a text".to_string()),
            },
            None => ReadOutcome::Missing,
        }
    }

    fn publish(&mut self, file: Publication) {
        assert!(file.at.names_a_file());
        let (write, rename) = atomic_write_bytes(file);
        for step in [write, rename] {
            match step {
                FileStep::Write { at, bytes } => {
                    self.files.insert(join(&at), bytes);
                }
                FileStep::Rename { from, to } => {
                    let bytes = self.files.remove(&join(&from)).unwrap();
                    self.files.insert(join(&to), bytes);
                }
            }
        }
    }

    fn persist_frame(
        &mut self,
        frame: AggregatedFrame,
        stats: Option<Value>,
    ) -> Result<(), StorageError> {
        assert!(matches!(self.worker.next_step(false), WorkerStep::Receive));
        assert!(self.worker.accept(WorkerEvent::Persist));
        let existing = match self.worker.rotation_target(&frame) {
            Some(path) => self.look(&path),
            None => ReadOutcome::Missing,
        };
        let encoded = Ok(encode(&frame));
        let outcome = match self.worker.plan(&frame, stats.as_ref(), existing, &encoded) {
            Ok(files) => {
                for file in files {
                    self.publish(file);
                }
                Ok(())
            }
            Err(reason) => Err(reason),
        };
        let answer = self.worker.settle(frame.window_id, outcome, 17);
        persist_answer(true, Some(answer))
    }

    fn metrics(&self) -> StorageMetrics {
        self.worker.metrics().clone()
    }

    fn shutdown(&mut self) {
        assert!(matches!(self.worker.next_step(true), WorkerStep::TryReceive));
        assert!(!self.worker.accept(WorkerEvent::Shutdown));
        assert!(matches!(self.worker.next_step(true), WorkerStep::TryReceive));
        assert!(!self.worker.accept(WorkerEvent::Closed));
        loop {
            match self.worker.next_step(true) {
                WorkerStep::Flush(files) => {
                    for file in files {
                        self.publish(file);
                    }
                }
                WorkerStep::Sync(list) => {
                    for path in list {
                        self.synced.push(join(&path));
                    }
                }
                WorkerStep::Stop => return,
                other => panic!("{other:?}"),
            }
        }
    }

    /// The lines of a log, as far as it was published.
    fn log(&self, path: &str) -> Vec<String> {
        match self.files.get(path) {
            Some(bytes) => {
                String::from_utf8(bytes.clone()).unwrap().lines().map(|l| l.to_string()).collect()
            }
            None => Vec::new(),
        }
    }

    fn document(&self, path: &str) -> Value {
        serde_json::from_slice(self.files.get(path).expect("exists")).unwrap()
    }
}

#[test]
fn persist_frame_writes_latest_stats_and_snapshot() {
    let dir = "storage-persist";
    let mut storage = Store::start(StorageConfig {
        dir: dir.to_string(),
        ..StorageConfig::default()
    });

    let frame = sample_frame(7, 1_700_000_000);
    let stats = object(vec![
        ("window_id", Value::from(frame.window_id)),
        ("sensors", Value::from(0)),
        ("anomalies", Value::from(0)),
    ]);

    storage
        .persist_frame(frame.clone(), Some(stats.clone()))
        .expect("persist should succeed");
    let metrics = storage.metrics();
    assert_eq!(metrics.persisted_frames, 1);
    assert_eq!(metrics.last_window_id, Some(frame.window_id));
    assert!(metrics.last_persist_us > 0);
    storage.shutdown();

    let latest = storage.document("storage-persist/latest.json");
    let latest_window = latest.get("window_id").and_then(Value::as_u64);
    assert_eq!(latest_window, Some(frame.window_id));

    let written_stats = storage.document("storage-persist/stats.json");
    assert_eq!(written_stats.get("window_id").and_then(Value::as_u64), Some(frame.window_id));

    let snapshot = storage.document("storage-persist/snapshot.json");
    assert_eq!(
        snapshot
            .get("latest")
            .and_then(|v| v.get("window_id"))
            .and_then(Value::as_u64),
        Some(frame.window_id)
    );
    assert_eq!(
        snapshot
            .get("stats")
            .and_then(|v| v.get("window_id"))
            .and_then(Value::as_u64),
        Some(frame.window_id)
    );
}

#[test]
fn hourly_log_is_atomically_rewritten_with_all_frames() {
    let dir = "storage-hourly";
    let mut storage = Store::start(StorageConfig {
        dir: dir.to_string(),
        ..StorageConfig::default()
    });

    let window_end = 1_700_000_000u64;
    storage
        .persist_frame(sample_frame(1, window_end), None)
        .expect("first persist should succeed");
    storage
        .persist_frame(sample_frame(2, window_end + 1), None)
        .expect("second persist should succeed");
    let metrics = storage.metrics();
    assert_eq!(metrics.persisted_frames, 2);
    assert_eq!(
        metrics.current_hour_file,
        Some(hour_filename(hour_key_from_system_time(at(window_end)).0))
    );
    storage.shutdown();

    let unix_hour = hour_key_from_system_time(at(window_end)).0;
    let path = format!("{}/frames/{}", dir, hour_filename(unix_hour));
    let log = String::from_utf8(storage.files.get(&path).unwrap().clone()).unwrap();
    assert_eq!(log.lines().count(), 2);
    assert!(log.contains("\"window_id\":1"));
    assert!(log.contains("\"window_id\":2"));
}

#[test]
fn hours_are_counted_from_the_epoch() {
    assert_eq!(hour_key_from_system_time(FrameTime::BeforeEpoch), (0, 0, 0, 0));
    assert_eq!(hour_key_from_system_time(at(0)), (0, 0, 0, 0));
    assert_eq!(hour_key_from_system_time(at(3599)), (0, 0, 0, 0));
    assert_eq!(hour_key_from_system_time(at(3600)), (1, 0, 0, 0));
    assert_eq!(hour_key_from_system_time(at(1_700_000_000)), (472_222, 0, 0, 0));
    for secs in [i64::MAX as u64, i64::MAX as u64 + 1, u64::MAX, u64::MAX - 3599, u64::MAX - 3600] {
        assert_eq!(hour_key_from_system_time(at(secs)).0 as u64, secs / 3600);
    }
}

#[test]
fn logs_are_named_after_their_hour() {
    assert_eq!(hour_filename(472_222), "hour-472222.jsonl");
    assert_eq!(hour_filename(0), "hour-0.jsonl");
    assert_eq!(hour_filename(-3), "hour--3.jsonl");
}

#[test]
fn temporary_names_are_those_of_the_standard_library() {
    for name in [
        "latest.json", "latest", "stats.json", "hour-1.jsonl", ".hidden", "a.b.c", "x.", ".a.b",
        "\u{e9}t\u{e9}.json", "...", "..a.b", "..a.", "...a", "a..b", "....", "..a..b",
    ] {
        let expected = std::path::Path::new(name).with_extension("tmp");
        assert_eq!(temp_filename(name), expected.to_str().unwrap(), "{name}");
    }
}

#[test]
fn only_plain_names_are_names_of_files() {
    let names = |name: &str| StorePath { dir: "d".to_string(), name: name.to_string() }.names_a_file();
    assert!(names("latest"));
    assert!(names("a..b"));
    assert!(names("x"));
    assert!(names(".x"));
    assert!(!names(""));
    assert!(!names("."));
    assert!(!names(".."));
    assert!(names("..."));
    assert!(names("..a.b"));
    assert!(names("...a"));
    // Its stem is the directory above.
    assert!(!names("..a"));
    assert!(!names("a/b"));
    assert!(!names("/"));
}

#[test]
fn a_file_is_written_aside_and_then_moved() {
    let (write, rename) = atomic_write_bytes(Publication {
        at: StorePath { dir: "base".to_string(), name: "stats.json".to_string() },
        bytes: vec![1, 2, 3],
    });
    match write {
        FileStep::Write { at, bytes } => {
            assert_eq!(join(&at), "base/stats.tmp");
            assert_eq!(bytes, vec![1, 2, 3]);
        }
        other => panic!("{other:?}"),
    }
    match rename {
        FileStep::Rename { from, to } => {
            assert_eq!(join(&from), "base/stats.tmp");
            assert_eq!(join(&to), "base/stats.json");
        }
        other => panic!("{other:?}"),
    }
}

#[test]
fn a_frame_leaves_its_files_in_order() {
    let mut hourly = HourlyWriter::new("base/frames".to_string(), 1);
    let frame = sample_frame(9, 7_200);
    let stats = object(vec![("b", Value::from(2)), ("a", Value::from(1))]);
    let line = encode(&frame);
    let files = persist_runtime_artifacts(
        "base",
        &mut hourly,
        &frame,
        Some(&stats),
        ReadOutcome::Content("old line\n\n  \n".to_string()),
        &Ok(line.clone()),
    )
    .unwrap();
    let found: Vec<(String, String)> = files
        .iter()
        .map(|f| (join(&f.at), String::from_utf8(f.bytes.clone()).unwrap()))
        .collect();
    assert_eq!(
        found,
        vec![
            ("base/frames/hour-2.jsonl".to_string(), format!("old line\n{line}\n")),
            ("base/latest.json".to_string(), line.clone()),
            ("base/stats.json".to_string(), "{\"a\":1,\"b\":2}".to_string()),
            (
                "base/snapshot.json".to_string(),
                format!("{{\"latest\":{line},\"stats\":{{\"a\":1,\"b\":2}}}}")
            ),
            (
                "base/latest".to_string(),
                "{\"hour_file\":\"hour-2.jsonl\",\"window_end_unix\":7200,\"window_id\":9}".to_string()
            ),
        ]
    );
}

#[test]
fn a_frame_from_before_the_epoch_has_no_end_in_the_index() {
    let mut hourly = HourlyWriter::new("frames".to_string(), 1);
    let mut frame = sample_frame(3, 10);
    frame.window_end = FrameTime::BeforeEpoch;
    let files = persist_runtime_artifacts(
        "base",
        &mut hourly,
        &frame,
        None,
        ReadOutcome::Missing,
        &Ok("{}".to_string()),
    )
    .unwrap();
    assert_eq!(files.len(), 3);
    assert_eq!(
        String::from_utf8(files[2].bytes.clone()).unwrap(),
        "{\"hour_file\":\"hour-0.jsonl\",\"window_end_unix\":null,\"window_id\":3}"
    );
}

#[test]
fn a_log_that_cannot_be_read_fails_the_frame() {
    let mut hourly = HourlyWriter::new("frames".to_string(), 1);
    let frame = sample_frame(3, 10);
    let r = persist_runtime_artifacts(
        "base",
        &mut hourly,
        &frame,
        None,
        ReadOutcome::Failed("no access".to_string()),
        &Ok("{}".to_string()),
    );
    assert_eq!(r.err(), Some("no access".to_string()));
    assert_eq!(hourly.current_hour_file(), None);
    assert!(hourly.flush().is_none());
    assert!(hourly.sync_all().is_none());
}

#[test]
fn a_frame_without_json_fails_but_turns_the_log() {
    let mut hourly = HourlyWriter::new("frames".to_string(), 1);
    let r = hourly.append_jsonl(5, ReadOutcome::Missing, &Err("bad number".to_string()));
    assert_eq!(r.err(), Some("bad number".to_string()));
    assert_eq!(hourly.current_hour_file(), Some("hour-5.jsonl".to_string()));
    assert_eq!(hourly.flush().unwrap().bytes, Vec::<u8>::new());
    assert_eq!(join(&hourly.sync_all().unwrap()), "frames/hour-5.jsonl");
}

#[test]
fn a_log_turns_with_the_hour_only() {
    let mut hourly = HourlyWriter::new("frames".to_string(), 1);
    assert_eq!(join(&hourly.rotation_target(5).unwrap()), "frames/hour-5.jsonl");
    let turned = hourly.rotate_if_needed(5, ReadOutcome::Content("a\r\nb".to_string()));
    assert!(matches!(turned, Ok(())));
    assert!(hourly.rotation_target(5).is_none());
    // The log at hand is not read again.
    assert!(hourly.rotate_if_needed(5, ReadOutcome::Failed("gone".to_string())).is_ok());
    assert_eq!(hourly.flush().unwrap().bytes, b"a\nb\n".to_vec());
    assert!(hourly.rotation_target(6).is_some());
    assert!(hourly.rotate_if_needed(6, ReadOutcome::Missing).is_ok());
    assert_eq!(hourly.flush().unwrap().bytes, Vec::<u8>::new());
}

#[test]
fn a_log_survives_a_restart() {
    let every = StorageConfig { flush_every_n_frames: 1, ..StorageConfig::default() };
    let mut storage = Store::start(every.clone());
    for i in 1..=3u64 {
        storage.persist_frame(sample_frame(i, 3_600 + i), None).unwrap();
    }
    let before = storage.files.get("data/frames/hour-1.jsonl").unwrap().clone();
    storage.worker = StorageWorker::new(&every);
    storage.persist_frame(sample_frame(4, 3_604), None).unwrap();
    let after = storage.files.get("data/frames/hour-1.jsonl").unwrap().clone();
    let line = encode(&sample_frame(4, 3_604));
    assert_eq!(after, [before, format!("{line}\n").into_bytes()].concat());
}

#[test]
fn metrics_count_frames_and_note_failures() {
    let mut metrics = StorageMetrics::default();
    let mut hourly = HourlyWriter::new("frames".to_string(), 1);
    assert_eq!(persist_with_metrics(&mut metrics, &hourly, 1, Ok(()), 90), Ok(()));
    assert_eq!(metrics.persisted_frames, 1);
    assert_eq!(metrics.last_persist_us, 90);
    assert_eq!(metrics.max_persist_us, 90);
    assert_eq!(metrics.current_hour_file, None);
    assert!(hourly.rotate_if_needed(8, ReadOutcome::Missing).is_ok());
    let failed = persist_with_metrics(&mut metrics, &hourly, 2, Err("disk full".to_string()), 500);
    assert_eq!(failed, Err(StorageError::WorkerFailed));
    assert_eq!(metrics.last_error, Some("disk full".to_string()));
    assert_eq!(metrics.last_window_id, Some(1));
    assert_eq!(metrics.max_persist_us, 90);
    assert_eq!(persist_with_metrics(&mut metrics, &hourly, 3, Ok(()), 40), Ok(()));
    assert_eq!(metrics.persisted_frames, 2);
    assert_eq!(metrics.last_persist_us, 40);
    assert_eq!(metrics.max_persist_us, 90);
    assert_eq!(metrics.last_window_id, Some(3));
    assert_eq!(metrics.current_hour_file, Some("hour-8.jsonl".to_string()));
    assert_eq!(metrics.last_error, None);
    assert_eq!(persist_with_metrics(&mut metrics, &hourly, 4, Ok(()), u128::MAX), Ok(()));
    assert_eq!(metrics.last_persist_us, u64::MAX);
    assert_eq!(metrics.max_persist_us, u64::MAX);
}

#[test]
fn answers_tell_where_a_request_was_lost() {
    assert_eq!(persist_answer(false, None), Err(StorageError::ChannelClosed));
    assert_eq!(persist_answer(true, None), Err(StorageError::WorkerFailed));
    assert_eq!(persist_answer(true, Some(Ok(()))), Ok(()));
    assert_eq!(
        persist_answer(true, Some(Err(StorageError::WorkerFailed))),
        Err(StorageError::WorkerFailed)
    );
}

#[test]
fn requests_that_wait_at_shutdown_are_served() {
    let mut worker = StorageWorker::new(&StorageConfig::default());
    assert!(matches!(worker.next_step(true), WorkerStep::TryReceive));
    for _ in 0..3 {
        assert!(worker.accept(WorkerEvent::Persist));
        assert!(matches!(worker.next_step(true), WorkerStep::TryReceive));
    }
    assert!(!worker.accept(WorkerEvent::Closed));
    match worker.next_step(true) {
        WorkerStep::Sync(list) => {
            let paths: Vec<String> = list.iter().map(join).collect();
            assert_eq!(
                paths,
                vec!["data/latest.json", "data/latest", "data/stats.json", "data/snapshot.json"]
            );
        }
        other => panic!("{other:?}"),
    }
    assert!(matches!(worker.next_step(false), WorkerStep::Stop));
    assert!(matches!(worker.next_step(false), WorkerStep::Stop));
}

#[test]
fn a_closed_channel_ends_the_serving() {
    let mut worker = StorageWorker::new(&StorageConfig {
        sync_on_shutdown: false,
        ..StorageConfig::default()
    });
    assert!(matches!(worker.next_step(false), WorkerStep::Receive));
    assert!(!worker.accept(WorkerEvent::Closed));
    assert!(matches!(worker.next_step(false), WorkerStep::TryReceive));
    assert!(!worker.accept(WorkerEvent::Closed));
    match worker.next_step(false) {
        WorkerStep::Sync(list) => assert!(list.is_empty()),
        other => panic!("{other:?}"),
    }
    assert!(matches!(worker.next_step(false), WorkerStep::Stop));
}

#[test]
fn the_log_is_synced_first() {
    let mut storage = Store::start(StorageConfig::default());
    storage.persist_frame(sample_frame(1, 3_600), None).unwrap();
    storage.shutdown();
    assert_eq!(storage.synced[0], "data/frames/hour-1.jsonl");
    assert_eq!(storage.synced.len(), 5);
    let base: Vec<String> = sync_snapshot_files("data").iter().map(join).collect();
    assert_eq!(storage.synced[1..].to_vec(), base);
}

#[test]
fn nothing_is_left_under_a_temporary_name() {
    let mut storage = Store::start(StorageConfig::default());
    let stats = object(vec![]);
    storage.persist_frame(sample_frame(1, 3_600), Some(stats)).unwrap();
    storage.shutdown();
    let mut names: Vec<String> = storage.files.keys().cloned().collect();
    names.sort();
    assert_eq!(
        names,
        vec![
            "data/frames/hour-1.jsonl",
            "data/latest",
            "data/latest.json",
            "data/snapshot.json",
            "data/stats.json"
        ]
    );
}

#[test]
fn without_a_number_the_log_waits_for_the_hour_or_the_end() {
    let mut storage = Store::start(StorageConfig {
        flush_every_n_frames: 0,
        ..StorageConfig::default()
    });
    for i in 1..=60u64 {
        storage.persist_frame(sample_frame(i, 3_600 + i), None).unwrap();
        assert!(storage.log("data/frames/hour-1.jsonl").is_empty());
        assert_eq!(
            storage.document("data/latest.json").get("window_id").and_then(Value::as_u64),
            Some(i)
        );
    }
    // The hour turns: the log that is left is published, the new one is not.
    storage.persist_frame(sample_frame(61, 7_200), None).unwrap();
    assert_eq!(storage.log("data/frames/hour-1.jsonl").len(), 60);
    assert!(storage.log("data/frames/hour-2.jsonl").is_empty());
    // And back: the earlier log is taken up from its file.
    storage.persist_frame(sample_frame(62, 3_700), None).unwrap();
    assert_eq!(storage.log("data/frames/hour-1.jsonl").len(), 60);
    assert_eq!(storage.log("data/frames/hour-2.jsonl").len(), 1);
    storage.shutdown();
    assert_eq!(storage.log("data/frames/hour-1.jsonl").len(), 61);
    assert_eq!(
        storage.log("data/frames/hour-1.jsonl")[60],
        encode(&sample_frame(62, 3_700))
    );
}

#[test]
fn the_log_is_published_every_so_many_frames() {
    for every in 1..=4u64 {
        let mut storage = Store::start(StorageConfig {
            flush_every_n_frames: every,
            ..StorageConfig::default()
        });
        for i in 1..=10u64 {
            storage.persist_frame(sample_frame(i, 3_600 + i), None).unwrap();
            let published = storage.log("data/frames/hour-1.jsonl").len() as u64;
            assert_eq!(published, i - i % every);
        }
        storage.shutdown();
        assert_eq!(storage.log("data/frames/hour-1.jsonl").len(), 10);
    }
}

#[test]
fn a_log_without_unsaved_lines_is_not_published_again() {
    let mut hourly = HourlyWriter::new("frames".to_string(), 2);
    let mut count = |hour: i64, existing: ReadOutcome| {
        let files = hourly.append_jsonl(hour, existing, &Ok("x".to_string())).unwrap();
        hourly.settle(true);
        files.len()
    };
    assert_eq!(count(1, ReadOutcome::Missing), 0);
    assert_eq!(count(1, ReadOutcome::Missing), 1);
    assert_eq!(count(2, ReadOutcome::Missing), 0);
    assert_eq!(count(3, ReadOutcome::Missing), 1);
    assert_eq!(count(3, ReadOutcome::Missing), 1);
    assert!(!hourly.has_unsaved());
}

/// The places and texts of files.
fn texts(files: Vec<Publication>) -> Vec<(String, String)> {
    files
        .into_iter()
        .map(|file| (join(&file.at), String::from_utf8(file.bytes).unwrap()))
        .collect()
}

fn owned(list: &[(&str, &str)]) -> Vec<(String, String)> {
    list.iter().map(|(at, text)| (at.to_string(), text.to_string())).collect()
}

#[test]
fn a_log_that_could_not_be_published_is_taken_up_again() {
    let mut hourly = HourlyWriter::new("frames".to_string(), 0);
    let none = hourly.append_jsonl(1, ReadOutcome::Missing, &Ok("a".to_string())).unwrap();
    assert!(none.is_empty());
    hourly.settle(true);
    for line in ["b", "c"] {
        let files = hourly.append_jsonl(2, ReadOutcome::Missing, &Ok(line.to_string())).unwrap();
        assert_eq!(texts(files), owned(&[("frames/hour-1.jsonl", "a\n")]));
        assert_eq!(hourly.current_hour_file(), Some("hour-2.jsonl".to_string()));
        hourly.settle(false);
        // The log of the new hour keeps its lines, and that of the old hour is not read again.
        assert_eq!(hourly.current_hour_file(), Some("hour-2.jsonl".to_string()));
        assert!(hourly.rotation_target(1).is_none());
        assert!(hourly.has_unsaved());
    }
    assert_eq!(hourly.flush().unwrap().bytes, b"b\nc\n".to_vec());
    // Back in the old hour, its log goes on, and the other one is published.
    let files = hourly
        .append_jsonl(1, ReadOutcome::Failed("not asked".to_string()), &Ok("d".to_string()))
        .unwrap();
    assert_eq!(texts(files), owned(&[("frames/hour-2.jsonl", "b\nc\n")]));
    assert_eq!(hourly.flush().unwrap().bytes, b"a\nd\n".to_vec());
    hourly.settle(true);
    assert!(hourly.rotation_target(2).is_some());
    assert_eq!(
        texts(hourly.unsaved_files()),
        owned(&[("frames/hour-1.jsonl", "a\nd\n")])
    );
}

#[test]
fn logs_that_were_left_are_published_in_their_order() {
    let mut hourly = HourlyWriter::new("frames".to_string(), 2);
    for hour in 1..=3i64 {
        let line = Ok(format!("line {hour}"));
        let files = hourly.append_jsonl(hour, ReadOutcome::Missing, &line).unwrap();
        assert_eq!(files.len() as i64, hour - 1);
        hourly.settle(false);
    }
    let files = hourly.append_jsonl(3, ReadOutcome::Missing, &Ok("more".to_string())).unwrap();
    assert_eq!(
        texts(files),
        owned(&[
            ("frames/hour-1.jsonl", "line 1\n"),
            ("frames/hour-2.jsonl", "line 2\n"),
            ("frames/hour-3.jsonl", "line 3\nmore\n"),
        ])
    );
    hourly.settle(true);
    assert!(!hourly.has_unsaved());
    assert!(hourly.unsaved_files().is_empty());
}

#[test]
fn a_frame_that_failed_at_the_turn_of_an_hour_is_published_at_the_end() {
    let mut storage = Store::start(StorageConfig {
        flush_every_n_frames: 0,
        ..StorageConfig::default()
    });
    storage.persist_frame(sample_frame(1, 3_600), None).unwrap();
    let frame = sample_frame(2, 7_200);
    assert!(storage.worker.accept(WorkerEvent::Persist));
    let encoded = Ok(encode(&frame));
    assert!(storage.worker.plan(&frame, None, ReadOutcome::Missing, &encoded).is_ok());
    let answer = storage.worker.settle(2, Err("disk full".to_string()), 5);
    assert!(answer.is_err());
    assert_eq!(storage.metrics().last_error, Some("disk full".to_string()));
    storage.shutdown();
    assert_eq!(storage.log("data/frames/hour-1.jsonl"), vec![encode(&sample_frame(1, 3_600))]);
    assert_eq!(storage.log("data/frames/hour-2.jsonl"), vec![encode(&frame)]);
}

#[test]
fn a_failed_frame_is_published_with_the_next() {
    let mut hourly = HourlyWriter::new("frames".to_string(), 1);
    for (line, text) in [("a", "a\n"), ("b", "a\nb\n")] {
        let files =
            hourly.append_jsonl(1, ReadOutcome::Missing, &Ok(line.to_string())).unwrap();
        assert_eq!(files[0].bytes, text.as_bytes().to_vec());
        hourly.settle(false);
    }
    assert!(hourly.has_unsaved());
}

#[test]
fn the_log_is_published_at_the_end_though_nothing_is_synced() {
    let mut storage = Store::start(StorageConfig {
        flush_every_n_frames: 0,
        sync_on_shutdown: false,
        ..StorageConfig::default()
    });
    storage.persist_frame(sample_frame(1, 3_600), None).unwrap();
    storage.shutdown();
    assert_eq!(storage.log("data/frames/hour-1.jsonl").len(), 1);
    assert!(storage.synced.is_empty());
}

#[test]
fn logs_lie_below_the_base_directory() {
    for base in ["data", "data/", "", "/", "/var/lib/x", "a/b//"] {
        let expected = std::path::Path::new(base).join("frames");
        assert_eq!(frames_dir_in(base), expected.to_str().unwrap(), "{base}");
    }
}

#[test]
fn standard_settings_write_to_data_and_sync() {
    let cfg = StorageConfig::default();
    assert_eq!(cfg.dir, "data");
    assert_eq!(cfg.flush_every_n_frames, 50);
    assert!(cfg.sync_on_shutdown);
}
