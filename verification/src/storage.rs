//! What the storage worker writes, where, and in what order.
//!
//! Nothing here touches a disk. The worker is told what was received or read, and answers with
//! what is to be done next: files to read, files to publish, files to sync.

use crate::json;
use crate::text;
use crate::types::{AggregatedFrame, FrameTime};
use serde_json::Value;
use vstd::prelude::*;

verus! {

/// How the storage worker is set up.
#[derive(Clone, Debug)]
pub struct StorageConfig {
    /// The directory of all that is written.
    pub dir: String,
    /// After how many frames the log of the hour is published (0 for never, but when the hour
    /// turns and on shutdown).
    pub flush_every_n_frames: u64,
    /// Whether everything is synced to the disk on shutdown.
    pub sync_on_shutdown: bool,
}

impl Default for StorageConfig {
    fn default() -> (cfg: Self)
        ensures
            cfg.dir@ == "data"@,
            cfg.flush_every_n_frames == 50,
            cfg.sync_on_shutdown,
    {
        StorageConfig {
            dir: "data".to_owned(),
            flush_every_n_frames: 50,
            sync_on_shutdown: true,
        }
    }
}

/// Why a frame was not persisted.
#[derive(Clone, Copy, Debug, PartialEq, Eq, Structural)]
pub enum StorageError {
    /// The worker takes no more requests.
    ChannelClosed,
    /// The worker tried and failed, or went away.
    WorkerFailed,
}

/// What the storage worker tells about itself.
#[derive(Clone, Debug)]
pub struct StorageMetrics {
    pub persisted_frames: u64,
    pub last_persist_us: u64,
    pub max_persist_us: u64,
    pub last_window_id: Option<u64>,
    pub current_hour_file: Option<String>,
    pub last_error: Option<String>,
}

impl Default for StorageMetrics {
    fn default() -> (m: Self)
        ensures
            m.persisted_frames == 0,
            m.last_persist_us == 0,
            m.max_persist_us == 0,
            m.last_window_id is None,
            m.current_hour_file is None,
            m.last_error is None,
    {
        StorageMetrics {
            persisted_frames: 0,
            last_persist_us: 0,
            max_persist_us: 0,
            last_window_id: None,
            current_hour_file: None,
            last_error: None,
        }
    }
}

/// The hour that a time falls into, counted from the epoch; a time before it falls into the first.
pub open spec fn unix_hour(t: FrameTime) -> int {
    match t {
        FrameTime::BeforeEpoch => 0,
        FrameTime::SinceEpoch { secs, .. } => secs as int / 3600,
    }
}

/// The key of the hour that a time falls into: the hour since the epoch, and three places that
/// are not used.
pub fn hour_key_from_system_time(t: FrameTime) -> (key: (i64, u32, u32, u32))
    ensures
        key.0 == unix_hour(t),
        key.1 == 0 && key.2 == 0 && key.3 == 0,
{
    let secs: u64 = match t {
        FrameTime::BeforeEpoch => 0,
        FrameTime::SinceEpoch { secs, .. } => secs,
    };
    ((secs / 3600) as i64, 0, 0, 0)
}

/// The name of the log of an hour.
pub open spec fn hour_file(unix_hour: int) -> Seq<char> {
    "hour-"@ + text::decimal(unix_hour) + ".jsonl"@
}

/// The name of the log of an hour.
pub fn hour_filename(unix_hour: i64) -> (name: String)
    ensures
        name@ == hour_file(unix_hour as int),
{
    let number = text::decimal_of(unix_hour);
    "hour-".to_owned().concat(number.as_str()).concat(".jsonl")
}

/// Two hours never share a log.
pub proof fn law_hours_have_their_own_logs(a: int, b: int)
    requires
        hour_file(a) == hour_file(b),
    ensures
        a == b,
{
    let m = text::decimal(a);
    let n = text::decimal(b);
    reveal_strlit("hour-");
    reveal_strlit(".jsonl");
    assert(hour_file(a).len() == 5 + m.len() + 6);
    assert(hour_file(b).len() == 5 + n.len() + 6);
    assert(hour_file(a).subrange(5, 5int + m.len()) =~= m);
    assert(hour_file(b).subrange(5, 5int + n.len()) =~= n);
    text::law_decimal_is_unambiguous(a, b);
}

/// A place for a file: a name in a directory.
pub ghost struct Place {
    pub dir: Seq<char>,
    pub name: Seq<char>,
}

/// Whether a name is one for a file in a directory whose extension can be changed: there is
/// something of it, it leads to no other directory, it is not `.`, and if it begins with two
/// dots there is a third.
pub open spec fn is_file_name(name: Seq<char>) -> bool {
    &&& name.len() > 0
    &&& !name.contains('/')
    &&& name.len() == 1 ==> name[0] != '.'
    &&& name.len() > 1 && name[0] == '.' && name[1] == '.' ==> exists|i: int|
        2 <= i < name.len() && #[trigger] name[i] == '.'
}

/// What is to lie at a place.
pub ghost struct Entry {
    pub at: Place,
    pub bytes: Seq<u8>,
}

/// A name in a directory.
#[derive(Debug)]
pub struct StorePath {
    pub dir: String,
    pub name: String,
}

impl View for StorePath {
    type V = Place;

    open spec fn view(&self) -> Place {
        Place { dir: self.dir@, name: self.name@ }
    }
}

impl StorePath {
    /// Whether the name is one for a file in a directory whose extension can be changed.
    pub fn names_a_file(&self) -> (b: bool)
        ensures
            b == is_file_name(self@.name),
    {
        // How many characters were met, two at most, whether those are all dots, and whether a
        // dot came behind two of them.
        let mut met: u8 = 0;
        let mut dotted = true;
        let mut later = false;
        for c in it: self.name.as_str().chars()
            invariant
                it.seq() == self.name@,
                met == (if it.index() < 2 {
                    it.index()
                } else {
                    2
                }),
                dotted == (forall|i: int|
                    #![trigger self.name@[i]]
                    0 <= i < met ==> self.name@[i] == '.'),
                later == (exists|i: int| 2 <= i < it.index() && #[trigger] self.name@[i] == '.'),
                forall|i: int|
                    #![trigger self.name@[i]]
                    0 <= i < it.index() ==> self.name@[i] != '/',
        {
            let ghost at = it.index();
            assert(self.name@[at] == c);
            if c == '/' {
                return false;
            }
            if met < 2 {
                if c != '.' {
                    dotted = false;
                }
                met += 1;
            } else if c == '.' {
                later = true;
            }
        }
        met > 0 && (!dotted || (met == 2 && later))
    }
}

/// A file that is to appear, whole, under its name.
#[derive(Debug)]
pub struct Publication {
    pub at: StorePath,
    pub bytes: Vec<u8>,
}

impl View for Publication {
    type V = Entry;

    open spec fn view(&self) -> Entry {
        Entry { at: self.at@, bytes: self.bytes@ }
    }
}

/// What each of the publications is about.
pub open spec fn entries(list: Seq<Publication>) -> Seq<Entry> {
    Seq::new(list.len(), |i: int| list[i]@)
}

/// Where the extension of a name begins, among its first `k` characters; 0 where it has none.
pub open spec fn last_dot(name: Seq<char>, k: int) -> int
    decreases k,
{
    if k <= 1 {
        0
    } else if name[k - 1] == '.' {
        k - 1
    } else {
        last_dot(name, k - 1)
    }
}

/// The name under which a file is written before it is published: the name with the extension
/// `tmp` in place of its own.
pub open spec fn temp_name(name: Seq<char>) -> Seq<char> {
    let dot = last_dot(name, name.len() as int);
    (if dot == 0 {
        name
    } else {
        name.take(dot)
    }) + ".tmp"@
}

/// The place where a file is written before it is published.
pub open spec fn temp_place(at: Place) -> Place {
    Place { dir: at.dir, name: temp_name(at.name) }
}

/// The name under which a file is written before it is published.
pub fn temp_filename(name: &str) -> (temp: String)
    requires
        is_file_name(name@),
    ensures
        temp@ == temp_name(name@),
{
    let mut whole = String::new();
    let mut stem = String::new();
    let mut dotted = false;
    for c in it: name.chars()
        invariant
            it.seq() == name@,
            whole@ == name@.take(it.index()),
            dotted == (last_dot(name@, it.index()) != 0),
            0 <= last_dot(name@, it.index()) <= it.index(),
            dotted ==> stem@ == name@.take(last_dot(name@, it.index())),
    {
        let ghost i = it.index();
        assert(name@.take(i + 1) =~= name@.take(i).push(c));
        if c == '.' && !whole.as_str().is_empty() {
            stem = whole.clone();
            dotted = true;
            assert(last_dot(name@, i + 1) == i);
        } else {
            assert(last_dot(name@, i + 1) == last_dot(name@, i));
        }
        whole.push(c);
    }
    assert(name@.take(name@.len() as int) =~= name@);
    if dotted {
        stem.concat(".tmp")
    } else {
        whole.concat(".tmp")
    }
}

/// One thing to do to the files.
pub ghost enum Step {
    /// Write a file from nothing.
    Write(Place, Seq<u8>),
    /// Move a file over another, or to where there is none.
    Rename(Place, Place),
}

/// One thing to do to the files.
#[derive(Debug)]
pub enum FileStep {
    Write { at: StorePath, bytes: Vec<u8> },
    Rename { from: StorePath, to: StorePath },
}

impl View for FileStep {
    type V = Step;

    open spec fn view(&self) -> Step {
        match self {
            FileStep::Write { at, bytes } => Step::Write(at@, bytes@),
            FileStep::Rename { from, to } => Step::Rename(from@, to@),
        }
    }
}

/// How a file is published: it is written, whole, under its temporary name, and then moved to
/// its own.
pub open spec fn publishing(entry: Entry) -> Seq<Step> {
    seq![
        Step::Write(temp_place(entry.at), entry.bytes),
        Step::Rename(temp_place(entry.at), entry.at),
    ]
}

/// The steps that publish a file so that nobody ever sees a part of it.
pub fn atomic_write_bytes(file: Publication) -> (steps: (FileStep, FileStep))
    requires
        is_file_name(file@.at.name),
    ensures
        seq![steps.0@, steps.1@] == publishing(file@),
{
    let write = FileStep::Write {
        at: StorePath {
            dir: file.at.dir.clone(),
            name: temp_filename(file.at.name.as_str()),
        },
        bytes: file.bytes,
    };
    let rename = FileStep::Rename {
        from: StorePath {
            dir: file.at.dir.clone(),
            name: temp_filename(file.at.name.as_str()),
        },
        to: file.at,
    };
    (write, rename)
}

/// What came of looking for a file.
#[derive(Debug)]
pub enum ReadOutcome {
    /// The file is there and holds this text.
    Content(String),
    /// There is no such file.
    Missing,
    /// The file could not be read, for the reason given.
    Failed(String),
}

/// The log of an hour.
pub ghost struct HourLog {
    /// The directory of the logs.
    pub dir: Seq<char>,
    /// The hour, once there is one.
    pub hour: Option<int>,
    /// The lines of the log.
    pub lines: Seq<Seq<char>>,
    /// How many lines were added since the log was last published.
    pub unsaved: nat,
}

impl HourLog {
    /// The place of the log of an hour.
    pub open spec fn place(self, hour: int) -> Place {
        Place { dir: self.dir, name: hour_file(hour) }
    }

    /// Whether the log is that of the hour.
    pub open spec fn is_of(self, hour: int) -> bool {
        self.hour == Some(hour)
    }

    /// No more lines are unsaved than there are, and without an hour there are none.
    pub open spec fn wf(self) -> bool {
        &&& self.unsaved <= self.lines.len()
        &&& self.hour is None ==> self.lines.len() == 0
    }

    /// The log of `hour`, taken up from what was found of it on the disk, unless it is this log
    /// already; nothing where what there is cannot be read.
    pub open spec fn turned_to(self, hour: int, existing: ReadOutcome) -> Option<HourLog> {
        if self.is_of(hour) {
            Some(self)
        } else {
            match existing {
                ReadOutcome::Content(found) => Some(
                    HourLog {
                        hour: Some(hour),
                        lines: text::solid(text::lines(found@)),
                        unsaved: 0,
                        ..self
                    },
                ),
                ReadOutcome::Missing => Some(
                    HourLog { hour: Some(hour), lines: Seq::empty(), unsaved: 0, ..self },
                ),
                ReadOutcome::Failed(_) => None,
            }
        }
    }

    /// The log with one more line.
    pub open spec fn with_line(self, line: Seq<char>) -> HourLog {
        HourLog { lines: self.lines.push(line), unsaved: self.unsaved + 1, ..self }
    }

    /// The log once it is published.
    pub open spec fn saved(self) -> HourLog {
        HourLog { unsaved: 0, ..self }
    }

    /// The file of the log.
    pub open spec fn file(self) -> Entry
        recommends
            self.hour is Some,
    {
        Entry {
            at: self.place(self.hour->Some_0),
            bytes: vstd::utf8::encode_utf8(text::log_text(self.lines)),
        }
    }
}

/// The log of the hour at hand, and the logs of other hours that are not saved yet.
pub ghost struct LogBook {
    /// After how many lines a log is published; 0 for never, but when the hour turns.
    pub every: nat,
    /// The log that takes the lines.
    pub log: HourLog,
    /// Whether that log is being published.
    pub asked: bool,
    /// The logs with unsaved lines that were left when the hour turned, in that order. They are
    /// being published, and stay until that is done.
    pub left: Seq<HourLog>,
}

/// The files of some logs.
pub open spec fn log_files(logs: Seq<HourLog>) -> Seq<Entry> {
    Seq::new(logs.len(), |i: int| logs[i].file())
}

impl LogBook {
    /// A book without a log.
    pub open spec fn fresh(dir: Seq<char>, every: nat) -> LogBook {
        LogBook {
            every,
            log: HourLog { dir, hour: None, lines: Seq::empty(), unsaved: 0 },
            asked: false,
            left: Seq::empty(),
        }
    }

    /// The logs are in order and of different hours, and a log is left for what is unsaved of it
    /// alone.
    pub open spec fn wf(self) -> bool {
        &&& self.log.wf()
        &&& forall|i: int|
            #![trigger self.left[i]]
            0 <= i < self.left.len() ==> {
                &&& self.left[i].wf()
                &&& self.left[i].hour is Some
                &&& self.left[i].hour != self.log.hour
                &&& self.left[i].unsaved > 0
                &&& self.left[i].dir == self.log.dir
            }
        &&& forall|i: int, j: int|
            #![trigger self.left[i], self.left[j]]
            0 <= i < j < self.left.len() ==> self.left[i].hour != self.left[j].hour
    }

    /// Whether the log of an hour was left.
    pub open spec fn has_left(self, hour: int) -> bool {
        exists|i: int| 0 <= i < self.left.len() && (#[trigger] self.left[i]).is_of(hour)
    }

    /// Where the log of an hour is among those that were left.
    pub open spec fn left_at(self, hour: int) -> int {
        choose|i: int| 0 <= i < self.left.len() && (#[trigger] self.left[i]).is_of(hour)
    }

    /// Whether no line is unsaved.
    pub open spec fn is_saved(self) -> bool {
        self.left.len() == 0 && self.log.unsaved == 0
    }

    /// The book while its log is not being published.
    pub open spec fn unasked(self) -> LogBook {
        LogBook { asked: false, ..self }
    }

    /// The book turned to the log of `hour`, which is taken up from what was found of it on the
    /// disk, unless it is at hand or was left; nothing where what there is cannot be read. The
    /// log that was at hand is left if lines of it are unsaved.
    pub open spec fn turned_to(self, hour: int, existing: ReadOutcome) -> Option<LogBook> {
        if self.log.is_of(hour) {
            Some(self.unasked())
        } else {
            let again = self.has_left(hour);
            let found = if again {
                Some(self.left[self.left_at(hour)])
            } else {
                self.log.turned_to(hour, existing)
            };
            let others = if again {
                self.left.remove(self.left_at(hour))
            } else {
                self.left
            };
            match found {
                Some(log) => Some(
                    LogBook {
                        log,
                        asked: false,
                        left: if self.log.unsaved > 0 {
                            others.push(self.log)
                        } else {
                            others
                        },
                        ..self
                    },
                ),
                None => None,
            }
        }
    }

    /// The book with one more line, with which the log is to be published if enough have come.
    pub open spec fn with_line(self, line: Seq<char>) -> LogBook {
        let log = self.log.with_line(line);
        LogBook { log, asked: self.every > 0 && log.unsaved >= self.every, ..self }
    }

    /// The files of the logs that are to be published: those that were left, then the one that
    /// takes the lines.
    pub open spec fn files(self) -> Seq<Entry> {
        log_files(self.left) + (if self.asked {
            seq![self.log.file()]
        } else {
            Seq::empty()
        })
    }

    /// The files of all logs with unsaved lines.
    pub open spec fn unsaved_files(self) -> Seq<Entry> {
        log_files(self.left) + (if self.log.unsaved > 0 {
            seq![self.log.file()]
        } else {
            Seq::empty()
        })
    }

    /// The book once it is known whether what was to be published is published. Where it is not,
    /// every line is kept.
    pub open spec fn settled(self, published: bool) -> LogBook {
        if published {
            LogBook {
                log: if self.asked {
                    self.log.saved()
                } else {
                    self.log
                },
                asked: false,
                left: Seq::empty(),
                ..self
            }
        } else {
            self.unasked()
        }
    }
}

/// A log that was left and is being published.
struct LeftLog {
    unix_hour: i64,
    lines: Vec<String>,
    unsaved: usize,
}

impl LeftLog {
    /// The log, in the directory of the logs.
    spec fn log(self, dir: Seq<char>) -> HourLog {
        HourLog {
            dir,
            hour: Some(self.unix_hour as int),
            lines: text::views(self.lines@),
            unsaved: self.unsaved as nat,
        }
    }
}

/// Keeps the log of the hour at hand, one line for each frame.
///
/// A log is published whole, again and again, so that no reader meets half a line.
pub struct HourlyWriter {
    frames_dir: String,
    flush_every_n_frames: u64,
    current_unix_hour: Option<i64>,
    current_lines: Vec<String>,
    unsaved: usize,
    asked: bool,
    left: Vec<LeftLog>,
}

impl View for HourlyWriter {
    type V = LogBook;

    closed spec fn view(&self) -> LogBook {
        LogBook {
            every: self.flush_every_n_frames as nat,
            log: HourLog {
                dir: self.frames_dir@,
                hour: match self.current_unix_hour {
                    Some(h) => Some(h as int),
                    None => None,
                },
                lines: text::views(self.current_lines@),
                unsaved: self.unsaved as nat,
            },
            asked: self.asked,
            left: Seq::new(self.left@.len(), |i: int| self.left@[i].log(self.frames_dir@)),
        }
    }
}

impl HourlyWriter {
    /// Starts without a log, in the directory of the logs. Every so many frames the log is to be
    /// published; 0 stands for never, but when the hour turns.
    pub fn new(frames_dir: String, flush_every_n_frames: u64) -> (w: Self)
        ensures
            w@ == LogBook::fresh(frames_dir@, flush_every_n_frames as nat),
            w@.wf(),
    {
        let w = HourlyWriter {
            frames_dir,
            flush_every_n_frames,
            current_unix_hour: None,
            current_lines: Vec::new(),
            unsaved: 0,
            asked: false,
            left: Vec::new(),
        };
        assert(w@.log.lines =~= Seq::<Seq<char>>::empty());
        assert(w@.left =~= Seq::<HourLog>::empty());
        w
    }

    /// The place of the log of an hour.
    fn path_of(&self, unix_hour: i64) -> (path: StorePath)
        ensures
            path@ == self@.log.place(unix_hour as int),
    {
        StorePath { dir: self.frames_dir.clone(), name: hour_filename(unix_hour) }
    }

    /// Where the log of an hour is among those that were left.
    fn find_left(&self, unix_hour: i64) -> (at: Option<usize>)
        requires
            self@.wf(),
        ensures
            at is Some <==> self@.has_left(unix_hour as int),
            at matches Some(i) ==> i < self.left@.len() && i == self@.left_at(unix_hour as int),
    {
        let mut i: usize = 0;
        while i < self.left.len()
            invariant
                self@.wf(),
                i <= self.left@.len(),
                forall|k: int|
                    #![trigger self@.left[k]]
                    0 <= k < i ==> !self@.left[k].is_of(unix_hour as int),
            decreases self.left@.len() - i,
        {
            if self.left[i].unix_hour == unix_hour {
                proof {
                    assert(self@.left[i as int].is_of(unix_hour as int));
                    let at = self@.left_at(unix_hour as int);
                    assert(self@.left[at].is_of(unix_hour as int));
                    if at < i {
                        assert(self@.left[at].hour != self@.left[i as int].hour);
                    } else if i < at {
                        assert(self@.left[i as int].hour != self@.left[at].hour);
                    }
                }
                return Some(i);
            }
            assert(!self@.left[i as int].is_of(unix_hour as int));
            i += 1;
        }
        None
    }

    /// The log that must be looked for before a line of `unix_hour` can be taken.
    pub fn rotation_target(&self, unix_hour: i64) -> (path: Option<StorePath>)
        requires
            self@.wf(),
        ensures
            path is None <==> self@.log.is_of(unix_hour as int) || self@.has_left(
                unix_hour as int,
            ),
            path matches Some(p) ==> p@ == self@.log.place(unix_hour as int),
    {
        match self.current_unix_hour {
            Some(hour) if hour == unix_hour => {
                return None;
            },
            _ => {},
        }
        if self.find_left(unix_hour).is_some() {
            None
        } else {
            Some(self.path_of(unix_hour))
        }
    }

    /// Turns to the log of `unix_hour`, unless it is at hand already. `existing` is what was
    /// found where `rotation_target` pointed. A log with unsaved lines that is left for it is to
    /// be published.
    pub fn rotate_if_needed(&mut self, unix_hour: i64, existing: ReadOutcome) -> (r: Result<
        (),
        String,
    >)
        requires
            old(self)@.wf(),
        ensures
            final(self)@.wf(),
            match old(self)@.turned_to(unix_hour as int, existing) {
                Some(book) => r is Ok && final(self)@ == book,
                None => final(self)@ == old(self)@.unasked() && r == Err::<(), String>(
                    existing->Failed_0,
                ),
            },
    {
        self.asked = false;
        match self.current_unix_hour {
            Some(hour) if hour == unix_hour => {
                assert(self@.left =~= old(self)@.left);
                return Ok(());
            },
            _ => {},
        }
        let at = self.find_left(unix_hour);
        let (mut lines, unsaved): (Vec<String>, usize) = match at {
            Some(i) => {
                let again = self.left.remove(i);
                assert(self@.left =~= old(self)@.left.remove(i as int));
                (again.lines, again.unsaved)
            },
            None => match existing {
                ReadOutcome::Content(found) => (text::solid_lines(found.as_str()), 0),
                ReadOutcome::Missing => (Vec::new(), 0),
                ReadOutcome::Failed(reason) => {
                    assert(self@.left =~= old(self)@.left);
                    return Err(reason);
                },
            },
        };
        let ghost others = self@.left;
        assert(existing is Missing && at is None ==> text::views(lines@) =~= Seq::<
            Seq<char>,
        >::empty());
        std::mem::swap(&mut self.current_lines, &mut lines);
        if let Some(hour) = self.current_unix_hour {
            if self.unsaved > 0 {
                self.left.push(LeftLog { unix_hour: hour, lines, unsaved: self.unsaved });
            }
        }
        self.current_unix_hour = Some(unix_hour);
        self.unsaved = unsaved;
        proof {
            let before = *old(self);
            assert(self@.left =~= (if before@.log.unsaved > 0 {
                others.push(before@.log)
            } else {
                others
            }));
            if at is Some {
                let i = before@.left_at(unix_hour as int);
                assert forall|k: int| #![trigger others[k]] 0 <= k < others.len() implies
                    others[k].hour != Some(unix_hour as int) by {
                    let from = if k < i {
                        k
                    } else {
                        k + 1
                    };
                    assert(others[k] == before@.left[from]);
                    assert(before@.left[i].is_of(unix_hour as int));
                    if from < i {
                        assert(before@.left[from].hour != before@.left[i].hour);
                    } else {
                        assert(before@.left[i].hour != before@.left[from].hour);
                    }
                }
            }
            assert(self@.wf()) by {
                assert forall|k: int| #![trigger self@.left[k]] 0 <= k < self@.left.len() implies {
                    &&& self@.left[k].wf()
                    &&& self@.left[k].hour is Some
                    &&& self@.left[k].hour != self@.log.hour
                    &&& self@.left[k].unsaved > 0
                    &&& self@.left[k].dir == self@.log.dir
                } by {
                    if k < others.len() {
                        assert(self@.left[k] == others[k]);
                    }
                }
                assert forall|j: int, k: int|
                    #![trigger self@.left[j], self@.left[k]]
                    0 <= j < k < self@.left.len() implies self@.left[j].hour
                    != self@.left[k].hour by {
                    assert(self@.left[j] == others[j]);
                    if k < others.len() {
                        assert(self@.left[k] == others[k]);
                    }
                }
            }
        }
        Ok(())
    }

    /// The files of the logs that were left.
    fn left_files(&self) -> (files: Vec<Publication>)
        ensures
            entries(files@) == log_files(self@.left),
    {
        let mut files: Vec<Publication> = Vec::new();
        let mut i: usize = 0;
        assert(entries(files@) =~= log_files(self@.left).take(0));
        while i < self.left.len()
            invariant
                i <= self.left@.len(),
                entries(files@) == log_files(self@.left).take(i as int),
            decreases self.left@.len() - i,
        {
            let ghost before = entries(files@);
            let body = text::log_text_of(&self.left[i].lines);
            let file = Publication {
                at: self.path_of(self.left[i].unix_hour),
                bytes: body.as_str().as_bytes_vec(),
            };
            assert(file@ == self@.left[i as int].file());
            files.push(file);
            assert(entries(files@) =~= before.push(file@));
            assert(log_files(self@.left).take(i + 1) =~= log_files(self@.left).take(
                i as int,
            ).push(file@));
            i += 1;
        }
        assert(log_files(self@.left).take(i as int) =~= log_files(self@.left));
        files
    }

    /// Adds a line for a frame to the log of `unix_hour` and gives the files of logs to publish:
    /// those of the logs that were left, and that of the log itself if enough lines have come.
    ///
    /// `encoded` is the frame in JSON, or why it could not be put into JSON.
    pub fn append_jsonl(
        &mut self,
        unix_hour: i64,
        existing: ReadOutcome,
        encoded: &Result<String, String>,
    ) -> (r: Result<Vec<Publication>, String>)
        requires
            old(self)@.wf(),
        ensures
            final(self)@.wf(),
            match old(self)@.turned_to(unix_hour as int, existing) {
                None => final(self)@ == old(self)@.unasked() && r == Err::<
                    Vec<Publication>,
                    String,
                >(existing->Failed_0),
                Some(book) => match *encoded {
                    Err(reason) => final(self)@ == book && r == Err::<Vec<Publication>, String>(
                        reason,
                    ),
                    Ok(line) => final(self)@ == book.with_line(line@) && r is Ok && entries(
                        r->Ok_0@,
                    ) == book.with_line(line@).files(),
                },
            },
    {
        match self.rotate_if_needed(unix_hour, existing) {
            Err(reason) => {
                return Err(reason);
            },
            Ok(()) => {},
        }
        let ghost book = self@;
        match encoded {
            Err(reason) => Err(reason.clone()),
            Ok(line) => {
                self.current_lines.push(line.clone());
                assert(text::views(self.current_lines@) =~= book.log.lines.push(line@));
                let count: usize = self.current_lines.len();
                assert(self.unsaved < count);
                self.unsaved += 1;
                self.asked = self.flush_every_n_frames > 0 && self.unsaved as u64
                    >= self.flush_every_n_frames;
                assert(self@.left =~= book.left);
                assert(self@ == book.with_line(line@));
                let mut files = self.left_files();
                let ghost first = entries(files@);
                if self.asked {
                    if let Some(file) = self.flush() {
                        files.push(file);
                        assert(entries(files@) =~= first.push(file@));
                    }
                }
                assert(entries(files@) =~= book.with_line(line@).files());
                Ok(files)
            },
        }
    }

    /// The files of all logs with unsaved lines.
    pub fn unsaved_files(&self) -> (files: Vec<Publication>)
        requires
            self@.wf(),
        ensures
            entries(files@) == self@.unsaved_files(),
    {
        let mut files = self.left_files();
        let ghost first = entries(files@);
        if self.unsaved > 0 {
            if let Some(file) = self.flush() {
                files.push(file);
                assert(entries(files@) =~= first.push(file@));
            }
        }
        assert(entries(files@) =~= self@.unsaved_files());
        files
    }

    /// Whether lines are unsaved.
    pub fn has_unsaved(&self) -> (b: bool)
        ensures
            b == !self@.is_saved(),
    {
        self.unsaved > 0 || self.left.len() > 0
    }

    /// Takes note whether the files that were to be published are published. Where they are not,
    /// nothing is lost: they are to be published with the next frame.
    pub fn settle(&mut self, published: bool)
        requires
            old(self)@.wf(),
        ensures
            final(self)@ == old(self)@.settled(published),
            final(self)@.wf(),
    {
        if published {
            if self.asked {
                self.unsaved = 0;
            }
            self.left = Vec::new();
            assert(self@.left =~= Seq::<HourLog>::empty());
        } else {
            assert(self@.left =~= old(self)@.left);
        }
        self.asked = false;
        assert(!published ==> self@.left =~= old(self)@.left);
        assert(published ==> self@.left =~= Seq::<HourLog>::empty());
    }

    /// The name of the log at hand.
    pub fn current_hour_file(&self) -> (name: Option<String>)
        ensures
            name is Some <==> self@.log.hour is Some,
            name matches Some(n) ==> n@ == hour_file(self@.log.hour->Some_0),
    {
        match self.current_unix_hour {
            Some(hour) => Some(hour_filename(hour)),
            None => None,
        }
    }

    /// The file of the log at hand.
    pub fn flush(&self) -> (file: Option<Publication>)
        ensures
            file is Some <==> self@.log.hour is Some,
            file matches Some(f) ==> f@ == self@.log.file(),
    {
        match self.current_unix_hour {
            Some(hour) => {
                let body = text::log_text_of(&self.current_lines);
                Some(Publication { at: self.path_of(hour), bytes: body.as_str().as_bytes_vec() })
            },
            None => None,
        }
    }

    /// The place of the log at hand, to sync it to the disk.
    pub fn sync_all(&self) -> (path: Option<StorePath>)
        ensures
            path is Some <==> self@.log.hour is Some,
            path matches Some(p) ==> p@ == self@.log.place(self@.log.hour->Some_0),
    {
        match self.current_unix_hour {
            Some(hour) => Some(self.path_of(hour)),
            None => None,
        }
    }
}

/// The seconds from the epoch to the end of a window, where it is not before the epoch.
pub open spec fn end_secs(t: FrameTime) -> Option<u64> {
    match t {
        FrameTime::BeforeEpoch => None,
        FrameTime::SinceEpoch { secs, .. } => Some(secs),
    }
}

/// What the index of the latest frame holds.
pub open spec fn index_tree(
    window_id: u64,
    window_end: FrameTime,
    hour_name: Seq<char>,
) -> json::JsonTree {
    json::JsonTree::Object(
        Map::<Seq<char>, json::JsonTree>::empty().insert(
            "window_id"@,
            json::natural_tree(window_id),
        ).insert("window_end_unix"@, json::natural_or_null(end_secs(window_end))).insert(
            "hour_file"@,
            json::JsonTree::Text(hour_name),
        ),
    )
}

/// What a snapshot puts together: the frame, in JSON, and the statistics.
pub open spec fn snapshot_pair(line: Seq<char>, stats: json::JsonTree) -> json::JsonPair {
    json::JsonPair {
        first_key: "latest"@,
        first: line,
        second_key: "stats"@,
        second: stats,
    }
}

/// The bytes of a snapshot: the frame and the statistics in one object, or an empty object
/// where the statistics cannot be written.
pub open spec fn snapshot_bytes(line: Seq<char>, stats: json::JsonTree) -> Seq<u8> {
    if json::rendered(stats) is Some {
        snapshot_pair(line, stats).bytes()
    } else {
        vstd::utf8::encode_utf8("{}"@)
    }
}

/// The place of a file in the base directory.
pub open spec fn base_place(base: Seq<char>, name: Seq<char>) -> Place {
    Place { dir: base, name }
}

/// The files that a frame leaves behind, in the order in which they appear: the logs that are to
/// be published, the latest frame, the statistics and the snapshot of both where there are
/// statistics, and the index.
///
/// `book` is the book with the frame in it, `line` the frame in JSON.
pub open spec fn artifacts(
    base: Seq<char>,
    book: LogBook,
    line: Seq<char>,
    window_id: u64,
    window_end: FrameTime,
    stats: Option<json::JsonTree>,
) -> Seq<Entry> {
    let latest = Entry {
        at: base_place(base, "latest.json"@),
        bytes: vstd::utf8::encode_utf8(line),
    };
    let stats_files = match stats {
        Some(tree) => seq![
            Entry {
                at: base_place(base, "stats.json"@),
                bytes: json::rendered_or_empty(tree),
            },
            Entry {
                at: base_place(base, "snapshot.json"@),
                bytes: snapshot_bytes(line, tree),
            },
        ],
        None => Seq::empty(),
    };
    let index = Entry {
        at: base_place(base, "latest"@),
        bytes: json::rendered_or_empty(
            index_tree(window_id, window_end, hour_file(book.log.hour->Some_0)),
        ),
    };
    (book.files().push(latest) + stats_files).push(index)
}

/// What an optional document holds.
pub open spec fn tree_of(value: Option<&Value>) -> Option<json::JsonTree> {
    match value {
        Some(v) => Some(json::json_tree(*v)),
        None => None,
    }
}

/// A file of the base directory.
fn base_file(base_dir: &str, name: &str, bytes: Vec<u8>) -> (file: Publication)
    ensures
        file@ == (Entry { at: base_place(base_dir@, name@), bytes: bytes@ }),
{
    Publication { at: StorePath { dir: base_dir.to_owned(), name: name.to_owned() }, bytes }
}

/// The bytes of the snapshot of a frame and its statistics.
fn snapshot_of(line: &str, stats: &Value) -> (bytes: Vec<u8>)
    ensures
        bytes@ == snapshot_bytes(line@, json::json_tree(*stats)),
{
    match json::render(stats) {
        Some(mut inner) => {
            let mut out = "{\"".as_bytes_vec();
            let mut piece = "latest".as_bytes_vec();
            out.append(&mut piece);
            piece = "\":".as_bytes_vec();
            out.append(&mut piece);
            piece = line.as_bytes_vec();
            out.append(&mut piece);
            piece = ",\"".as_bytes_vec();
            out.append(&mut piece);
            piece = "stats".as_bytes_vec();
            out.append(&mut piece);
            piece = "\":".as_bytes_vec();
            out.append(&mut piece);
            out.append(&mut inner);
            piece = "}".as_bytes_vec();
            out.append(&mut piece);
            out
        },
        None => "{}".as_bytes_vec(),
    }
}

/// The bytes of the index of the latest frame.
fn index_of(window_id: u64, window_end: FrameTime, hour_name: String) -> (bytes: Vec<u8>)
    ensures
        bytes@ == json::rendered_or_empty(index_tree(window_id, window_end, hour_name@)),
{
    let end: Option<u64> = match window_end {
        FrameTime::BeforeEpoch => None,
        FrameTime::SinceEpoch { secs, .. } => Some(secs),
    };
    let ghost name = hour_name@;
    let mut fields = json::no_fields();
    assert(json::json_fields(fields) =~= Map::<Seq<char>, json::JsonTree>::empty());
    json::set_field(&mut fields, "window_id", json::natural(window_id));
    json::set_field(&mut fields, "window_end_unix", json::natural_or_null_value(end));
    json::set_field(&mut fields, "hour_file", json::text_value(hour_name));
    json::render_or_empty(&json::object(fields))
}

/// Takes a frame into the log and gives the files to publish, in order.
///
/// `existing` is what was found where the log pointed for the hour of the frame, `encoded` the
/// frame in JSON, or why it could not be put into JSON. Where the log cannot be taken up or
/// there is no JSON, nothing is to be published, and the reason is given. What came of it is to
/// be settled before the next frame.
pub fn persist_runtime_artifacts(
    base_dir: &str,
    hourly: &mut HourlyWriter,
    frame: &AggregatedFrame,
    stats_snapshot: Option<&Value>,
    existing: ReadOutcome,
    encoded: &Result<String, String>,
) -> (r: Result<Vec<Publication>, String>)
    requires
        old(hourly)@.wf(),
    ensures
        final(hourly)@.wf(),
        match old(hourly)@.turned_to(unix_hour(frame.window_end), existing) {
            None => final(hourly)@ == old(hourly)@.unasked() && r == Err::<
                Vec<Publication>,
                String,
            >(existing->Failed_0),
            Some(book) => match *encoded {
                Err(reason) => final(hourly)@ == book && r == Err::<Vec<Publication>, String>(
                    reason,
                ),
                Ok(line) => final(hourly)@ == book.with_line(line@) && r is Ok && entries(
                    r->Ok_0@,
                ) == artifacts(
                    base_dir@,
                    book.with_line(line@),
                    line@,
                    frame.window_id,
                    frame.window_end,
                    tree_of(stats_snapshot),
                ),
            },
        },
{
    let (unix_hour, _, _, _) = hour_key_from_system_time(frame.window_end);
    let mut files = match hourly.append_jsonl(unix_hour, existing, encoded) {
        Ok(files) => files,
        Err(reason) => {
            return Err(reason);
        },
    };
    let line: &String = match encoded {
        Ok(line) => line,
        Err(reason) => {
            return Err(reason.clone());
        },
    };
    files.push(base_file(base_dir, "latest.json", line.as_str().as_bytes_vec()));
    if let Some(stats) = stats_snapshot {
        files.push(base_file(base_dir, "stats.json", json::render_or_empty(stats)));
        files.push(base_file(base_dir, "snapshot.json", snapshot_of(line.as_str(), stats)));
    }
    let index = index_of(frame.window_id, frame.window_end, hour_filename(unix_hour));
    files.push(base_file(base_dir, "latest", index));
    assert(entries(files@) =~= artifacts(
        base_dir@,
        hourly@,
        line@,
        frame.window_id,
        frame.window_end,
        tree_of(stats_snapshot),
    ));
    Ok(files)
}

/// The files after a step. A rename of a file that is not there changes nothing.
pub open spec fn after_step(files: Map<Place, Seq<u8>>, step: Step) -> Map<Place, Seq<u8>> {
    match step {
        Step::Write(at, bytes) => files.insert(at, bytes),
        Step::Rename(from, to) => if files.contains_key(from) {
            files.remove(from).insert(to, files[from])
        } else {
            files
        },
    }
}

/// The files after a publication.
pub open spec fn after_publishing(files: Map<Place, Seq<u8>>, entry: Entry) -> Map<
    Place,
    Seq<u8>,
> {
    after_step(after_step(files, publishing(entry)[0]), publishing(entry)[1])
}

/// The files after the first `n` publications of a list.
pub open spec fn after_first(
    files: Map<Place, Seq<u8>>,
    list: Seq<Entry>,
    n: int,
) -> Map<Place, Seq<u8>>
    decreases n,
{
    if n <= 0 {
        files
    } else {
        after_publishing(after_first(files, list, n - 1), list[n - 1])
    }
}

/// Whether `seen` can be met while a step is at work, or where it failed half-way: a file that
/// is being written may hold anything, while a rename is done or not done.
pub open spec fn during_step(
    files: Map<Place, Seq<u8>>,
    step: Step,
    seen: Map<Place, Seq<u8>>,
) -> bool {
    match step {
        Step::Write(at, _) => seen == files || exists|part: Seq<u8>|
            seen == #[trigger] files.insert(at, part),
        Step::Rename(_, _) => seen == files || seen == after_step(files, step),
    }
}

/// Whether `seen` can be met while the `n`-th publication of a list is at work, all those
/// before it being done, or where it failed half-way.
pub open spec fn during(
    files: Map<Place, Seq<u8>>,
    list: Seq<Entry>,
    n: int,
    seen: Map<Place, Seq<u8>>,
) -> bool {
    let start = after_first(files, list, n);
    ||| during_step(start, publishing(list[n])[0], seen)
    ||| during_step(after_step(start, publishing(list[n])[0]), publishing(list[n])[1], seen)
}

/// Whether a place is one of those where files are written before they are published.
pub open spec fn is_temporary(list: Seq<Entry>, at: Place) -> bool {
    exists|i: int| 0 <= i < list.len() && temp_place(#[trigger] list[i].at) == at
}

/// Whether no file of a list is published where one is written beforehand.
pub open spec fn is_apart(list: Seq<Entry>) -> bool {
    forall|i: int| 0 <= i < list.len() ==> !is_temporary(list, #[trigger] list[i].at)
}

/// Whether what lies at a place is what lay there before, or one of the published files, whole.
pub open spec fn is_whole(
    files: Map<Place, Seq<u8>>,
    list: Seq<Entry>,
    seen: Map<Place, Seq<u8>>,
    at: Place,
) -> bool {
    ||| seen.contains_key(at) == files.contains_key(at) && (files.contains_key(at) ==> seen[at]
        == files[at])
    ||| exists|i: int|
        0 <= i < list.len() && (#[trigger] list[i]).at == at && seen.contains_key(at) && seen[at]
            == list[i].bytes
}

/// Between publications every place holds its old file or a whole new one.
proof fn lemma_between_is_whole(
    files: Map<Place, Seq<u8>>,
    list: Seq<Entry>,
    n: int,
    at: Place,
)
    requires
        0 <= n <= list.len(),
        !is_temporary(list, at),
    ensures
        is_whole(files, list, after_first(files, list, n), at),
    decreases n,
{
    if n > 0 {
        lemma_between_is_whole(files, list, n - 1, at);
        let start = after_first(files, list, n - 1);
        let entry = list[n - 1];
        assert(temp_place(list[n - 1].at) != at);
        let mid = after_step(start, publishing(entry)[0]);
        assert(mid.contains_key(temp_place(entry.at)));
        let end = after_first(files, list, n);
        assert(end == mid.remove(temp_place(entry.at)).insert(entry.at, entry.bytes));
        if entry.at == at {
            assert(list[n - 1].at == at && end[at] == list[n - 1].bytes);
        } else {
            assert(end.contains_key(at) == start.contains_key(at));
            assert(start.contains_key(at) ==> end[at] == start[at]);
        }
    }
}

/// Nobody ever sees a part of a file: at every moment of publishing a list of files, and
/// wherever it stops half-way, each place holds what it held before or a published file, whole.
/// Only the places for files that are not yet published are different.
pub proof fn law_no_reader_sees_a_part(
    files: Map<Place, Seq<u8>>,
    list: Seq<Entry>,
    n: int,
    seen: Map<Place, Seq<u8>>,
    at: Place,
)
    requires
        0 <= n < list.len(),
        during(files, list, n, seen),
        !is_temporary(list, at),
    ensures
        is_whole(files, list, seen, at),
{
    let start = after_first(files, list, n);
    let entry = list[n];
    lemma_between_is_whole(files, list, n, at);
    lemma_between_is_whole(files, list, n + 1, at);
    assert(temp_place(list[n].at) != at);
    let mid = after_step(start, publishing(entry)[0]);
    let end = after_first(files, list, n + 1);
    assert(end == after_step(mid, publishing(entry)[1]));
    if during_step(mid, publishing(entry)[1], seen) {
        if seen == mid {
            assert(seen.contains_key(at) == start.contains_key(at));
            assert(start.contains_key(at) ==> seen[at] == start[at]);
        }
    } else if seen != start {
        let part = choose|part: Seq<u8>| seen == start.insert(temp_place(entry.at), part);
        assert(seen == start.insert(temp_place(entry.at), part));
        assert(seen.contains_key(at) == start.contains_key(at));
        assert(start.contains_key(at) ==> seen[at] == start[at]);
    }
}

/// Once a list of files at different places is published, each lies at its place.
pub proof fn law_published_files_lie_in_place(
    files: Map<Place, Seq<u8>>,
    list: Seq<Entry>,
    n: int,
    i: int,
)
    requires
        0 <= i < n <= list.len(),
        is_apart(list),
        forall|j: int, k: int|
            #![trigger list[j], list[k]]
            0 <= j < k < list.len() ==> list[j].at != list[k].at,
    ensures
        after_first(files, list, n).contains_key(list[i].at),
        after_first(files, list, n)[list[i].at] == list[i].bytes,
    decreases n,
{
    let start = after_first(files, list, n - 1);
    let entry = list[n - 1];
    let mid = after_step(start, publishing(entry)[0]);
    assert(mid.contains_key(temp_place(entry.at)));
    if i < n - 1 {
        law_published_files_lie_in_place(files, list, n - 1, i);
        assert(list[i].at != list[n - 1].at);
        assert(!is_temporary(list, list[i].at));
        assert(temp_place(list[n - 1].at) != list[i].at);
    }
}

/// The name of a temporary file ends like no name that is published.
proof fn lemma_temp_name_ends_in_p(name: Seq<char>)
    ensures
        temp_name(name).len() > 0,
        temp_name(name).last() == 'p',
{
    reveal_strlit(".tmp");
}

/// The log of an hour has a name that a file can have.
proof fn lemma_hour_file_is_a_name(hour: int)
    ensures
        is_file_name(hour_file(hour)),
{
    reveal_strlit("hour-");
    reveal_strlit(".jsonl");
    let number = text::decimal(hour);
    let name = hour_file(hour);
    text::law_decimal_is_digits(hour);
    assert forall|i: int| 0 <= i < name.len() implies name[i] != '/' by {
        if 5 <= i < 5 + number.len() {
            assert(name[i] == number[i - 5]);
        }
    }
    assert(name[0] == 'h');
}

/// The files that a frame leaves behind lie at different places, under names that files can
/// have, and none of these places is used for a file that is not yet published.
pub proof fn law_artifacts_do_not_meet(
    base: Seq<char>,
    book: LogBook,
    line: Seq<char>,
    window_id: u64,
    window_end: FrameTime,
    stats: Option<json::JsonTree>,
)
    requires
        book.wf(),
        book.log.hour is Some,
    ensures
        ({
            let list = artifacts(base, book, line, window_id, window_end, stats);
            &&& is_apart(list)
            &&& forall|i: int| 0 <= i < list.len() ==> is_file_name(#[trigger] list[i].at.name)
            &&& forall|j: int, k: int|
                #![trigger list[j], list[k]]
                0 <= j < k < list.len() ==> list[j].at != list[k].at
        }),
{
    let list = artifacts(base, book, line, window_id, window_end, stats);
    reveal_strlit("hour-");
    reveal_strlit(".jsonl");
    reveal_strlit("latest.json");
    reveal_strlit("stats.json");
    reveal_strlit("snapshot.json");
    reveal_strlit("latest");
    let logged = hour_file(book.log.hour->Some_0);
    assert(logged.last() == 'l');
    assert(logged[0] == 'h');
    assert forall|i: int| #![trigger book.left[i]] 0 <= i < book.left.len() implies {
        let earlier = book.left[i].file().at.name;
        &&& earlier[0] == 'h' && earlier.last() == 'l' && earlier != logged
        &&& is_file_name(earlier)
    } by {
        let earlier = hour_file(book.left[i].hour->Some_0);
        assert(earlier.last() == 'l');
        assert(earlier[0] == 'h');
        if earlier == logged {
            law_hours_have_their_own_logs(book.left[i].hour->Some_0, book.log.hour->Some_0);
        }
        lemma_hour_file_is_a_name(book.left[i].hour->Some_0);
    }
    assert forall|i: int, j: int|
        #![trigger book.left[i], book.left[j]]
        0 <= i < j < book.left.len() implies book.left[i].file().at != book.left[j].file().at by {
        let a = book.left[i].hour->Some_0;
        let b = book.left[j].hour->Some_0;
        if hour_file(a) == hour_file(b) {
            law_hours_have_their_own_logs(a, b);
        }
    }
    assert("latest.json"@[0] == 'l' && "latest"@[0] == 'l');
    assert("stats.json"@[0] == 's' && "snapshot.json"@[0] == 's');
    assert("stats.json"@[1] == 't' && "snapshot.json"@[1] == 'n');
    assert("latest.json"@.len() == 11 && "latest"@.len() == 6);
    assert("latest.json"@.last() == 'n' && "stats.json"@.last() == 'n');
    assert("snapshot.json"@.last() == 'n' && "latest"@.last() == 't');
    assert forall|i: int| 0 <= i < list.len() implies !is_temporary(list, #[trigger] list[i].at) by {
        if is_temporary(list, list[i].at) {
            let j = choose|j: int|
                0 <= j < list.len() && temp_place(#[trigger] list[j].at) == list[i].at;
            lemma_temp_name_ends_in_p(list[j].at.name);
        }
    }
    lemma_hour_file_is_a_name(book.log.hour->Some_0);
    assert(is_file_name("latest.json"@));
    assert(is_file_name("stats.json"@));
    assert(is_file_name("snapshot.json"@));
    assert(is_file_name("latest"@));
}

/// A number of microseconds, or the most that a `u64` can hold.
pub open spec fn capped_us(elapsed_us: u128) -> u64 {
    if elapsed_us <= u64::MAX {
        elapsed_us as u64
    } else {
        u64::MAX
    }
}

impl StorageMetrics {
    /// The metrics after a frame was persisted.
    pub open spec fn counts_success(
        self,
        before: StorageMetrics,
        elapsed_us: u128,
        window_id: u64,
        hour: Option<int>,
    ) -> bool {
        &&& self.persisted_frames == before.persisted_frames + 1
        &&& self.last_persist_us == capped_us(elapsed_us)
        &&& self.max_persist_us == (if before.max_persist_us >= capped_us(elapsed_us) {
            before.max_persist_us
        } else {
            capped_us(elapsed_us)
        })
        &&& self.last_window_id == Some(window_id)
        &&& self.current_hour_file is Some <==> hour is Some
        &&& hour is Some ==> self.current_hour_file->Some_0@ == hour_file(hour->Some_0)
        &&& self.last_error is None
    }

    /// The metrics after a frame could not be persisted: the reason is noted and nothing else
    /// changes.
    pub open spec fn notes_failure(self, before: StorageMetrics, reason: String) -> bool {
        self == (StorageMetrics { last_error: Some(reason), ..before })
    }
}

/// Enters into the metrics what came of persisting a frame, and gives the answer to whoever
/// asked for it.
pub fn persist_with_metrics(
    metrics: &mut StorageMetrics,
    hourly: &HourlyWriter,
    window_id: u64,
    outcome: Result<(), String>,
    elapsed_us: u128,
) -> (answer: Result<(), StorageError>)
    requires
        outcome is Ok ==> old(metrics).persisted_frames < u64::MAX,
    ensures
        match outcome {
            Ok(_) => answer == Ok::<(), StorageError>(()) && final(metrics).counts_success(
                *old(metrics),
                elapsed_us,
                window_id,
                hourly@.log.hour,
            ),
            Err(reason) => answer == Err::<(), StorageError>(StorageError::WorkerFailed)
                && final(metrics).notes_failure(*old(metrics), reason),
        },
{
    match outcome {
        Ok(()) => {
            let persist_us: u64 = if elapsed_us <= 0xFFFF_FFFF_FFFF_FFFF {
                elapsed_us as u64
            } else {
                0xFFFF_FFFF_FFFF_FFFF
            };
            metrics.persisted_frames += 1;
            metrics.last_persist_us = persist_us;
            if metrics.max_persist_us < persist_us {
                metrics.max_persist_us = persist_us;
            }
            metrics.last_window_id = Some(window_id);
            metrics.current_hour_file = hourly.current_hour_file();
            metrics.last_error = None;
            Ok(())
        },
        Err(reason) => {
            metrics.last_error = Some(reason);
            Err(StorageError::WorkerFailed)
        },
    }
}

/// The answer to a request: that of the worker where it took the request and answered, else
/// that it takes no more, or that it went away.
pub fn persist_answer(
    taken: bool,
    answer: Option<Result<(), StorageError>>,
) -> (r: Result<(), StorageError>)
    ensures
        r == (if !taken {
            Err(StorageError::ChannelClosed)
        } else {
            match answer {
                Some(a) => a,
                None => Err(StorageError::WorkerFailed),
            }
        }),
{
    if !taken {
        return Err(StorageError::ChannelClosed);
    }
    match answer {
        Some(answer) => answer,
        None => Err(StorageError::WorkerFailed),
    }
}

/// What the storage worker is about.
#[derive(Clone, Copy, Debug, PartialEq, Eq, Structural)]
pub enum WorkerPhase {
    /// Waiting for requests and serving them.
    Serving,
    /// Serving the requests that are still there after it was told to stop.
    Draining,
    /// About to publish what is unsaved of the log.
    Flushing,
    /// About to sync the files.
    Syncing,
    /// Done.
    Stopped,
}

/// What the storage worker met when it looked for a request.
#[derive(Clone, Copy, Debug, PartialEq, Eq, Structural)]
pub enum WorkerEvent {
    /// A request to persist a frame.
    Persist,
    /// The request to shut down.
    Shutdown,
    /// No request is there, or none can come any more.
    Closed,
}

/// What the storage worker wants done next.
#[derive(Debug)]
pub enum WorkerStep {
    /// Wait for a request.
    Receive,
    /// Look for a request without waiting.
    TryReceive,
    /// Publish these files, the logs with unsaved lines, as far as it can be done.
    Flush(Vec<Publication>),
    /// Sync these files to the disk, those that there are.
    Sync(Vec<StorePath>),
    /// Nothing more.
    Stop,
}

/// The phase in which the worker looks for the next request; a flag that was raised moves it on.
pub open spec fn phase_at_look(phase: WorkerPhase, shutdown: bool) -> WorkerPhase {
    if phase is Serving && shutdown {
        WorkerPhase::Draining
    } else {
        phase
    }
}

/// The phase after what the worker met.
pub open spec fn phase_after(phase: WorkerPhase, event: WorkerEvent) -> WorkerPhase {
    match (phase, event) {
        (WorkerPhase::Serving, WorkerEvent::Persist) => WorkerPhase::Serving,
        (WorkerPhase::Serving, _) => WorkerPhase::Draining,
        (WorkerPhase::Draining, WorkerEvent::Closed) => WorkerPhase::Flushing,
        _ => phase,
    }
}

/// The places of the files of the base directory that are synced.
pub open spec fn snapshot_places(base: Seq<char>) -> Seq<Place> {
    seq![
        base_place(base, "latest.json"@),
        base_place(base, "latest"@),
        base_place(base, "stats.json"@),
        base_place(base, "snapshot.json"@),
    ]
}

/// The places of all files that are synced on shutdown, the log first; none where nothing is to
/// be synced.
pub open spec fn sync_places(syncs: bool, base: Seq<char>, log: HourLog) -> Seq<Place> {
    if !syncs {
        Seq::empty()
    } else {
        match log.hour {
            Some(hour) => seq![log.place(hour)] + snapshot_places(base),
            None => snapshot_places(base),
        }
    }
}

/// What each of the paths points to.
pub open spec fn places(list: Seq<StorePath>) -> Seq<Place> {
    Seq::new(list.len(), |i: int| list[i]@)
}

/// The files of the base directory that are synced.
pub fn sync_snapshot_files(base_dir: &str) -> (list: Vec<StorePath>)
    ensures
        places(list@) == snapshot_places(base_dir@),
{
    let mut list: Vec<StorePath> = Vec::new();
    list.push(StorePath { dir: base_dir.to_owned(), name: "latest.json".to_owned() });
    list.push(StorePath { dir: base_dir.to_owned(), name: "latest".to_owned() });
    list.push(StorePath { dir: base_dir.to_owned(), name: "stats.json".to_owned() });
    list.push(StorePath { dir: base_dir.to_owned(), name: "snapshot.json".to_owned() });
    assert(places(list@) =~= snapshot_places(base_dir@));
    list
}

/// Whether the worker, having served all there was, has unsaved lines to publish.
pub open spec fn must_flush(phase: WorkerPhase, book: LogBook) -> bool {
    phase is Flushing && !book.is_saved()
}

/// The phase after a step.
pub open spec fn phase_after_step(
    phase: WorkerPhase,
    book: LogBook,
    shutdown: bool,
) -> WorkerPhase {
    match phase_at_look(phase, shutdown) {
        WorkerPhase::Flushing => if must_flush(phase, book) {
            WorkerPhase::Syncing
        } else {
            WorkerPhase::Stopped
        },
        WorkerPhase::Syncing => WorkerPhase::Stopped,
        other => other,
    }
}

/// The directory of the logs, in the base directory.
pub open spec fn frames_dir(base: Seq<char>) -> Seq<char> {
    if base.len() == 0 || base.last() == '/' {
        base + "frames"@
    } else {
        base + "/frames"@
    }
}

/// The directory of the logs, in the base directory.
pub fn frames_dir_in(base_dir: &str) -> (dir: String)
    ensures
        dir@ == frames_dir(base_dir@),
{
    let mut whole = String::new();
    let mut open = true;
    for c in it: base_dir.chars()
        invariant
            it.seq() == base_dir@,
            whole@ == base_dir@.take(it.index()),
            open == (it.index() == 0 || base_dir@[it.index() - 1] == '/'),
    {
        assert(base_dir@.take(it.index() + 1) =~= base_dir@.take(it.index()).push(c));
        whole.push(c);
        open = c == '/';
    }
    assert(base_dir@.take(base_dir@.len() as int) =~= base_dir@);
    if open {
        whole.concat("frames")
    } else {
        whole.concat("/frames")
    }
}

/// The storage worker: it serves requests until it is told to stop, then those that are still
/// there, publishes what is unsaved of the log, and last syncs the files.
pub struct StorageWorker {
    base_dir: String,
    sync_on_shutdown: bool,
    hourly: HourlyWriter,
    metrics: StorageMetrics,
    phase: WorkerPhase,
}

impl StorageWorker {
    /// The base directory.
    pub closed spec fn base(self) -> Seq<char> {
        self.base_dir@
    }

    /// Whether the files are synced on shutdown.
    pub closed spec fn syncs(self) -> bool {
        self.sync_on_shutdown
    }

    /// The log at hand, and what is being published of the logs.
    pub closed spec fn book(self) -> LogBook {
        self.hourly@
    }

    /// The metrics so far.
    pub closed spec fn told(self) -> StorageMetrics {
        self.metrics
    }

    /// What the worker is about.
    pub closed spec fn doing(self) -> WorkerPhase {
        self.phase
    }

    /// Starts a worker on the base directory of `cfg`, with the logs in a directory below.
    pub fn new(cfg: &StorageConfig) -> (w: Self)
        ensures
            w.base() == cfg.dir@,
            w.syncs() == cfg.sync_on_shutdown,
            w.book() == LogBook::fresh(frames_dir(cfg.dir@), cfg.flush_every_n_frames as nat),
            w.book().wf(),
            w.told().persisted_frames == 0,
            w.told().last_persist_us == 0,
            w.told().max_persist_us == 0,
            w.told().last_window_id is None,
            w.told().current_hour_file is None,
            w.told().last_error is None,
            w.doing() is Serving,
    {
        StorageWorker {
            base_dir: cfg.dir.clone(),
            sync_on_shutdown: cfg.sync_on_shutdown,
            hourly: HourlyWriter::new(
                frames_dir_in(cfg.dir.as_str()),
                cfg.flush_every_n_frames,
            ),
            metrics: StorageMetrics::default(),
            phase: WorkerPhase::Serving,
        }
    }

    /// The metrics so far.
    pub fn metrics(&self) -> (m: &StorageMetrics)
        ensures
            *m == self.told(),
    {
        &self.metrics
    }

    /// What to do next, where `shutdown` tells whether the flag for it was raised.
    ///
    /// Once nothing is left to serve, this is to publish the logs with unsaved lines, if there
    /// are any, and then to sync the files.
    pub fn next_step(&mut self, shutdown: bool) -> (step: WorkerStep)
        requires
            old(self).book().wf(),
        ensures
            final(self).base() == old(self).base(),
            final(self).syncs() == old(self).syncs(),
            final(self).book() == old(self).book(),
            final(self).told() == old(self).told(),
            final(self).doing() == phase_after_step(old(self).doing(), old(self).book(), shutdown),
            match phase_at_look(old(self).doing(), shutdown) {
                WorkerPhase::Serving => step is Receive,
                WorkerPhase::Draining => step is TryReceive,
                WorkerPhase::Flushing => if must_flush(old(self).doing(), old(self).book()) {
                    step is Flush && entries(step->Flush_0@) == old(self).book().unsaved_files()
                } else {
                    step is Sync && places(step->Sync_0@) == sync_places(
                        old(self).syncs(),
                        old(self).base(),
                        old(self).book().log,
                    )
                },
                WorkerPhase::Syncing => step is Sync && places(step->Sync_0@) == sync_places(
                    old(self).syncs(),
                    old(self).base(),
                    old(self).book().log,
                ),
                WorkerPhase::Stopped => step is Stop,
            },
    {
        match self.phase {
            WorkerPhase::Serving => {
                if shutdown {
                    self.phase = WorkerPhase::Draining;
                    WorkerStep::TryReceive
                } else {
                    WorkerStep::Receive
                }
            },
            WorkerPhase::Draining => WorkerStep::TryReceive,
            WorkerPhase::Flushing => {
                if self.hourly.has_unsaved() {
                    self.phase = WorkerPhase::Syncing;
                    WorkerStep::Flush(self.hourly.unsaved_files())
                } else {
                    self.phase = WorkerPhase::Stopped;
                    WorkerStep::Sync(self.files_to_sync())
                }
            },
            WorkerPhase::Syncing => {
                self.phase = WorkerPhase::Stopped;
                WorkerStep::Sync(self.files_to_sync())
            },
            WorkerPhase::Stopped => WorkerStep::Stop,
        }
    }

    /// The files that are synced on shutdown.
    fn files_to_sync(&self) -> (list: Vec<StorePath>)
        ensures
            places(list@) == sync_places(self.syncs(), self.base(), self.book().log),
    {
        let mut list: Vec<StorePath> = Vec::new();
        if self.sync_on_shutdown {
            if let Some(path) = self.hourly.sync_all() {
                list.push(path);
            }
            let ghost first = places(list@);
            let mut rest = sync_snapshot_files(self.base_dir.as_str());
            let ghost second = places(rest@);
            list.append(&mut rest);
            assert(places(list@) =~= first + second);
        }
        assert(places(list@) =~= sync_places(self.syncs(), self.base(), self.book().log));
        list
    }

    /// Takes note of what was met, and tells whether there is a frame to persist.
    pub fn accept(&mut self, event: WorkerEvent) -> (persist: bool)
        requires
            old(self).doing() is Serving || old(self).doing() is Draining,
        ensures
            final(self).base() == old(self).base(),
            final(self).syncs() == old(self).syncs(),
            final(self).book() == old(self).book(),
            final(self).told() == old(self).told(),
            final(self).doing() == phase_after(old(self).doing(), event),
            persist == (event is Persist),
    {
        match event {
            WorkerEvent::Persist => true,
            WorkerEvent::Shutdown => {
                self.phase = WorkerPhase::Draining;
                false
            },
            WorkerEvent::Closed => {
                if self.phase == WorkerPhase::Serving {
                    self.phase = WorkerPhase::Draining;
                } else {
                    self.phase = WorkerPhase::Flushing;
                }
                false
            },
        }
    }

    /// The log that must be looked for before `frame` can be persisted.
    pub fn rotation_target(&self, frame: &AggregatedFrame) -> (path: Option<StorePath>)
        requires
            self.book().wf(),
        ensures
            path is None <==> self.book().log.is_of(unix_hour(frame.window_end))
                || self.book().has_left(unix_hour(frame.window_end)),
            path matches Some(p) ==> p@ == self.book().log.place(unix_hour(frame.window_end)),
    {
        let (unix_hour, _, _, _) = hour_key_from_system_time(frame.window_end);
        self.hourly.rotation_target(unix_hour)
    }

    /// Takes a frame into the log and gives the files to publish, in order. What comes of it is
    /// to be told to `settle`; until then nothing counts as published.
    ///
    /// The log is among the files when enough frames have come, and logs with unsaved lines that
    /// were left, because the hour has turned, come first.
    pub fn plan(
        &mut self,
        frame: &AggregatedFrame,
        stats_snapshot: Option<&Value>,
        existing: ReadOutcome,
        encoded: &Result<String, String>,
    ) -> (r: Result<Vec<Publication>, String>)
        requires
            old(self).book().wf(),
        ensures
            final(self).base() == old(self).base(),
            final(self).syncs() == old(self).syncs(),
            final(self).told() == old(self).told(),
            final(self).doing() == old(self).doing(),
            final(self).book().wf(),
            match old(self).book().turned_to(unix_hour(frame.window_end), existing) {
                None => final(self).book() == old(self).book().unasked() && r == Err::<
                    Vec<Publication>,
                    String,
                >(existing->Failed_0),
                Some(book) => match *encoded {
                    Err(reason) => final(self).book() == book && r == Err::<
                        Vec<Publication>,
                        String,
                    >(reason),
                    Ok(line) => final(self).book() == book.with_line(line@) && r is Ok && entries(
                        r->Ok_0@,
                    ) == artifacts(
                        old(self).base(),
                        book.with_line(line@),
                        line@,
                        frame.window_id,
                        frame.window_end,
                        tree_of(stats_snapshot),
                    ),
                },
            },
    {
        persist_runtime_artifacts(
            self.base_dir.as_str(),
            &mut self.hourly,
            frame,
            stats_snapshot,
            existing,
            encoded,
        )
    }

    /// Enters into the metrics and the book what came of publishing the files of a frame, and
    /// gives the answer to whoever asked for it.
    pub fn settle(
        &mut self,
        window_id: u64,
        outcome: Result<(), String>,
        elapsed_us: u128,
    ) -> (answer: Result<(), StorageError>)
        requires
            outcome is Ok ==> old(self).told().persisted_frames < u64::MAX,
            old(self).book().wf(),
        ensures
            final(self).base() == old(self).base(),
            final(self).syncs() == old(self).syncs(),
            final(self).book() == old(self).book().settled(outcome is Ok),
            final(self).book().wf(),
            final(self).doing() == old(self).doing(),
            match outcome {
                Ok(_) => answer == Ok::<(), StorageError>(()) && final(self).told().counts_success(
                    old(self).told(),
                    elapsed_us,
                    window_id,
                    old(self).book().log.hour,
                ),
                Err(reason) => answer == Err::<(), StorageError>(StorageError::WorkerFailed)
                    && final(self).told().notes_failure(old(self).told(), reason),
            },
    {
        let published = outcome.is_ok();
        let answer = persist_with_metrics(
            &mut self.metrics,
            &self.hourly,
            window_id,
            outcome,
            elapsed_us,
        );
        self.hourly.settle(published);
        answer
    }
}

/// The phase after a number of rounds, each a look under a flag and what was met, and how many
/// frames were persisted on the way.
pub open spec fn after_rounds(
    phase: WorkerPhase,
    rounds: Seq<(bool, WorkerEvent)>,
) -> (WorkerPhase, nat)
    decreases rounds.len(),
{
    if rounds.len() == 0 {
        (phase, 0)
    } else {
        let (before, served) = after_rounds(phase, rounds.drop_last());
        let (shutdown, event) = rounds.last();
        let looking = phase_at_look(before, shutdown);
        if looking is Serving || looking is Draining {
            (
                phase_after(looking, event),
                if event is Persist {
                    served + 1
                } else {
                    served
                },
            )
        } else {
            (looking, served)
        }
    }
}

/// How many of the rounds brought a request to persist a frame.
pub open spec fn requests(rounds: Seq<(bool, WorkerEvent)>) -> nat {
    rounds.filter(|round: (bool, WorkerEvent)| round.1 is Persist).len()
}

/// No request is left behind: shut down or not, the worker serves every request that it meets,
/// and it does not stop while requests keep coming.
pub proof fn law_no_request_is_left_behind(rounds: Seq<(bool, WorkerEvent)>)
    requires
        forall|i: int|
            #![trigger rounds[i]]
            0 <= i < rounds.len() ==> !(rounds[i].1 is Closed),
    ensures
        after_rounds(WorkerPhase::Serving, rounds).1 == requests(rounds),
        after_rounds(WorkerPhase::Serving, rounds).0 is Serving || after_rounds(
            WorkerPhase::Serving,
            rounds,
        ).0 is Draining,
    decreases rounds.len(),
{
    reveal(Seq::filter);
    if rounds.len() > 0 {
        let front = rounds.drop_last();
        assert forall|i: int| #![trigger front[i]] 0 <= i < front.len() implies !(
        front[i].1 is Closed) by {
            assert(front[i] == rounds[i]);
        }
        law_no_request_is_left_behind(front);
        assert(rounds[rounds.len() - 1] == rounds.last());
    }
}

/// Once told to shut down, by the flag or by a request, the worker stops as soon as it finds
/// that nothing is left: it publishes the logs with unsaved lines, then syncs the files, and
/// then is done.
pub proof fn law_shutdown_ends_when_drained(phase: WorkerPhase, book: LogBook, shutdown: bool)
    requires
        phase is Serving || phase is Draining,
    ensures
        phase_at_look(phase, true) is Draining,
        phase_after(phase, WorkerEvent::Shutdown) is Draining,
        phase_after(WorkerPhase::Draining, WorkerEvent::Closed) is Flushing,
        phase_after(phase, WorkerEvent::Persist) == phase,
        phase_after(phase_at_look(phase, shutdown), WorkerEvent::Closed) is Flushing <==> (phase
            is Draining || shutdown),
        must_flush(WorkerPhase::Flushing, book) <==> !book.is_saved(),
        phase_after_step(WorkerPhase::Flushing, book, shutdown) == (if book.is_saved() {
            WorkerPhase::Stopped
        } else {
            WorkerPhase::Syncing
        }),
        phase_after_step(WorkerPhase::Syncing, book, shutdown) is Stopped,
{
}

/// A log that is taken up again after a restart is the log that was published: nothing that was
/// written is lost, as long as every line of it survives a log.
pub proof fn law_log_survives_a_restart(log: HourLog, found: String)
    requires
        log.hour is Some,
        forall|i: int|
            #![trigger log.lines[i]]
            0 <= i < log.lines.len() ==> text::is_log_line(log.lines[i]),
        vstd::utf8::encode_utf8(found@) == log.file().bytes,
    ensures
        (HourLog { dir: log.dir, hour: None, lines: Seq::empty(), unsaved: 0 }).turned_to(
            log.hour->Some_0,
            ReadOutcome::Content(found),
        ) == Some(log.saved()),
{
    let body = text::log_text(log.lines);
    vstd::utf8::encode_utf8_decode_utf8(found@);
    vstd::utf8::encode_utf8_decode_utf8(body);
    text::law_log_reads_back(log.lines);
}

/// A frame that is persisted is in the log from then on, behind those of its hour that were
/// there before.
pub proof fn law_log_keeps_every_frame(log: HourLog, hour: int, line: Seq<char>, next: Seq<char>)
    requires
        log.is_of(hour),
    ensures
        forall|existing: ReadOutcome| #[trigger]
            log.with_line(line).turned_to(hour, existing) == Some(log.with_line(line)),
        log.with_line(line).with_line(next).lines == log.lines + seq![line, next],
{
    assert(log.with_line(line).with_line(next).lines =~= log.lines + seq![line, next]);
}

/// Frames of one hour leave the log alone where it is to be published for none of them.
/// Otherwise it is published with the frame that makes enough unsaved lines, and not before, so
/// that once a frame is settled fewer lines than that are unsaved.
pub proof fn law_log_is_published_in_time(
    book: LogBook,
    hour: int,
    existing: ReadOutcome,
    line: Seq<char>,
)
    requires
        book.wf(),
        book.log.is_of(hour),
    ensures
        book.turned_to(hour, existing) == Some(book.unasked()),
        ({
            let after = book.unasked().with_line(line);
            let due = book.every > 0 && book.log.unsaved + 1 >= book.every;
            &&& after.files() == log_files(book.left) + (if due {
                seq![book.log.with_line(line).file()]
            } else {
                Seq::empty()
            })
            &&& after.settled(true).log.unsaved == (if due {
                0
            } else {
                book.log.unsaved + 1
            })
            &&& book.every > 0 ==> after.settled(true).log.unsaved < book.every
            &&& after.settled(true).log.lines == book.log.lines.push(line)
        }),
{
}

/// When the hour turns, a log with unsaved lines is left to be published with the frame, before
/// the log of the new hour, and so is every log that was left before; once that is done, none is
/// left.
pub proof fn law_turning_saves_the_log(
    book: LogBook,
    hour: int,
    existing: ReadOutcome,
    line: Seq<char>,
)
    requires
        book.wf(),
        book.turned_to(hour, existing) is Some,
    ensures
        ({
            let after = book.turned_to(hour, existing)->Some_0.with_line(line);
            &&& forall|i: int|
                #![trigger after.left[i]]
                0 <= i < after.left.len() ==> after.files()[i] == after.left[i].file()
            &&& book.log.unsaved > 0 && !book.log.is_of(hour) ==> after.left.len() > 0
                && after.left.last() == book.log
            &&& after.settled(true).left.len() == 0
            &&& after.log.is_of(hour)
        }),
{
    if !book.log.is_of(hour) && book.has_left(hour) {
        assert(book.left[book.left_at(hour)].is_of(hour));
    }
}

/// A failure to publish loses nothing: the frame is in the log of its hour, behind those that
/// were there, and every other log with unsaved lines is kept as it was.
pub proof fn law_failure_loses_nothing(
    book: LogBook,
    hour: int,
    existing: ReadOutcome,
    line: Seq<char>,
)
    requires
        book.wf(),
        book.turned_to(hour, existing) is Some,
    ensures
        ({
            let after = book.turned_to(hour, existing)->Some_0.with_line(line).settled(false);
            &&& after.log.is_of(hour)
            &&& after.log.unsaved > 0
            &&& after.log.lines.last() == line
            &&& book.log.is_of(hour) ==> after.log == book.log.with_line(line)
            &&& !book.log.is_of(hour) && book.log.unsaved > 0 ==> after.left.contains(book.log)
            &&& forall|i: int|
                #![trigger book.left[i]]
                0 <= i < book.left.len() ==> if book.left[i].is_of(hour) {
                    after.log == book.left[i].with_line(line)
                } else {
                    after.left.contains(book.left[i])
                }
        }),
{
    let after = book.turned_to(hour, existing)->Some_0.with_line(line).settled(false);
    if !book.log.is_of(hour) {
        let at = book.left_at(hour);
        if book.has_left(hour) {
            assert(book.left[at].is_of(hour));
        }
        if book.log.unsaved > 0 {
            assert(after.left[after.left.len() - 1] == book.log);
        }
        assert forall|i: int| #![trigger book.left[i]] 0 <= i < book.left.len() implies if book.left[i].is_of(
            hour,
        ) {
            after.log == book.left[i].with_line(line)
        } else {
            after.left.contains(book.left[i])
        } by {
            if book.left[i].is_of(hour) {
                if i < at {
                    assert(book.left[i].hour != book.left[at].hour);
                } else if at < i {
                    assert(book.left[at].hour != book.left[i].hour);
                }
            } else if book.has_left(hour) && at < i {
                assert(after.left[i - 1] == book.left[i]);
            } else {
                assert(after.left[i] == book.left[i]);
            }
        }
    } else {
        assert forall|i: int| #![trigger book.left[i]] 0 <= i < book.left.len() implies if book.left[i].is_of(
            hour,
        ) {
            after.log == book.left[i].with_line(line)
        } else {
            after.left.contains(book.left[i])
        } by {
            assert(after.left[i] == book.left[i]);
        }
    }
}

/// Whenever a frame is persisted with statistics, whatever the logs are like, the statistics and
/// the snapshot of the frame and these statistics are published; without statistics, neither is.
/// Always published are the frame itself and, last of all, the index; before them come logs and
/// nothing else.
pub proof fn law_statistics_go_out_with_their_frame(
    base_dir: &str,
    hourly: &mut HourlyWriter,
    frame: &AggregatedFrame,
    stats_snapshot: Option<&Value>,
    existing: ReadOutcome,
    encoded: &Result<String, String>,
    r: Result<Vec<Publication>, String>,
)
    requires
        call_ensures(
            persist_runtime_artifacts,
            (base_dir, hourly, frame, stats_snapshot, existing, encoded),
            r,
        ),
        old(hourly)@.wf(),
        r is Ok,
    ensures
        ({
            let list = r->Ok_0@;
            let end = list.len() as int;
            let n = if stats_snapshot is Some {
                end - 4
            } else {
                end - 2
            };
            &&& *encoded is Ok
            &&& n >= 0
            &&& forall|i: int|
                #![trigger list[i]]
                0 <= i < n ==> list[i].at.dir@ == final(hourly)@.log.dir && exists|h: int|
                    list[i].at.name@ == #[trigger] hour_file(h)
            &&& list[n].at.dir@ == base_dir@
            &&& list[n].at.name@ == "latest.json"@
            &&& list[n].bytes@ == vstd::utf8::encode_utf8((*encoded)->Ok_0@)
            &&& stats_snapshot matches Some(stats) ==> {
                let told = json::rendered(json::json_tree(*stats));
                &&& list[n + 1].at.dir@ == base_dir@
                &&& list[n + 1].at.name@ == "stats.json"@
                &&& told matches Some(bytes) ==> list[n + 1].bytes@ == bytes
                &&& list[n + 2].at.dir@ == base_dir@
                &&& list[n + 2].at.name@ == "snapshot.json"@
                &&& told matches Some(bytes) ==> list[n + 2].bytes@ == vstd::utf8::encode_utf8(
                    "{\""@,
                ) + vstd::utf8::encode_utf8("latest"@) + vstd::utf8::encode_utf8("\":"@)
                    + vstd::utf8::encode_utf8((*encoded)->Ok_0@) + vstd::utf8::encode_utf8(",\""@)
                    + vstd::utf8::encode_utf8("stats"@) + vstd::utf8::encode_utf8("\":"@) + bytes
                    + vstd::utf8::encode_utf8("}"@)
                &&& told is None ==> list[n + 1].bytes@ == vstd::utf8::encode_utf8("{}"@)
                    && list[n + 2].bytes@ == vstd::utf8::encode_utf8("{}"@)
            }
            &&& stats_snapshot is None ==> forall|i: int|
                #![trigger list[i]]
                0 <= i < end ==> list[i].at.name@ != "stats.json"@ && list[i].at.name@
                    != "snapshot.json"@
            &&& list[end - 1].at.dir@ == base_dir@
            &&& list[end - 1].at.name@ == "latest"@
        }),
{
    let list = r->Ok_0@;
    let end = list.len() as int;
    let line = (*encoded)->Ok_0@;
    let hour = unix_hour(frame.window_end);
    let book = final(hourly)@;
    let shown = artifacts(
        base_dir@,
        book,
        line,
        frame.window_id,
        frame.window_end,
        tree_of(stats_snapshot),
    );
    assert(entries(list) == shown);
    assert forall|i: int| #![trigger list[i]] 0 <= i < end implies list[i]@ == shown[i] by {
        assert(entries(list)[i] == list[i]@);
    }
    let files = book.files();
    let n = files.len() as int;
    lemma_turning_keeps_the_directory(old(hourly)@, hour, existing);
    assert forall|i: int| #![trigger list[i]] 0 <= i < n implies list[i].at.dir@ == book.log.dir
        && exists|h: int| list[i].at.name@ == #[trigger] hour_file(h) by {
        assert(list[i]@ == files[i]);
        if i < book.left.len() {
            assert(book.left[i].dir == book.log.dir);
            assert(list[i].at.name@ == hour_file(book.left[i].hour->Some_0));
        } else {
            assert(list[i].at.name@ == hour_file(book.log.hour->Some_0));
        }
    }
    lemma_names_of_the_base_directory();
    if stats_snapshot is None {
        assert forall|i: int| #![trigger list[i]] 0 <= i < end implies list[i].at.name@
            != "stats.json"@ && list[i].at.name@ != "snapshot.json"@ by {
            if i < n {
                let h = choose|h: int| list[i].at.name@ == #[trigger] hour_file(h);
                reveal_strlit("hour-");
                assert(hour_file(h)[0] == 'h');
                assert(list[i].at.name@[0] == 'h');
            }
        }
    }
    assert(list[n]@ == shown[n]);
    assert(list[end - 1]@ == shown[end - 1]);
    if stats_snapshot is Some {
        assert(list[n + 1]@ == shown[n + 1]);
        assert(list[n + 2]@ == shown[n + 2]);
    }
}

/// What the names of the files of the base directory begin with.
proof fn lemma_names_of_the_base_directory()
    ensures
        "latest.json"@ != "stats.json"@ && "latest.json"@ != "snapshot.json"@,
        "latest"@ != "stats.json"@ && "latest"@ != "snapshot.json"@,
        "stats.json"@.len() > 0 && "stats.json"@[0] == 's',
        "snapshot.json"@.len() > 0 && "snapshot.json"@[0] == 's',
{
    reveal_strlit("latest.json");
    reveal_strlit("stats.json");
    reveal_strlit("snapshot.json");
    reveal_strlit("latest");
    assert("latest.json"@[0] == 'l' && "latest"@[0] == 'l');
}

/// Logs stay in their directory, and the log at hand is of the hour that was turned to.
proof fn lemma_turning_keeps_the_directory(book: LogBook, hour: int, existing: ReadOutcome)
    requires
        book.wf(),
        book.turned_to(hour, existing) is Some,
    ensures
        book.turned_to(hour, existing)->Some_0.log.dir == book.log.dir,
        book.turned_to(hour, existing)->Some_0.log.hour == Some(hour),
        book.turned_to(hour, existing)->Some_0.every == book.every,
{
    if !book.log.is_of(hour) && book.has_left(hour) {
        assert(book.left[book.left_at(hour)].is_of(hour));
    }
}

/// The index tells of the frame: its window, the second in which that ends, if it is not before
/// the epoch, and the log that the frame is in.
pub proof fn law_the_index_tells_of_the_frame(
    base_dir: &str,
    hourly: &mut HourlyWriter,
    frame: &AggregatedFrame,
    stats_snapshot: Option<&Value>,
    existing: ReadOutcome,
    encoded: &Result<String, String>,
    r: Result<Vec<Publication>, String>,
    fields: Map<Seq<char>, json::JsonTree>,
)
    requires
        call_ensures(
            persist_runtime_artifacts,
            (base_dir, hourly, frame, stats_snapshot, existing, encoded),
            r,
        ),
        old(hourly)@.wf(),
        r is Ok,
        fields.dom() == set!["window_id"@, "window_end_unix"@, "hour_file"@],
        fields["window_id"@] == json::natural_tree(frame.window_id),
        fields["window_end_unix"@] == (match frame.window_end {
            FrameTime::BeforeEpoch => json::JsonTree::Null,
            FrameTime::SinceEpoch { secs, nanos } => json::natural_tree(secs),
        }),
        fields["hour_file"@] == json::JsonTree::Text(
            hour_file(final(hourly)@.log.hour->Some_0),
        ),
    ensures
        json::rendered(json::JsonTree::Object(fields)) matches Some(bytes)
            ==> r->Ok_0@.last().bytes@ == bytes,
        json::rendered(json::JsonTree::Object(fields)) is None ==> r->Ok_0@.last().bytes@
            == vstd::utf8::encode_utf8("{}"@),
{
    let list = r->Ok_0@;
    let end = list.len() as int;
    let line = (*encoded)->Ok_0@;
    let book = final(hourly)@;
    let shown = artifacts(
        base_dir@,
        book,
        line,
        frame.window_id,
        frame.window_end,
        tree_of(stats_snapshot),
    );
    assert(entries(list) == shown);
    assert(entries(list)[end - 1] == list[end - 1]@);
    let tree = index_tree(
        frame.window_id,
        frame.window_end,
        hour_file(book.log.hour->Some_0),
    );
    reveal_strlit("window_id");
    reveal_strlit("window_end_unix");
    reveal_strlit("hour_file");
    assert("window_id"@.len() == 9 && "window_end_unix"@.len() == 15);
    assert("hour_file"@[0] == 'h' && "window_id"@[0] == 'w');
    assert(tree->Object_0 =~= fields);
}

/// To persist a frame is to add it to the log of the hour in which its window ends, whatever is
/// published beside the logs.
pub proof fn law_persisting_adds_to_the_log(
    base_dir: &str,
    hourly: &mut HourlyWriter,
    w: &mut HourlyWriter,
    frame: &AggregatedFrame,
    stats_snapshot: Option<&Value>,
    existing: ReadOutcome,
    encoded: &Result<String, String>,
    hour: i64,
    r: Result<Vec<Publication>, String>,
    logs: Result<Vec<Publication>, String>,
)
    requires
        call_ensures(
            persist_runtime_artifacts,
            (base_dir, hourly, frame, stats_snapshot, existing, encoded),
            r,
        ),
        call_ensures(HourlyWriter::append_jsonl, (w, hour, existing, encoded), logs),
        old(hourly)@ == old(w)@,
        old(hourly)@.wf(),
        match frame.window_end {
            FrameTime::BeforeEpoch => hour == 0,
            FrameTime::SinceEpoch { secs, nanos } => 3600 * hour <= secs < 3600 * (hour + 1),
        },
    ensures
        final(hourly)@ == final(w)@,
        r is Ok <==> logs is Ok,
        r is Err ==> r->Err_0@ == logs->Err_0@,
        r is Ok ==> r->Ok_0@.len() == logs->Ok_0@.len() + (if stats_snapshot is Some {
            4int
        } else {
            2
        }) && forall|i: int|
            #![trigger logs->Ok_0@[i]]
            0 <= i < logs->Ok_0@.len() ==> r->Ok_0@[i]@ == logs->Ok_0@[i]@,
{
    assert(hour == unix_hour(frame.window_end));
    if r is Ok {
        let list = r->Ok_0@;
        let first = logs->Ok_0@;
        assert(entries(list).len() == list.len());
        assert(entries(first).len() == first.len());
        assert forall|i: int| #![trigger first[i]] 0 <= i < first.len() implies list[i]@
            == first[i]@ by {
            assert(entries(list)[i] == list[i]@);
            assert(entries(first)[i] == first[i]@);
        }
    }
}

/// A frame joins the log of its hour, behind the lines that are there: those of the log at hand,
/// or of the log of that hour that was left, or else those found on the disk. It is refused only
/// where it has no JSON or what is on the disk cannot be read, and then no line is added.
pub proof fn law_a_frame_joins_the_log_of_its_hour(
    w: &mut HourlyWriter,
    unix_hour: i64,
    existing: ReadOutcome,
    encoded: &Result<String, String>,
    r: Result<Vec<Publication>, String>,
)
    requires
        call_ensures(HourlyWriter::append_jsonl, (w, unix_hour, existing, encoded), r),
        old(w)@.wf(),
    ensures
        ({
            let before = old(w)@;
            let after = final(w)@;
            let h = unix_hour as int;
            let at_hand = before.log.hour == Some(h);
            let again = exists|k: int|
                0 <= k < before.left.len() && (#[trigger] before.left[k]).hour == Some(h);
            let unreadable = !at_hand && !again && existing is Failed;
            let line = (*encoded)->Ok_0@;
            &&& after.every == before.every
            &&& after.log.dir == before.log.dir
            &&& r is Ok <==> *encoded is Ok && !unreadable
            &&& unreadable ==> r->Err_0 == existing->Failed_0 && after.log == before.log
                && after.left == before.left
            &&& !unreadable && *encoded is Err ==> r->Err_0 == (*encoded)->Err_0
            &&& !unreadable ==> after.log.hour == Some(h)
            &&& r is Ok && at_hand ==> after.log.lines == before.log.lines.push(line)
                && after.log.unsaved == before.log.unsaved + 1
            &&& r is Ok && !at_hand ==> forall|k: int|
                #![trigger before.left[k]]
                0 <= k < before.left.len() && before.left[k].hour == Some(h) ==> after.log.lines
                    == before.left[k].lines.push(line) && after.log.unsaved
                    == before.left[k].unsaved + 1
            &&& r is Ok && !at_hand && !again ==> after.log.unsaved == 1 && match existing {
                ReadOutcome::Content(found) => after.log.lines == text::solid(
                    text::lines(found@),
                ).push(line),
                _ => after.log.lines == seq![line],
            }
            &&& r is Err && !unreadable && at_hand ==> after.log == before.log
        }),
{
    let before = old(w)@;
    let h = unix_hour as int;
    if exists|k: int| 0 <= k < before.left.len() && (#[trigger] before.left[k]).hour == Some(h) {
        let k = choose|k: int|
            0 <= k < before.left.len() && (#[trigger] before.left[k]).hour == Some(h);
        assert(before.left[k].is_of(h));
        assert(before.has_left(h));
    }
    if before.has_left(h) {
        let at = before.left_at(h);
        assert(before.left[at].is_of(h));
        assert(before.left[at].hour == Some(h));
        assert forall|k: int|
            #![trigger before.left[k]]
            0 <= k < before.left.len() && before.left[k].hour == Some(h) implies k == at by {
            if k < at {
                assert(before.left[k].hour != before.left[at].hour);
            } else if at < k {
                assert(before.left[at].hour != before.left[k].hour);
            }
        }
    }
    if before.turned_to(h, existing) is Some {
        lemma_turning_keeps_the_directory(before, h, existing);
    }
    assert(r is Ok && !before.log.is_of(h) && !before.has_left(h) && existing is Missing ==> final(
        w)@.log.lines =~= seq![(*encoded)->Ok_0@]);
}

/// The logs that are left are those with unsaved lines that are not at hand: each stays as it
/// was until it is published, and is given out to be published with every frame, in the order in
/// which they were left. The log at hand is given out behind them once it has enough unsaved
/// lines, and only then.
pub proof fn law_logs_that_wait_are_given_out(
    w: &mut HourlyWriter,
    unix_hour: i64,
    existing: ReadOutcome,
    encoded: &Result<String, String>,
    r: Result<Vec<Publication>, String>,
)
    requires
        call_ensures(HourlyWriter::append_jsonl, (w, unix_hour, existing, encoded), r),
        old(w)@.wf(),
        r is Ok,
    ensures
        ({
            let before = old(w)@;
            let after = final(w)@;
            let h = unix_hour as int;
            let list = r->Ok_0@;
            let due = before.every > 0 && after.log.unsaved >= before.every;
            let waiting = after.left.len() as int;
            &&& after.asked == due
            &&& before.log.hour == Some(h) ==> after.left == before.left
            &&& before.log.hour != Some(h) && before.log.unsaved > 0 ==> waiting > 0
                && after.left.last() == before.log
            &&& forall|k: int|
                #![trigger before.left[k]]
                0 <= k < before.left.len() && before.left[k].hour != Some(h) ==> after.left.contains(
                    before.left[k],
                )
            &&& forall|k: int|
                #![trigger after.left[k]]
                0 <= k < waiting ==> before.left.contains(after.left[k]) || after.left[k]
                    == before.log
            &&& list.len() == waiting + if due {
                1int
            } else {
                0
            }
            &&& forall|i: int|
                #![trigger list[i]]
                0 <= i < waiting ==> list[i].at.dir@ == after.left[i].dir && list[i].at.name@
                    == hour_file(after.left[i].hour->Some_0) && list[i].bytes@
                    == vstd::utf8::encode_utf8(text::log_text(after.left[i].lines))
            &&& due ==> list.last().at.dir@ == after.log.dir && list.last().at.name@ == hour_file(h)
                && list.last().bytes@ == vstd::utf8::encode_utf8(text::log_text(after.log.lines))
        }),
{
    let before = old(w)@;
    let after = final(w)@;
    let h = unix_hour as int;
    let list = r->Ok_0@;
    assert forall|i: int| #![trigger list[i]] 0 <= i < list.len() implies list[i]@
        == after.files()[i] by {
        assert(entries(list)[i] == list[i]@);
    }
    assert(entries(list).len() == list.len());
    lemma_turning_keeps_the_directory(before, h, existing);
    if !before.log.is_of(h) {
        let at = before.left_at(h);
        let again = before.has_left(h);
        if again {
            assert(before.left[at].is_of(h));
        }
        let others = if again {
            before.left.remove(at)
        } else {
            before.left
        };
        assert forall|k: int|
            #![trigger before.left[k]]
            0 <= k < before.left.len() && before.left[k].hour != Some(
                h,
            ) implies after.left.contains(before.left[k]) by {
            if again && at < k {
                assert(after.left[k - 1] == before.left[k]);
            } else {
                assert(after.left[k] == before.left[k]);
            }
        }
        assert forall|k: int| #![trigger after.left[k]] 0 <= k < after.left.len() implies (
        before.left.contains(after.left[k]) || after.left[k] == before.log) by {
            if k < others.len() {
                assert(after.left[k] == others[k]);
                if again && at <= k {
                    assert(others[k] == before.left[k + 1]);
                } else {
                    assert(others[k] == before.left[k]);
                }
            }
        }
    } else {
        assert forall|k: int| #![trigger after.left[k]] 0 <= k < after.left.len() implies (
        before.left.contains(after.left[k]) || after.left[k] == before.log) by {
            assert(after.left[k] == before.left[k]);
        }
        assert forall|k: int|
            #![trigger before.left[k]]
            0 <= k < before.left.len() && before.left[k].hour != Some(
                h,
            ) implies after.left.contains(before.left[k]) by {
            assert(after.left[k] == before.left[k]);
        }
    }
}

/// Once logs that were given out are published, they count as saved; where they could not be,
/// nothing does. No line is touched either way.
pub proof fn law_only_what_is_published_counts_as_saved(w: &mut HourlyWriter, published: bool)
    requires
        call_ensures(HourlyWriter::settle, (w, published), ()),
        old(w)@.wf(),
    ensures
        final(w)@.log.lines == old(w)@.log.lines,
        final(w)@.log.hour == old(w)@.log.hour,
        final(w)@.log.dir == old(w)@.log.dir,
        final(w)@.every == old(w)@.every,
        !final(w)@.asked,
        !published ==> final(w)@.log.unsaved == old(w)@.log.unsaved && final(w)@.left == old(
            w,
        )@.left,
        published ==> final(w)@.left.len() == 0 && final(w)@.log.unsaved == (if old(w)@.asked {
            0
        } else {
            old(w)@.log.unsaved
        }),
{
}

/// To turn to an hour is to do what a frame of that hour does before it is added.
pub proof fn law_turning_comes_before_adding(
    v: &mut HourlyWriter,
    w: &mut HourlyWriter,
    unix_hour: i64,
    existing: ReadOutcome,
    encoded: &Result<String, String>,
    turned: Result<(), String>,
    r: Result<Vec<Publication>, String>,
)
    requires
        call_ensures(HourlyWriter::rotate_if_needed, (v, unix_hour, existing), turned),
        call_ensures(HourlyWriter::append_jsonl, (w, unix_hour, existing, encoded), r),
        old(v)@ == old(w)@,
        old(v)@.wf(),
    ensures
        turned is Err ==> r is Err && r->Err_0@ == turned->Err_0@ && final(w)@ == final(v)@,
        turned is Ok && *encoded is Err ==> r is Err && final(w)@ == final(v)@,
        turned is Ok && *encoded is Ok ==> {
            &&& r is Ok
            &&& final(w)@.left == final(v)@.left
            &&& final(w)@.log.hour == final(v)@.log.hour
            &&& final(w)@.log.lines == final(v)@.log.lines.push((*encoded)->Ok_0@)
            &&& final(w)@.log.unsaved == final(v)@.log.unsaved + 1
        },
        !final(v)@.asked,
{
}

/// What is looked for on the disk is the log of the hour, unless it is at hand or was left.
pub proof fn law_the_disk_is_looked_at_for_a_new_hour(
    w: &HourlyWriter,
    unix_hour: i64,
    path: Option<StorePath>,
)
    requires
        call_ensures(HourlyWriter::rotation_target, (w, unix_hour), path),
        w@.wf(),
    ensures
        path is None <==> w@.log.hour == Some(unix_hour as int) || exists|k: int|
            0 <= k < w@.left.len() && (#[trigger] w@.left[k]).hour == Some(unix_hour as int),
        path matches Some(p) ==> p.dir@ == w@.log.dir && p.name@ == hour_file(unix_hour as int),
{
    let h = unix_hour as int;
    if w@.has_left(h) {
        let at = w@.left_at(h);
        assert(w@.left[at].is_of(h));
        assert(w@.left[at].hour == Some(h));
    }
    if exists|k: int| 0 <= k < w@.left.len() && (#[trigger] w@.left[k]).hour == Some(h) {
        let k = choose|k: int| 0 <= k < w@.left.len() && (#[trigger] w@.left[k]).hour == Some(h);
        assert(w@.left[k].is_of(h));
    }
}

/// On demand, every log with unsaved lines is given out, those that were left first, and there
/// are such logs exactly where something is unsaved.
pub proof fn law_all_that_is_unsaved_is_given_out(
    w: &HourlyWriter,
    files: Vec<Publication>,
    any: bool,
)
    requires
        call_ensures(HourlyWriter::unsaved_files, (w,), files),
        call_ensures(HourlyWriter::has_unsaved, (w,), any),
        w@.wf(),
    ensures
        ({
            let list = files@;
            let waiting = w@.left.len() as int;
            &&& any <==> list.len() > 0
            &&& list.len() == waiting + if w@.log.unsaved > 0 {
                1int
            } else {
                0
            }
            &&& forall|i: int|
                #![trigger list[i]]
                0 <= i < waiting ==> list[i].at.dir@ == w@.left[i].dir && list[i].at.name@
                    == hour_file(w@.left[i].hour->Some_0) && list[i].bytes@
                    == vstd::utf8::encode_utf8(text::log_text(w@.left[i].lines))
            &&& w@.log.unsaved > 0 ==> list.last().at.dir@ == w@.log.dir && list.last().at.name@
                == hour_file(w@.log.hour->Some_0) && list.last().bytes@
                == vstd::utf8::encode_utf8(text::log_text(w@.log.lines))
        }),
{
    let list = files@;
    assert forall|i: int| #![trigger list[i]] 0 <= i < list.len() implies list[i]@
        == w@.unsaved_files()[i] by {
        assert(entries(list)[i] == list[i]@);
    }
    assert(entries(list).len() == list.len());
}

/// The log at hand has a name, a file and a place to sync exactly where there is an hour, and
/// these are of that hour.
pub proof fn law_the_log_at_hand_is_of_its_hour(
    w: &HourlyWriter,
    name: Option<String>,
    file: Option<Publication>,
    place: Option<StorePath>,
)
    requires
        call_ensures(HourlyWriter::current_hour_file, (w,), name),
        call_ensures(HourlyWriter::flush, (w,), file),
        call_ensures(HourlyWriter::sync_all, (w,), place),
    ensures
        match w@.log.hour {
            None => name is None && file is None && place is None,
            Some(h) => {
                &&& name is Some && file is Some && place is Some
                &&& name->Some_0@ == hour_file(h)
                &&& file->Some_0.at.dir@ == w@.log.dir
                &&& file->Some_0.at.name@ == hour_file(h)
                &&& file->Some_0.bytes@ == vstd::utf8::encode_utf8(text::log_text(w@.log.lines))
                &&& place->Some_0.dir@ == w@.log.dir
                &&& place->Some_0.name@ == hour_file(h)
            },
        },
{
}

/// A new log book is empty.
pub proof fn law_a_new_log_is_empty(frames_dir: String, every: u64, w: HourlyWriter)
    requires
        call_ensures(HourlyWriter::new, (frames_dir, every), w),
    ensures
        w@.log.dir == frames_dir@,
        w@.log.hour is None,
        w@.log.lines.len() == 0,
        w@.log.unsaved == 0,
        w@.left.len() == 0,
        w@.every == every,
        !w@.asked,
{
}

/// A window belongs to the hour in which it ends, and one from before the epoch to the first.
pub proof fn law_hours_are_counted_from_the_epoch(t: FrameTime, key: (i64, u32, u32, u32))
    requires
        call_ensures(hour_key_from_system_time, (t,), key),
    ensures
        match t {
            FrameTime::BeforeEpoch => key.0 == 0,
            FrameTime::SinceEpoch { secs, nanos } => 3600 * key.0 <= secs < 3600 * (key.0 + 1),
        },
        key.1 == 0 && key.2 == 0 && key.3 == 0,
{
}

/// The log of an hour is named by the decimal digits of the hour, without leading zeros, behind
/// a minus sign where the hour is before the epoch.
pub proof fn law_logs_are_named_by_their_hour(hour: i64, name: String)
    requires
        call_ensures(hour_filename, (hour,), name),
    ensures
        ({
            let row = name@.subrange(5, name@.len() - 6);
            &&& name@.len() > 11
            &&& name@ == "hour-"@ + row + ".jsonl"@
            &&& forall|i: int|
                #![trigger row[i]]
                0 <= i < row.len() && !(hour < 0 && i == 0) ==> '0' <= row[i] <= '9'
            &&& hour >= 0 ==> text::digits_value(row) == hour && (row.len() > 1 ==> row[0] != '0')
            &&& hour < 0 ==> row[0] == '-' && row.len() > 1 && row[1] != '0' && text::digits_value(
                row.skip(1),
            ) == -hour
        }),
{
    reveal_strlit("hour-");
    reveal_strlit(".jsonl");
    let row = text::decimal(hour as int);
    assert(name@.subrange(5, name@.len() - 6) =~= row);
    text::law_decimal_digits(hour as int);
}

/// A file is written aside under its name with the extension `tmp`: what follows the last dot,
/// if there is one behind the first character, is left out.
pub proof fn law_files_are_written_aside(name: &str, temp: String)
    requires
        call_ensures(temp_filename, (name,), temp),
        is_file_name(name@),
    ensures
        forall|d: int|
            1 <= d < name@.len() && #[trigger] name@[d] == '.' && (forall|j: int|
                #![trigger name@[j]]
                d < j < name@.len() ==> name@[j] != '.') ==> temp@ == name@.take(d) + ".tmp"@,
        (forall|j: int| #![trigger name@[j]] 1 <= j < name@.len() ==> name@[j] != '.') ==> temp@
            == name@ + ".tmp"@,
{
    lemma_last_dot(name@, name@.len() as int);
}

/// The last dot of a name behind its first character, where there is one.
proof fn lemma_last_dot(name: Seq<char>, k: int)
    requires
        0 <= k <= name.len(),
    ensures
        ({
            let d = last_dot(name, k);
            &&& d == 0 || (1 <= d < k && name[d] == '.')
            &&& forall|j: int| #![trigger name[j]] 1 <= j < k && d < j ==> name[j] != '.'
        }),
    decreases k,
{
    if k > 1 && name[k - 1] != '.' {
        lemma_last_dot(name, k - 1);
    }
}

/// A file is published in two steps: written whole under its temporary name in its directory,
/// and then moved from there to its own.
pub proof fn law_publishing_is_writing_and_moving(
    file: Publication,
    name: &str,
    temp: String,
    steps: (FileStep, FileStep),
)
    requires
        is_file_name(file.at.name@),
        call_ensures(atomic_write_bytes, (file,), steps),
        call_ensures(temp_filename, (name,), temp),
        name@ == file.at.name@,
    ensures
        steps.0@ == Step::Write(Place { dir: file.at.dir@, name: temp@ }, file.bytes@),
        steps.1@ == Step::Rename(Place { dir: file.at.dir@, name: temp@ }, file.at@),
{
    let list = seq![steps.0@, steps.1@];
    assert(list[0] == steps.0@ && list[1] == steps.1@);
}

/// The logs lie in the directory `frames` of the base directory.
pub proof fn law_logs_lie_in_frames(base_dir: &str, dir: String)
    requires
        call_ensures(frames_dir_in, (base_dir,), dir),
    ensures
        base_dir@.len() == 0 ==> dir@ == "frames"@,
        base_dir@.len() > 0 && base_dir@.last() == '/' ==> dir@ == base_dir@ + "frames"@,
        base_dir@.len() > 0 && base_dir@.last() != '/' ==> dir@ == base_dir@ + "/"@ + "frames"@,
{
    reveal_strlit("frames");
    reveal_strlit("/frames");
    reveal_strlit("/");
    if base_dir@.len() == 0 {
        assert(dir@ =~= "frames"@);
    } else if base_dir@.last() != '/' {
        assert(dir@ =~= base_dir@ + "/"@ + "frames"@);
    }
}

/// What came of persisting a frame is entered into the metrics: a success counts once, takes
/// over its figures, keeps the longest time and clears the error; a failure is noted and changes
/// nothing else. Whoever asked is told which of the two it was.
pub proof fn law_outcomes_are_entered(
    metrics: &mut StorageMetrics,
    hourly: &HourlyWriter,
    window_id: u64,
    outcome: Result<(), String>,
    elapsed_us: u128,
    answer: Result<(), StorageError>,
)
    requires
        call_ensures(
            persist_with_metrics,
            (metrics, hourly, window_id, outcome, elapsed_us),
            answer,
        ),
    ensures
        answer is Ok <==> outcome is Ok,
        answer is Err ==> answer->Err_0 is WorkerFailed,
        outcome is Ok ==> {
            &&& final(metrics).persisted_frames == old(metrics).persisted_frames + 1
            &&& elapsed_us <= u64::MAX ==> final(metrics).last_persist_us == elapsed_us
            &&& elapsed_us > u64::MAX ==> final(metrics).last_persist_us == u64::MAX
            &&& final(metrics).max_persist_us >= old(metrics).max_persist_us
            &&& final(metrics).max_persist_us >= final(metrics).last_persist_us
            &&& final(metrics).max_persist_us == old(metrics).max_persist_us || final(
                metrics).max_persist_us == final(metrics).last_persist_us
            &&& final(metrics).last_window_id == Some(window_id)
            &&& final(metrics).last_error is None
            &&& match hourly@.log.hour {
                Some(h) => final(metrics).current_hour_file is Some && final(
                    metrics).current_hour_file->Some_0@ == hour_file(h),
                None => final(metrics).current_hour_file is None,
            }
        },
        outcome matches Err(reason) ==> {
            &&& final(metrics).last_error == Some(reason)
            &&& final(metrics).persisted_frames == old(metrics).persisted_frames
            &&& final(metrics).last_persist_us == old(metrics).last_persist_us
            &&& final(metrics).max_persist_us == old(metrics).max_persist_us
            &&& final(metrics).last_window_id == old(metrics).last_window_id
            &&& final(metrics).current_hour_file == old(metrics).current_hour_file
        },
{
}

/// Whoever asked for a frame to be persisted hears what came of it, or that the worker took the
/// request no more, or that it went away.
pub proof fn law_requests_are_answered(
    taken: bool,
    answer: Option<Result<(), StorageError>>,
    r: Result<(), StorageError>,
)
    requires
        call_ensures(persist_answer, (taken, answer), r),
    ensures
        r is Ok <==> taken && answer matches Some(Ok(_)),
        !taken <==> r == Err::<(), StorageError>(StorageError::ChannelClosed) && !(taken
            && answer == Some(Err::<(), StorageError>(StorageError::ChannelClosed))),
        taken && answer is None ==> r == Err::<(), StorageError>(StorageError::WorkerFailed),
        taken && answer is Some ==> r == answer->Some_0,
{
}

/// A name is one for a file unless it is empty, leads elsewhere, or is nothing but dots and a
/// further part that would be taken for an extension of the directory above.
pub proof fn law_file_names_lead_nowhere(path: &StorePath, b: bool)
    requires
        call_ensures(StorePath::names_a_file, (path,), b),
    ensures
        path.name@.len() == 0 ==> !b,
        path.name@.contains('/') ==> !b,
        path.name@ == "."@ || path.name@ == ".."@ ==> !b,
        path.name@.len() > 0 && path.name@[0] != '.' && !path.name@.contains('/') ==> b,
        path.name@.len() > 1 && path.name@[1] != '.' && !path.name@.contains('/') ==> b,
        path.name@.len() > 2 && path.name@[0] == '.' && path.name@[1] == '.' && !path.name@.contains(
            '/',
        ) ==> (b <==> path.name@.skip(2).contains('.')),
{
    let name = path.name@;
    reveal_strlit(".");
    reveal_strlit("..");
    if name.len() > 2 {
        let rest = name.skip(2);
        if rest.contains('.') {
            let k = rest.index_of('.');
            assert(rest[k] == '.');
            assert(name[k + 2] == '.');
        }
        if exists|i: int| 2 <= i < name.len() && #[trigger] name[i] == '.' {
            let i = choose|i: int| 2 <= i < name.len() && #[trigger] name[i] == '.';
            assert(rest[i - 2] == '.');
        }
    }
}

/// A new worker serves, has told nothing yet, and keeps its logs below its base directory.
pub proof fn law_a_new_worker_serves(cfg: &StorageConfig, w: StorageWorker, base: &str, dir: String)
    requires
        call_ensures(StorageWorker::new, (cfg,), w),
        call_ensures(frames_dir_in, (base,), dir),
        base@ == cfg.dir@,
    ensures
        w.base() == cfg.dir@,
        w.syncs() == cfg.sync_on_shutdown,
        w.doing() is Serving,
        w.book().log.dir == dir@,
        w.book().log.hour is None,
        w.book().log.lines.len() == 0,
        w.book().log.unsaved == 0,
        w.book().left.len() == 0,
        w.book().every == cfg.flush_every_n_frames,
        w.told().persisted_frames == 0,
        w.told().last_persist_us == 0,
        w.told().max_persist_us == 0,
        w.told().last_window_id is None,
        w.told().current_hour_file is None,
        w.told().last_error is None,
{
}

/// A worker persists a frame as it is persisted into its logs and its base directory, looks for
/// the log of the hour in which the window ends, and changes nothing else.
pub proof fn law_a_worker_persists_into_its_logs(
    w: &mut StorageWorker,
    before: &StorageWorker,
    hourly: &mut HourlyWriter,
    same: &HourlyWriter,
    base: &str,
    frame: &AggregatedFrame,
    stats_snapshot: Option<&Value>,
    existing: ReadOutcome,
    encoded: &Result<String, String>,
    key: (i64, u32, u32, u32),
    target: Option<StorePath>,
    looked: Option<StorePath>,
    r: Result<Vec<Publication>, String>,
    alone: Result<Vec<Publication>, String>,
)
    requires
        call_ensures(StorageWorker::plan, (w, frame, stats_snapshot, existing, encoded), r),
        call_ensures(
            persist_runtime_artifacts,
            (base, hourly, frame, stats_snapshot, existing, encoded),
            alone,
        ),
        call_ensures(StorageWorker::rotation_target, (before, frame), target),
        call_ensures(hour_key_from_system_time, (frame.window_end,), key),
        call_ensures(HourlyWriter::rotation_target, (same, key.0), looked),
        base@ == old(w).base(),
        before.book() == old(w).book(),
        same@ == old(w).book(),
        old(hourly)@ == old(w).book(),
        old(w).book().wf(),
    ensures
        final(w).book() == final(hourly)@,
        r is Ok <==> alone is Ok,
        r is Ok ==> entries(r->Ok_0@) == entries(alone->Ok_0@),
        r is Err ==> r->Err_0@ == alone->Err_0@,
        final(w).base() == old(w).base(),
        final(w).syncs() == old(w).syncs(),
        final(w).told() == old(w).told(),
        final(w).doing() == old(w).doing(),
        target is Some <==> looked is Some,
        target matches Some(p) ==> p@ == looked->Some_0@,
{
}

/// A worker enters what came of a frame into its metrics and its logs, and changes nothing else.
pub proof fn law_a_worker_enters_outcomes(
    w: &mut StorageWorker,
    metrics: &mut StorageMetrics,
    hourly: &mut HourlyWriter,
    same: &HourlyWriter,
    window_id: u64,
    outcome: Result<(), String>,
    elapsed_us: u128,
    answer: Result<(), StorageError>,
    alone: Result<(), StorageError>,
)
    requires
        call_ensures(StorageWorker::settle, (w, window_id, outcome, elapsed_us), answer),
        call_ensures(
            persist_with_metrics,
            (metrics, same, window_id, outcome, elapsed_us),
            alone,
        ),
        call_ensures(HourlyWriter::settle, (hourly, outcome is Ok), ()),
        *old(metrics) == old(w).told(),
        same@ == old(w).book(),
        old(hourly)@ == old(w).book(),
        old(w).book().wf(),
    ensures
        final(w).book() == final(hourly)@,
        answer is Ok <==> alone is Ok,
        answer is Err ==> answer->Err_0 == alone->Err_0,
        final(w).told().persisted_frames == final(metrics).persisted_frames,
        final(w).told().last_persist_us == final(metrics).last_persist_us,
        final(w).told().max_persist_us == final(metrics).max_persist_us,
        final(w).told().last_window_id == final(metrics).last_window_id,
        final(w).told().last_error == final(metrics).last_error,
        final(w).told().current_hour_file is Some <==> final(metrics).current_hour_file is Some,
        final(w).told().current_hour_file matches Some(name) ==> name@ == final(
            metrics).current_hour_file->Some_0@,
        final(w).base() == old(w).base(),
        final(w).syncs() == old(w).syncs(),
        final(w).doing() == old(w).doing(),
{
}

/// A worker waits for requests while it serves and no flag is raised, looks for those that are
/// left once one is, and when none is left publishes every log with unsaved lines, syncs what is
/// to be synced, and stops. No step changes the logs, the metrics or the settings.
pub proof fn law_a_worker_works_down_to_a_stop(
    w: &mut StorageWorker,
    shutdown: bool,
    step: WorkerStep,
)
    requires
        call_ensures(StorageWorker::next_step, (w, shutdown), step),
        old(w).book().wf(),
    ensures
        final(w).base() == old(w).base(),
        final(w).syncs() == old(w).syncs(),
        final(w).book() == old(w).book(),
        final(w).told() == old(w).told(),
        old(w).doing() is Serving && !shutdown ==> step is Receive && final(w).doing() is Serving,
        old(w).doing() is Serving && shutdown ==> step is TryReceive && final(
            w).doing() is Draining,
        old(w).doing() is Draining ==> step is TryReceive && final(w).doing() is Draining,
        old(w).doing() is Flushing && (old(w).book().left.len() > 0 || old(w).book().log.unsaved
            > 0) ==> step is Flush && final(w).doing() is Syncing && step->Flush_0@.len()
            == old(w).book().left.len() + if old(w).book().log.unsaved > 0 {
            1int
        } else {
            0
        },
        old(w).doing() is Flushing && old(w).book().left.len() == 0 && old(w).book().log.unsaved
            == 0 ==> step is Sync && final(w).doing() is Stopped,
        old(w).doing() is Syncing ==> step is Sync && final(w).doing() is Stopped,
        old(w).doing() is Stopped ==> step is Stop && final(w).doing() is Stopped,
        step matches WorkerStep::Flush(files) ==> forall|i: int|
            #![trigger files@[i]]
            0 <= i < files@.len() ==> {
                let log = if i < old(w).book().left.len() {
                    old(w).book().left[i]
                } else {
                    old(w).book().log
                };
                &&& files@[i].at.dir@ == log.dir
                &&& files@[i].at.name@ == hour_file(log.hour->Some_0)
                &&& files@[i].bytes@ == vstd::utf8::encode_utf8(text::log_text(log.lines))
            },
        step matches WorkerStep::Sync(list) ==> {
            let n: int = if old(w).book().log.hour is Some {
                1
            } else {
                0
            };
            &&& !old(w).syncs() ==> list@.len() == 0
            &&& old(w).syncs() ==> list@.len() == n + 4
            &&& old(w).syncs() ==> list@[n].dir@ == old(w).base() && list@[n].name@
                == "latest.json"@
            &&& old(w).syncs() ==> list@[n + 1].dir@ == old(w).base() && list@[n + 1].name@
                == "latest"@
            &&& old(w).syncs() ==> list@[n + 2].dir@ == old(w).base() && list@[n + 2].name@
                == "stats.json"@
            &&& old(w).syncs() ==> list@[n + 3].dir@ == old(w).base() && list@[n + 3].name@
                == "snapshot.json"@
            &&& old(w).syncs() && n == 1 ==> list@[0].dir@ == old(w).book().log.dir
                && list@[0].name@ == hour_file(old(w).book().log.hour->Some_0)
        },
{
    let book = old(w).book();
    match step {
        WorkerStep::Flush(files) => {
            let list = files@;
            assert(entries(list).len() == list.len());
            assert forall|i: int| #![trigger list[i]] 0 <= i < list.len() implies list[i]@
                == book.unsaved_files()[i] by {
                assert(entries(list)[i] == list[i]@);
            }
        },
        WorkerStep::Sync(paths) => {
            let list = paths@;
            let told = sync_places(old(w).syncs(), old(w).base(), book.log);
            assert(places(list).len() == list.len());
            assert forall|i: int| #![trigger list[i]] 0 <= i < list.len() implies list[i]@
                == told[i] by {
                assert(places(list)[i] == list[i]@);
            }
        },
        _ => {},
    }
}

/// A worker takes every request to persist a frame, and none after it; a request to shut down
/// ends the serving, and so does a closed channel, and once nothing is left the logs are next.
pub proof fn law_a_worker_takes_note_of_what_it_meets(
    w: &mut StorageWorker,
    event: WorkerEvent,
    persist: bool,
)
    requires
        call_ensures(StorageWorker::accept, (w, event), persist),
        old(w).doing() is Serving || old(w).doing() is Draining,
    ensures
        persist <==> event is Persist,
        event is Persist ==> final(w).doing() == old(w).doing(),
        event is Shutdown ==> final(w).doing() is Draining,
        event is Closed && old(w).doing() is Serving ==> final(w).doing() is Draining,
        event is Closed && old(w).doing() is Draining ==> final(w).doing() is Flushing,
        final(w).base() == old(w).base(),
        final(w).syncs() == old(w).syncs(),
        final(w).book() == old(w).book(),
        final(w).told() == old(w).told(),
{
}

/// The files of the base directory that are synced are those that a frame leaves there.
pub proof fn law_all_of_the_base_directory_is_synced(base_dir: &str, list: Vec<StorePath>)
    requires
        call_ensures(sync_snapshot_files, (base_dir,), list),
    ensures
        list@.len() == 4,
        forall|i: int| #![trigger list@[i]] 0 <= i < 4 ==> list@[i].dir@ == base_dir@,
        list@[0].name@ == "latest.json"@,
        list@[1].name@ == "latest"@,
        list@[2].name@ == "stats.json"@,
        list@[3].name@ == "snapshot.json"@,
{
    let told = snapshot_places(base_dir@);
    assert(places(list@).len() == list@.len());
    assert forall|i: int| #![trigger list@[i]] 0 <= i < list@.len() implies list@[i]@
        == told[i] by {
        assert(places(list@)[i] == list@[i]@);
    }
}

/// A worker gives out the metrics that it keeps.
pub proof fn law_metrics_are_given_out(w: &StorageWorker, m: &StorageMetrics)
    requires
        call_ensures(StorageWorker::metrics, (w,), m),
    ensures
        *m == w.told(),
{
}

} // verus!
