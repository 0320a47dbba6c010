//! Log entries on their way to the user interface: how they are made, how
//! they are handed on in batches, and how many of them are kept.

use vstd::prelude::*;
use crate::model::text_of;
use crate::seqs::{lemma_views_push, views};
use crate::text::{owned, str_eq};

verus! {

/// How many entries the buffer keeps.
pub const MAX_BUFFER_SIZE: usize = 1000;

/// How many entries make a batch.
pub const BATCH_SIZE: usize = 20;

/// After how many milliseconds a batch is handed on, however small it is.
pub const BATCH_INTERVAL_MS: u64 = 75;

/// How grave a log entry is.
#[derive(Debug, Clone, Copy, PartialEq, Eq, Structural)]
pub enum LogLevel {
    Error,
    Warn,
    Info,
    Debug,
    Trace,
}

/// The name of a level, as it is shown.
pub open spec fn level_name(level: LogLevel) -> Seq<char> {
    match level {
        LogLevel::Error => "ERROR"@,
        LogLevel::Warn => "WARN"@,
        LogLevel::Info => "INFO"@,
        LogLevel::Debug => "DEBUG"@,
        LogLevel::Trace => "TRACE"@,
    }
}

/// One log entry, as it is shown.
#[derive(Debug, PartialEq, Eq)]
pub struct LogEntry {
    pub timestamp: String,
    pub level: String,
    pub target: String,
    pub message: String,
}

/// What a `LogEntry` stands for.
pub struct LogRecord {
    pub timestamp: Seq<char>,
    pub level: Seq<char>,
    pub target: Seq<char>,
    pub message: Seq<char>,
}

impl View for LogEntry {
    type V = LogRecord;

    open spec fn view(&self) -> LogRecord {
        LogRecord {
            timestamp: self.timestamp@,
            level: self.level@,
            target: self.target@,
            message: self.message@,
        }
    }
}

impl Clone for LogEntry {
    fn clone(&self) -> (r: Self)
        ensures
            r == *self,
    {
        LogEntry {
            timestamp: self.timestamp.clone(),
            level: self.level.clone(),
            target: self.target.clone(),
            message: self.message.clone(),
        }
    }
}

/// Collects the message and the target from the fields of an event.
#[derive(Debug, PartialEq, Eq)]
pub struct MessageVisitor {
    pub message: String,
    pub fe_target: Option<String>,
}

impl MessageVisitor {
    /// A visitor that has seen no field.
    pub fn new() -> (r: MessageVisitor)
        ensures
            r.message@ == Seq::<char>::empty(),
            r.fe_target is None,
    {
        MessageVisitor { message: String::new(), fe_target: None }
    }

    /// Takes in a field that holds text: the field `frontend_target` sets
    /// the target, any other is passed over.
    pub fn record_str(&mut self, field: &str, value: &str)
        ensures
            final(self).message@ == old(self).message@,
            text_of(final(self).fe_target) == if field@ == "frontend_target"@ {
                Some(value@)
            } else {
                text_of(old(self).fe_target)
            },
    {
        if str_eq(field, "frontend_target") {
            self.fe_target = Some(owned(value));
        }
    }

    /// Takes in a field by its debug text: the field `message` sets the
    /// message, the field `frontend_target` the target, any other is passed over.
    pub fn record_debug(&mut self, field: &str, value: &str)
        ensures
            final(self).message@ == if field@ == "message"@ {
                value@
            } else {
                old(self).message@
            },
            text_of(final(self).fe_target) == if field@ != "message"@ && field@
                == "frontend_target"@ {
                Some(value@)
            } else {
                text_of(old(self).fe_target)
            },
    {
        if str_eq(field, "message") {
            self.message = owned(value);
        } else if str_eq(field, "frontend_target") {
            self.fe_target = Some(owned(value));
        }
    }
}

impl LogEntry {
    /// The entry of an event seen at `timestamp`: with the target that the
    /// visitor found, or else the target of the event itself.
    pub fn new(timestamp: String, level: LogLevel, event_target: &str, seen: MessageVisitor) -> (r:
        LogEntry)
        ensures
            r@ == (LogRecord {
                timestamp: timestamp@,
                level: level_name(level),
                target: match seen.fe_target {
                    Some(t) => t@,
                    None => event_target@,
                },
                message: seen.message@,
            }),
    {
        let level_text = match level {
            LogLevel::Error => owned("ERROR"),
            LogLevel::Warn => owned("WARN"),
            LogLevel::Info => owned("INFO"),
            LogLevel::Debug => owned("DEBUG"),
            LogLevel::Trace => owned("TRACE"),
        };
        let target = match seen.fe_target {
            Some(t) => t,
            None => owned(event_target),
        };
        LogEntry { timestamp, level: level_text, target, message: seen.message }
    }
}

/// What a `RateLimiter` stands for.
pub struct LimiterView {
    pub batch: Seq<LogRecord>,
    pub last_flush_ms: u64,
}

impl LimiterView {
    /// Whether the batch is to be handed on at `now_ms`: it is full, or the
    /// interval since the last batch is over.
    pub open spec fn full_or_late(self, now_ms: u64) -> bool {
        self.batch.len() >= BATCH_SIZE || (now_ms >= self.last_flush_ms && now_ms
            - self.last_flush_ms >= BATCH_INTERVAL_MS)
    }
}

/// Hands log entries on in batches.
#[derive(Debug)]
pub struct RateLimiter {
    batch: Vec<LogEntry>,
    last_flush_ms: u64,
}

impl View for RateLimiter {
    type V = LimiterView;

    closed spec fn view(&self) -> LimiterView {
        LimiterView { batch: views(self.batch@), last_flush_ms: self.last_flush_ms }
    }
}

impl RateLimiter {
    /// A limiter with an empty batch, started at `now_ms`.
    pub fn new(now_ms: u64) -> (r: RateLimiter)
        ensures
            r@ == (LimiterView { batch: Seq::empty(), last_flush_ms: now_ms }),
    {
        let r = RateLimiter { batch: Vec::new(), last_flush_ms: now_ms };
        assert(views(r.batch@) =~= Seq::<LogRecord>::empty());
        r
    }

    /// Whether the batch is to be handed on at `now_ms`.
    pub fn should_flush(&self, now_ms: u64) -> (r: bool)
        ensures
            r == self@.full_or_late(now_ms),
    {
        self.batch.len() >= BATCH_SIZE || (now_ms >= self.last_flush_ms && now_ms
            - self.last_flush_ms >= BATCH_INTERVAL_MS)
    }

    /// Takes in an entry at `now_ms`, and hands on the batch with it where
    /// the batch is then full or late.
    pub fn add(&mut self, entry: LogEntry, now_ms: u64) -> (r: Option<Vec<LogEntry>>)
        ensures
            ({
                let grown = LimiterView {
                    batch: old(self)@.batch.push(entry@),
                    last_flush_ms: old(self)@.last_flush_ms,
                };
                match r {
                    Some(batch) => grown.full_or_late(now_ms) && views(batch@) == grown.batch
                        && final(self)@ == (LimiterView {
                        batch: Seq::empty(),
                        last_flush_ms: now_ms,
                    }),
                    None => !grown.full_or_late(now_ms) && final(self)@ == grown,
                }
            }),
    {
        proof {
            lemma_views_push(self.batch@, entry);
        }
        self.batch.push(entry);
        if self.should_flush(now_ms) {
            let mut out: Vec<LogEntry> = Vec::new();
            core::mem::swap(&mut self.batch, &mut out);
            self.last_flush_ms = now_ms;
            assert(views(self.batch@) =~= Seq::<LogRecord>::empty());
            Some(out)
        } else {
            None
        }
    }

    /// Hands on the batch at `now_ms`, unless it is empty.
    pub fn flush(&mut self, now_ms: u64) -> (r: Option<Vec<LogEntry>>)
        ensures
            match r {
                Some(batch) => old(self)@.batch.len() > 0 && views(batch@) == old(self)@.batch
                    && final(self)@ == (LimiterView {
                    batch: Seq::empty(),
                    last_flush_ms: now_ms,
                }),
                None => old(self)@.batch.len() == 0 && final(self)@ == old(self)@,
            },
    {
        if self.batch.len() > 0 {
            let mut out: Vec<LogEntry> = Vec::new();
            core::mem::swap(&mut self.batch, &mut out);
            self.last_flush_ms = now_ms;
            assert(views(self.batch@) =~= Seq::<LogRecord>::empty());
            Some(out)
        } else {
            None
        }
    }
}

/// The entries after `entry` was added to a buffer that keeps at most
/// `MAX_BUFFER_SIZE`: the oldest leaves where the buffer was full.
pub open spec fn buffered(buffer: Seq<LogRecord>, entry: LogRecord) -> Seq<LogRecord> {
    if buffer.len() >= MAX_BUFFER_SIZE {
        buffer.drop_first().push(entry)
    } else {
        buffer.push(entry)
    }
}

/// The log entries that are kept for the user interface, oldest first.
#[derive(Debug)]
pub struct LogState {
    buffer: Vec<LogEntry>,
}

impl View for LogState {
    type V = Seq<LogRecord>;

    closed spec fn view(&self) -> Seq<LogRecord> {
        views(self.buffer@)
    }
}

impl LogState {
    /// An empty buffer.
    pub fn new() -> (r: LogState)
        ensures
            r@ == Seq::<LogRecord>::empty(),
    {
        let r = LogState { buffer: Vec::new() };
        assert(views(r.buffer@) =~= Seq::<LogRecord>::empty());
        r
    }

    /// Adds an entry. Where the buffer is full, the oldest entry leaves.
    pub fn add_to_buffer(&mut self, entry: LogEntry)
        ensures
            final(self)@ == buffered(old(self)@, entry@),
    {
        if self.buffer.len() >= MAX_BUFFER_SIZE {
            let ghost before = views(self.buffer@);
            let _ = self.buffer.remove(0);
            assert(views(self.buffer@) =~= before.drop_first());
        }
        proof {
            lemma_views_push(self.buffer@, entry);
        }
        self.buffer.push(entry);
    }

    /// How many entries are kept.
    pub fn len(&self) -> (r: usize)
        ensures
            r == self@.len(),
    {
        self.buffer.len()
    }

    /// The entries that are kept, oldest first.
    pub fn entries(&self) -> (r: &Vec<LogEntry>)
        ensures
            views(r@) == self@,
    {
        &self.buffer
    }
}

/// Where log entries go.
#[derive(Debug, PartialEq, Eq)]
pub enum LogTarget {
    /// To the standard output.
    Stdout,
    /// To the user interface.
    Webview,
    /// To a file in the log directory of the application.
    LogDir { file_name: Option<String> },
    /// To a file in the folder at `path`.
    Folder { path: String, file_name: Option<String> },
}

/// When log files are rotated.
#[derive(Debug, Clone, Copy, PartialEq, Eq, Structural)]
pub enum RotationStrategy {
    /// Log files are not rotated.
    Never,
    /// Log files are rotated every day.
    Daily,
}

impl Default for RotationStrategy {
    fn default() -> (r: Self)
        ensures
            r == RotationStrategy::Never,
    {
        RotationStrategy::Never
    }
}

/// How log files are rotated.
#[derive(Debug, Clone, Copy, PartialEq, Eq, Structural)]
pub struct RotationConfig {
    pub strategy: RotationStrategy,
    /// How many log files are kept.
    pub max_files: Option<usize>,
}

impl Default for RotationConfig {
    fn default() -> (r: Self)
        ensures
            r == (RotationConfig { strategy: RotationStrategy::Never, max_files: Some(5usize) }),
    {
        RotationConfig { strategy: RotationStrategy::Never, max_files: default_max_files() }
    }
}

/// The targets of a configuration that names none: the standard output.
pub fn default_targets() -> (r: Vec<LogTarget>)
    ensures
        r@ == seq![LogTarget::Stdout],
{
    let mut r: Vec<LogTarget> = Vec::new();
    r.push(LogTarget::Stdout);
    assert(r@ =~= seq![LogTarget::Stdout]);
    r
}

/// The number of log files that a configuration keeps where it names none.
pub fn default_max_files() -> (r: Option<usize>)
    ensures
        r == Some(5usize),
{
    Some(5)
}

} // verus!
