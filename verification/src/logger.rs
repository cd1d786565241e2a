//! The decisions of the application log: which records pass the level
//! filter, when a new daily file is due, and how a line reads. Opening files
//! and writing to them is left to the caller, who is handed what to do.

use vstd::prelude::*;
use vstd::string::StringExecFns;

verus! {

/// How detailed a record is. A record passes when its level is at most the
/// level in force.
#[derive(Clone, Copy, Debug, PartialEq, Eq, Structural)]
pub enum LogLevel {
    ERROR,
    INFO,
    DEBUG,
}

impl LogLevel {
    /// The rank of the level: 0 for errors, 1 for information, 2 for
    /// debugging.
    pub open spec fn spec_rank(self) -> u8 {
        match self {
            LogLevel::ERROR => 0,
            LogLevel::INFO => 1,
            LogLevel::DEBUG => 2,
        }
    }

    /// The rank of the level.
    #[verifier::when_used_as_spec(spec_rank)]
    pub fn rank(self) -> (r: u8)
        ensures
            r == self.spec_rank(),
    {
        match self {
            LogLevel::ERROR => 0,
            LogLevel::INFO => 1,
            LogLevel::DEBUG => 2,
        }
    }

    /// The level that a label stands for; an unknown label counts as
    /// information.
    pub open spec fn spec_from_label(label: Seq<char>) -> LogLevel {
        if label == "ERROR"@ {
            LogLevel::ERROR
        } else if label == "DEBUG"@ {
            LogLevel::DEBUG
        } else {
            LogLevel::INFO
        }
    }

    /// The level that a label stands for.
    pub fn from_label(label: &str) -> (level: LogLevel)
        ensures
            level == LogLevel::spec_from_label(label@),
    {
        let owned = label.to_owned();
        if owned == "ERROR".to_owned() {
            LogLevel::ERROR
        } else if owned == "DEBUG".to_owned() {
            LogLevel::DEBUG
        } else {
            LogLevel::INFO
        }
    }
}

/// The pattern of a date, which also names the day's file.
pub open spec fn date_pattern() -> Seq<char> {
    "%Y-%m-%d"@
}

/// The pattern of a record's time stamp.
pub open spec fn time_pattern() -> Seq<char> {
    "%Y-%m-%d %H:%M:%S.%3f"@
}

/// `chrono::Local::now`, rendered by `DateTime::format` with `pattern` and
/// `to_string`. Nothing is claimed of the text, which depends on the clock and
/// the time zone. The two patterns admitted are ones that chrono can render:
/// on a pattern that it cannot, `to_string` panics. On a machine whose clock
/// stands before 1970, `now` itself panics.
#[verifier::external_body]
fn local_now(pattern: &str) -> (text: String)
    requires
        pattern@ == date_pattern() || pattern@ == time_pattern(),
{
    chrono::Local::now().format(pattern).to_string()
}

/// Today's date in local time, as year, month and day.
fn get_current_date() -> String {
    local_now("%Y-%m-%d")
}

/// The local time with milliseconds.
fn get_current_time() -> String {
    local_now("%Y-%m-%d %H:%M:%S.%3f")
}

/// The name of the log file of the day `date`.
pub open spec fn log_file_name(date: Seq<char>) -> Seq<char> {
    date + ".log"@
}

/// A record as it is written: the time stamp and the label in brackets, the
/// thread's name, a dash, the message as it is, and a line feed.
pub open spec fn log_line(
    timestamp: Seq<char>,
    label: Seq<char>,
    thread_name: Seq<char>,
    message: Seq<char>,
) -> Seq<char> {
    "["@ + timestamp + "] ["@ + label + "] "@ + thread_name + " - "@ + message + "\n"@
}

/// Whether a line is the record of the given label, thread and message at
/// some time.
pub open spec fn is_line_of(
    line: Seq<char>,
    label: Seq<char>,
    thread_name: Seq<char>,
    message: Seq<char>,
) -> bool {
    exists|timestamp: Seq<char>| line == #[trigger] log_line(timestamp, label, thread_name, message)
}

/// What the caller is to do for one record, in this order.
#[derive(Debug)]
pub struct LogAction {
    /// The name of the file to open for appending, where the file in use is
    /// not today's. When opening fails, nothing is written.
    pub open: Option<String>,
    /// The line to append to the file in use and to flush, where the record
    /// passes the filter.
    pub line: Option<String>,
}

/// The state of the log: the date of the file in use, and whether the caller
/// holds that file open.
#[derive(Debug)]
pub struct Logger {
    pub current_date: String,
    pub has_file: bool,
}

impl Logger {
    /// A log without a file, dated today.
    pub fn new() -> (logger: Logger)
        ensures
            !logger.has_file,
    {
        Logger { current_date: get_current_date(), has_file: false }
    }

    /// Whether a new file is due on the day `today`: when the date has
    /// changed, or when no file is open.
    pub open spec fn file_due(self, today: Seq<char>) -> bool {
        self.current_date@ != today || !self.has_file
    }

    /// Decides, on the day `today`, whether a new file is due. If so, the
    /// log takes the new date and the file's name is returned.
    pub fn plan_log_file(&mut self, today: &str) -> (open: Option<String>)
        ensures
            final(self).has_file == old(self).has_file,
            old(self).file_due(today@) ==> open is Some && open->Some_0@ == log_file_name(today@)
                && final(self).current_date@ == today@,
            !old(self).file_due(today@) ==> open is None && *final(self) == *old(self),
    {
        let date = today.to_owned();
        if self.current_date != date || !self.has_file {
            let name = date.clone().concat(".log");
            self.current_date = date;
            Some(name)
        } else {
            None
        }
    }

    /// Decides whether a new file is due today.
    pub fn ensure_log_file(&mut self) -> (open: Option<String>)
        ensures
            final(self).has_file == old(self).has_file,
            open is Some ==> open->Some_0@ == log_file_name(final(self).current_date@),
            open is None ==> *final(self) == *old(self) && old(self).has_file,
    {
        let today = get_current_date();
        self.plan_log_file(today.as_str())
    }

    /// Records that the caller opened the file that was due.
    pub fn file_opened(&mut self)
        ensures
            final(self).has_file,
            final(self).current_date == old(self).current_date,
    {
        self.has_file = true;
    }

    /// Puts `level` in force.
    pub fn set_log_level(state: &mut LogState, level: LogLevel)
        ensures
            final(state).level == level,
            final(state).logger == old(state).logger,
    {
        state.level = level;
    }

    /// Whether a record of `level` passes while `current` is in force.
    pub fn match_log_level(level: LogLevel, current: LogLevel) -> (pass: bool)
        ensures
            pass == (level.spec_rank() <= current.spec_rank()),
    {
        level.rank() <= current.rank()
    }

    /// Plans one record at a given moment: the file to open if one is due on
    /// the day `today`, and the line to write if the label's level passes
    /// while `current` is in force.
    pub fn record(
        &mut self,
        label: &str,
        thread_name: &str,
        message: &str,
        current: LogLevel,
        today: &str,
        timestamp: &str,
    ) -> (action: LogAction)
        ensures
            final(self).has_file == old(self).has_file,
            old(self).file_due(today@) ==> action.open is Some && action.open->Some_0@
                == log_file_name(today@) && final(self).current_date@ == today@,
            !old(self).file_due(today@) ==> action.open is None && *final(self) == *old(self),
            LogLevel::spec_from_label(label@).spec_rank() <= current.spec_rank() ==> action.line
                is Some && action.line->Some_0@ == log_line(
                timestamp@,
                label@,
                thread_name@,
                message@,
            ),
            LogLevel::spec_from_label(label@).spec_rank() > current.spec_rank() ==> action.line
                is None,
    {
        let open = self.plan_log_file(today);
        if !Logger::match_log_level(LogLevel::from_label(label), current) {
            return LogAction { open, line: None };
        }
        let mut line = "[".to_owned();
        line.append(timestamp);
        line.append("] [");
        line.append(label);
        line.append("] ");
        line.append(thread_name);
        line.append(" - ");
        line.append(message);
        line.append("\n");
        LogAction { open, line: Some(line) }
    }

    /// Plans one record now.
    pub fn write(&mut self, label: &str, thread_name: &str, message: &str, current: LogLevel) -> (action:
        LogAction)
        ensures
            final(self).has_file == old(self).has_file,
            action.open is Some ==> action.open->Some_0@ == log_file_name(
                final(self).current_date@,
            ),
            action.open is None ==> *final(self) == *old(self) && old(self).has_file,
            action.line is Some <==> LogLevel::spec_from_label(label@).spec_rank()
                <= current.spec_rank(),
            action.line is Some ==> is_line_of(action.line->Some_0@, label@, thread_name@, message@),
    {
        let today = get_current_date();
        let timestamp = get_current_time();
        let action = self.record(
            label,
            thread_name,
            message,
            current,
            today.as_str(),
            timestamp.as_str(),
        );
        proof {
            if action.line is Some {
                assert(action.line->Some_0@ == log_line(
                    timestamp@,
                    label@,
                    thread_name@,
                    message@,
                ));
            }
        }
        action
    }
}

/// The log of a process: the logger, once it is set up, and the level in
/// force.
#[derive(Debug)]
pub struct LogState {
    pub logger: Option<Logger>,
    pub level: LogLevel,
}

impl LogState {
    /// A log that is not set up, with information as the level in force.
    pub fn new() -> (state: LogState)
        ensures
            state.logger is None,
            state.level == LogLevel::INFO,
    {
        LogState { logger: None, level: LogLevel::INFO }
    }
}

/// Sets the logger up. A second call fails and changes nothing.
pub fn init_logger(state: &mut LogState) -> (r: Result<(), String>)
    ensures
        final(state).level == old(state).level,
        old(state).logger is Some ==> r is Err && r->Err_0@ == "Logger already initialized"@
            && *final(state) == *old(state),
        old(state).logger is None ==> r is Ok && final(state).logger is Some
            && !final(state).logger->Some_0.has_file,
{
    if state.logger.is_some() {
        return Err("Logger already initialized".to_owned());
    }
    state.logger = Some(Logger::new());
    Ok(())
}

/// Puts `level` in force.
pub fn set_log_level(state: &mut LogState, level: LogLevel)
    ensures
        final(state).level == level,
        final(state).logger == old(state).logger,
{
    Logger::set_log_level(state, level);
}

/// Plans a record with the given label, if the logger is set up.
fn log_with_label(state: &mut LogState, label: &str, thread_name: &str, message: &str) -> (action:
    Option<LogAction>)
    ensures
        final(state).level == old(state).level,
        old(state).logger is None ==> action is None && *final(state) == *old(state),
        old(state).logger is Some ==> ({
            let before = old(state).logger->Some_0;
            let after = final(state).logger->Some_0;
            let planned = action->Some_0;
            &&& action is Some
            &&& final(state).logger is Some
            &&& after.has_file == before.has_file
            &&& planned.line is Some <==> LogLevel::spec_from_label(label@).spec_rank() <= old(state).level.spec_rank()
            &&& planned.line is Some ==> is_line_of(planned.line->Some_0@, label@, thread_name@, message@)
            &&& planned.open is Some ==> planned.open->Some_0@ == log_file_name(after.current_date@)
            &&& planned.open is None ==> after == before && before.has_file
        }),
{
    let level = state.level;
    match state.logger.take() {
        None => None,
        Some(mut logger) => {
            let action = logger.write(label, thread_name, message, level);
            state.logger = Some(logger);
            Some(action)
        },
    }
}

/// Plans an error record: nothing when the logger is not set up, and
/// otherwise the file to open, if one is due, and the line, which always
/// passes.
pub fn log_error(state: &mut LogState, thread_name: &str, message: &str) -> (action: Option<LogAction>)
    ensures
        final(state).level == old(state).level,
        old(state).logger is None ==> action is None && *final(state) == *old(state),
        old(state).logger is Some ==> action is Some && final(state).logger is Some
            && action->Some_0.line is Some && is_line_of(
            action->Some_0.line->Some_0@,
            "ERROR"@,
            thread_name@,
            message@,
        ),
        action is Some && action->Some_0.open is Some ==> action->Some_0.open->Some_0@
            == log_file_name(final(state).logger->Some_0.current_date@),
        action is Some && action->Some_0.open is None ==> final(state).logger == old(state).logger,
        old(state).logger is Some ==> final(state).logger->Some_0.has_file == old(state).logger->Some_0.has_file,
{
    log_with_label(state, "ERROR", thread_name, message)
}

/// Plans an information record: nothing when the logger is not set up, and
/// otherwise the file to open, if one is due, and the line, unless only
/// errors are in force.
pub fn log_info(state: &mut LogState, thread_name: &str, message: &str) -> (action: Option<LogAction>)
    ensures
        final(state).level == old(state).level,
        old(state).logger is None ==> action is None && *final(state) == *old(state),
        old(state).logger is Some ==> action is Some && final(state).logger is Some && (
        action->Some_0.line is Some <==> old(state).level != LogLevel::ERROR),
        action is Some && action->Some_0.line is Some ==> is_line_of(
            action->Some_0.line->Some_0@,
            "INFO"@,
            thread_name@,
            message@,
        ),
        action is Some && action->Some_0.open is Some ==> action->Some_0.open->Some_0@
            == log_file_name(final(state).logger->Some_0.current_date@),
        action is Some && action->Some_0.open is None ==> final(state).logger == old(state).logger,
        old(state).logger is Some ==> final(state).logger->Some_0.has_file == old(state).logger->Some_0.has_file,
{
    proof {
        reveal_strlit("INFO");
        reveal_strlit("ERROR");
        reveal_strlit("DEBUG");
        assert("INFO"@.len() == 4 && "ERROR"@.len() == 5 && "DEBUG"@.len() == 5);
    }
    log_with_label(state, "INFO", thread_name, message)
}

/// Plans a debugging record: nothing when the logger is not set up, and
/// otherwise the file to open, if one is due, and the line, if debugging is
/// in force.
pub fn log_debug(state: &mut LogState, thread_name: &str, message: &str) -> (action: Option<LogAction>)
    ensures
        final(state).level == old(state).level,
        old(state).logger is None ==> action is None && *final(state) == *old(state),
        old(state).logger is Some ==> action is Some && final(state).logger is Some && (
        action->Some_0.line is Some <==> old(state).level == LogLevel::DEBUG),
        action is Some && action->Some_0.line is Some ==> is_line_of(
            action->Some_0.line->Some_0@,
            "DEBUG"@,
            thread_name@,
            message@,
        ),
        action is Some && action->Some_0.open is Some ==> action->Some_0.open->Some_0@
            == log_file_name(final(state).logger->Some_0.current_date@),
        action is Some && action->Some_0.open is None ==> final(state).logger == old(state).logger,
        old(state).logger is Some ==> final(state).logger->Some_0.has_file == old(state).logger->Some_0.has_file,
{
    proof {
        reveal_strlit("ERROR");
        reveal_strlit("DEBUG");
        assert("DEBUG"@[0] == 'D' && "ERROR"@[0] == 'E');
    }
    log_with_label(state, "DEBUG", thread_name, message)
}

} // verus!
