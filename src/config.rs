use vstd::prelude::*;

verus! {

/// The configuration that a logger is built with; never changed afterwards.
pub struct LoggerConfig {
    /// Emit debug-level messages.
    pub debug: bool,
    /// Persist lines to the log file through the background writer.
    pub record: bool,
    /// The most lines the log file keeps; 0 keeps them all.
    pub roll: u64,
    /// Color the level label on the console.
    pub color: bool,
    /// IANA name of the time zone that timestamps are rendered in.
    pub time_zone: String,
}

/// Collects the options of a logger before it is built.
pub struct LoggerBuilder {
    pub debug: bool,
    pub record: bool,
    pub roll: u64,
    pub color: bool,
    pub time_zone: String,
}

/// The time zone that a builder starts with.
pub open spec fn default_time_zone() -> Seq<char> {
    "Asia/Shanghai"@
}

impl LoggerBuilder {
    /// A builder with every option off, no rolling, and the default zone.
    pub fn new() -> (r: Self)
        ensures
            !r.debug,
            !r.record,
            r.roll == 0,
            !r.color,
            r.time_zone@ == default_time_zone(),
    {
        LoggerBuilder {
            debug: false,
            record: false,
            roll: 0,
            color: false,
            time_zone: String::from_str("Asia/Shanghai"),
        }
    }

    /// Sets whether debug-level messages are emitted.
    pub fn debug(self, debug: bool) -> (r: Self)
        ensures
            r == (LoggerBuilder { debug, ..self }),
    {
        LoggerBuilder { debug, ..self }
    }

    /// Sets whether lines are persisted to the log file.
    pub fn record(self, record: bool) -> (r: Self)
        ensures
            r == (LoggerBuilder { record, ..self }),
    {
        LoggerBuilder { record, ..self }
    }

    /// Sets the most lines the log file keeps (0: unbounded).
    pub fn roll(self, roll: u64) -> (r: Self)
        ensures
            r == (LoggerBuilder { roll, ..self }),
    {
        LoggerBuilder { roll, ..self }
    }

    /// Sets whether the console output is colored.
    pub fn color(self, color: bool) -> (r: Self)
        ensures
            r == (LoggerBuilder { color, ..self }),
    {
        LoggerBuilder { color, ..self }
    }

    /// Sets the time zone by its IANA name.
    pub fn time_zone(self, time_zone: &str) -> (r: Self)
        ensures
            r.debug == self.debug,
            r.record == self.record,
            r.roll == self.roll,
            r.color == self.color,
            r.time_zone@ == time_zone@,
    {
        LoggerBuilder { time_zone: String::from_str(time_zone), ..self }
    }

    /// Freezes the options into a configuration. Starting the writer, when
    /// `record` is set, is up to the caller: see `LoggerConfig::needs_writer`.
    pub fn build(self) -> (r: LoggerConfig)
        ensures
            r.debug == self.debug,
            r.record == self.record,
            r.roll == self.roll,
            r.color == self.color,
            r.time_zone@ == self.time_zone@,
    {
        LoggerConfig {
            debug: self.debug,
            record: self.record,
            roll: self.roll,
            color: self.color,
            time_zone: self.time_zone,
        }
    }
}

impl LoggerConfig {
    /// Whether a writer thread and a queue are to be started: only when lines
    /// are persisted. Without it no file is touched.
    pub fn needs_writer(&self) -> (r: bool)
        ensures
            r == self.record,
    {
        self.record
    }
}

} // verus!
