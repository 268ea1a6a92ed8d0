use vstd::prelude::*;

verus! {

/// One formatted log line: the severity label, a separating colon and
/// space, and the message.
pub open spec fn log_line(level: Seq<char>, message: Seq<char>) -> Seq<char> {
    level + ": "@ + message
}

/// The logging context of one invocation: an append-only list of formatted
/// lines. It is created once at startup, handed to the code that logs, and
/// flushed to the configured sink when the invocation ends.
pub struct Logger {
    pub lines: Vec<String>,
}

impl Logger {
    /// A context with nothing logged yet.
    pub fn new() -> (r: Logger)
        ensures
            r.lines@ =~= Seq::<String>::empty(),
    {
        Logger { lines: Vec::new() }
    }

    /// Appends one line under a severity label.
    pub fn log(&mut self, level: &str, message: &str)
        ensures
            final(self).lines@.len() == old(self).lines@.len() + 1,
            final(self).lines@.last()@ == log_line(level@, message@),
            final(self).lines@.take(old(self).lines@.len() as int) == old(self).lines@,
    {
        let line = String::from_str(level).concat(": ").concat(message);
        self.lines.push(line);
        proof {
            assert(self.lines@.take(old(self).lines@.len() as int) =~= old(self).lines@);
        }
    }
}

/// Appends a line under the `debug` label.
pub fn debug(log: &mut Logger, message: &str)
    ensures
        final(log).lines@.len() == old(log).lines@.len() + 1,
        final(log).lines@.last()@ == log_line("debug"@, message@),
        final(log).lines@.take(old(log).lines@.len() as int) == old(log).lines@,
{
    log.log("debug", message);
}

/// Appends a line under the `info` label.
pub fn info(log: &mut Logger, message: &str)
    ensures
        final(log).lines@.len() == old(log).lines@.len() + 1,
        final(log).lines@.last()@ == log_line("info"@, message@),
        final(log).lines@.take(old(log).lines@.len() as int) == old(log).lines@,
{
    log.log("info", message);
}

/// Appends a line under the `warn` label.
pub fn warn(log: &mut Logger, message: &str)
    ensures
        final(log).lines@.len() == old(log).lines@.len() + 1,
        final(log).lines@.last()@ == log_line("warn"@, message@),
        final(log).lines@.take(old(log).lines@.len() as int) == old(log).lines@,
{
    log.log("warn", message);
}

/// Appends a line under the `error` label.
pub fn error(log: &mut Logger, message: &str)
    ensures
        final(log).lines@.len() == old(log).lines@.len() + 1,
        final(log).lines@.last()@ == log_line("error"@, message@),
        final(log).lines@.take(old(log).lines@.len() as int) == old(log).lines@,
{
    log.log("error", message);
}

} // verus!
