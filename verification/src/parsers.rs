//! Service-specific log line parsers.

use vstd::prelude::*;
use crate::common::{str_trim, trimmed, LogEntry};

verus! {

/// A parser of one service's log format.
pub trait LogParser {
    /// Whether `r` is what this parser gives for the line `line`. A parser
    /// that does not say leaves it open (any result).
    open spec fn parses_to(&self, line: Seq<char>, r: Option<LogEntry>) -> bool {
        true
    }

    /// Parses the logs specific to a service and returns them as `LogEntry`
    fn parse(&self, line: &str) -> (r: Option<LogEntry>)
        ensures
            self.parses_to(line@, r),
    ;
}

/// A parser for services without a structured format: every line that is
/// not blank becomes the message of an entry of `service`, trimmed, with
/// empty timestamp, level and context.
pub struct LineParser {
    pub service: String,
}

impl LogParser for LineParser {
    open spec fn parses_to(&self, line: Seq<char>, r: Option<LogEntry>) -> bool {
        &&& trimmed(line).len() == 0 ==> r is None
        &&& trimmed(line).len() > 0 ==> (r matches Some(e) && e.service@ == self.service@
            && e.message@ == trimmed(line) && e.timestamp@.len() == 0 && e.level@.len() == 0
            && e.context@.len() == 0)
    }

    fn parse(&self, line: &str) -> (r: Option<LogEntry>) {
        let t = str_trim(line);
        if t.unicode_len() == 0 {
            None
        } else {
            Some(
                LogEntry {
                    service: self.service.clone(),
                    timestamp: String::new(),
                    level: String::new(),
                    context: String::new(),
                    message: String::from_str(t),
                },
            )
        }
    }
}

} // verus!
