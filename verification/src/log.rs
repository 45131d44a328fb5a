//! Severity-labeled log lines.
//!
//! The library only builds the text of a log line; the program around it
//! decides where the line goes and how it is colored.

use vstd::prelude::*;

verus! {

/// Severity of a log line.
#[derive(Clone, Copy, Debug, PartialEq, Eq)]
pub enum LogType {
    LogInfo,
    LogWarn,
    LogErr,
    LogCrit,
}

/// The label that opens a log line of the given severity.
pub open spec fn label_of(ltype: LogType) -> Seq<char> {
    match ltype {
        LogType::LogInfo => "[INFO]: "@,
        LogType::LogWarn => "[WARN]: "@,
        LogType::LogErr => "[ERR]: "@,
        LogType::LogCrit => "[CRIT]: "@,
    }
}

/// Builds a log line: the severity's label followed by the message.
pub fn log(ltype: LogType, string: String) -> (r: String)
    ensures
        r@ == label_of(ltype) + string@,
{
    let label: &str = match ltype {
        LogType::LogInfo => "[INFO]: ",
        LogType::LogWarn => "[WARN]: ",
        LogType::LogErr => "[ERR]: ",
        LogType::LogCrit => "[CRIT]: ",
    };
    String::from_str(label).concat(string.as_str())
}

} // verus!
