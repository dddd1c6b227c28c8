use vstd::prelude::*;

verus! {

/// A structured log record: the one entity this library handles.
///
/// All four fields are required text; a request body that lacks one of them,
/// or gives one a non-text value, does not denote a `LogEvent` at all.
pub struct LogEvent {
    pub project: String,
    pub level: String,
    pub payload: String,
    pub trace: String,
}

/// The mathematical content of a `LogEvent`: its four fields as character
/// sequences.
pub ghost struct LogEventView {
    pub project: Seq<char>,
    pub level: Seq<char>,
    pub payload: Seq<char>,
    pub trace: Seq<char>,
}

impl View for LogEvent {
    type V = LogEventView;

    open spec fn view(&self) -> LogEventView {
        LogEventView {
            project: self.project@,
            level: self.level@,
            payload: self.payload@,
            trace: self.trace@,
        }
    }
}

} // verus!
