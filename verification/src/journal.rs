//! Journal records: one timestamped text entry per submission, stamped with
//! the local clock and rendered as one line of the journal file.

use vstd::prelude::*;
use crate::codec;

verus! {

/// A submission time: the Unix second count the laws compare, and its
/// RFC 3339 rendering (second precision, explicit offset) as it is written
/// into the record.
pub struct Timestamp {
    pub secs: i64,
    pub text: String,
}

/// Relies on chrono's `Local::now` for the current instant, on its
/// `timestamp` for the instant's Unix second count, and on its
/// `to_rfc3339_opts` (second precision, `Z` for UTC) for the instant's text.
/// Nothing is promised of the result: the clock and the machine's time zone
/// alone decide it.
#[verifier::external_body]
fn now_timestamp() -> Timestamp {
    let now = chrono::Local::now();
    Timestamp {
        secs: now.timestamp(),
        text: now.to_rfc3339_opts(chrono::SecondsFormat::Secs, true),
    }
}

/// One timestamped text entry persisted to the log. Created at submission
/// time, written once, never mutated or deleted.
pub struct JournalRecord {
    pub text: String,
    pub time_submitted: Timestamp,
}

impl JournalRecord {
    /// Stamps submitted text with the current local time.
    pub fn now(text: String) -> (r: JournalRecord)
        ensures
            r.text == text,
    {
        JournalRecord { text, time_submitted: now_timestamp() }
    }

    /// The one line this record contributes to the journal file, without the
    /// terminating newline: serialization happens fully in memory, so no
    /// partial record is ever written.
    pub fn to_json_line(&self) -> (r: String)
        ensures
            r@ == codec::journal_line(self.text@, self.time_submitted.text@),
    {
        codec::encode_journal_line(self.text.as_str(), self.time_submitted.text.as_str())
    }
}

} // verus!
