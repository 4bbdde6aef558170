//! Creation timestamps, held as milliseconds since the Unix epoch.

use vstd::prelude::*;

verus! {

#[derive(Clone, Copy, PartialEq, Eq, Structural, Debug)]
pub struct Timestamp {
    pub millis: i64,
}

impl Timestamp {
    /// Relies on chrono::Utc::now and DateTime::timestamp_millis: the current
    /// wall-clock time. Nothing is promised of the value.
    #[verifier::external_body]
    pub fn now() -> Timestamp {
        Timestamp { millis: chrono::Utc::now().timestamp_millis() }
    }

    pub fn from_millis(millis: i64) -> (r: Timestamp)
        ensures
            r.millis == millis,
    {
        Timestamp { millis }
    }

    pub fn millis(&self) -> (r: i64)
        ensures
            r == self.millis,
    {
        self.millis
    }
}

} // verus!
