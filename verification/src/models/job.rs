use vstd::prelude::*;

use crate::ids::{id_to_string, spec_dec_digits};
use crate::strutil::str_eq;
use crate::types::Cursor;

verus! {

/// Lifecycle state of a job.  Monotonic: once `Completed`, a job never
/// reverts to `Processing`.
#[derive(Debug, PartialEq, Eq, Structural, Copy, Clone)]
pub enum JobStatus {
    Processing,
    Completed,
}

/// The column value each status is stored as.
pub open spec fn spec_job_status_str(s: JobStatus) -> Seq<char> {
    match s {
        JobStatus::Processing => "processing"@,
        JobStatus::Completed => "completed"@,
    }
}

/// The status a stored column value denotes; an unrecognised value is
/// read as `Processing`.
pub open spec fn spec_job_status_from(s: Seq<char>) -> JobStatus {
    if s == "processing"@ {
        JobStatus::Processing
    } else if s == "completed"@ {
        JobStatus::Completed
    } else {
        JobStatus::Processing
    }
}

impl JobStatus {
    /// Renders the status as its stored column value.
    pub fn to_string(&self) -> (r: String)
        ensures
            r@ == spec_job_status_str(*self),
    {
        match self {
            JobStatus::Processing => String::from_str("processing"),
            JobStatus::Completed => String::from_str("completed"),
        }
    }
}

impl core::convert::From<String> for JobStatus {
    fn from(s: String) -> Self {
        if str_eq(s.as_str(), "processing") {
            JobStatus::Processing
        } else if str_eq(s.as_str(), "completed") {
            JobStatus::Completed
        } else {
            JobStatus::Processing
        }
    }
}

impl vstd::std_specs::convert::FromSpecImpl<String> for JobStatus {
    open spec fn obeys_from_spec() -> bool {
        true
    }

    open spec fn from_spec(s: String) -> JobStatus {
        spec_job_status_from(s@)
    }
}

/// One dispatched unit of work.  `id` is unique and time-ordered and
/// doubles as the pagination cursor; `created_at` is a microsecond
/// timestamp, set at insert and immutable.
#[derive(Debug, PartialEq)]
pub struct Job {
    pub id: u128,
    pub registry: String,
    pub package_name: String,
    pub status: JobStatus,
    pub trace_id: Option<String>,
    pub created_at: i64,
}

impl Clone for Job {
    fn clone(&self) -> (r: Self)
        ensures
            r == *self,
    {
        Job {
            id: self.id,
            registry: self.registry.clone(),
            package_name: self.package_name.clone(),
            status: self.status,
            trace_id: match &self.trace_id {
                Option::Some(t) => Option::Some(t.clone()),
                Option::None => Option::None,
            },
            created_at: self.created_at,
        }
    }
}

impl Cursor for Job {
    open spec fn spec_cursor(&self) -> Seq<char> {
        spec_dec_digits(self.id as nat)
    }

    fn cursor(&self) -> (r: String) {
        id_to_string(self.id)
    }
}

} // verus!
