use vstd::prelude::*;

use crate::strutil::str_eq;

verus! {

/// Lifecycle state of a scrapper-side job record.
#[derive(Debug, PartialEq, Eq, Structural, Copy, Clone)]
pub enum ScrapperJobStatus {
    Processing,
    Completed,
}

/// The column value each status is stored as.
pub open spec fn spec_scrapper_job_status_str(s: ScrapperJobStatus) -> Seq<char> {
    match s {
        ScrapperJobStatus::Processing => "processing"@,
        ScrapperJobStatus::Completed => "completed"@,
    }
}

/// The status a stored column value denotes; an unrecognised value is
/// read as `Processing`.
pub open spec fn spec_scrapper_job_status_from(s: Seq<char>) -> ScrapperJobStatus {
    if s == "processing"@ {
        ScrapperJobStatus::Processing
    } else if s == "completed"@ {
        ScrapperJobStatus::Completed
    } else {
        ScrapperJobStatus::Processing
    }
}

impl ScrapperJobStatus {
    /// Renders the status as its stored column value.
    pub fn to_string(&self) -> (r: String)
        ensures
            r@ == spec_scrapper_job_status_str(*self),
    {
        match self {
            ScrapperJobStatus::Processing => String::from_str("processing"),
            ScrapperJobStatus::Completed => String::from_str("completed"),
        }
    }
}

impl core::convert::From<String> for ScrapperJobStatus {
    fn from(s: String) -> Self {
        if str_eq(s.as_str(), "processing") {
            ScrapperJobStatus::Processing
        } else if str_eq(s.as_str(), "completed") {
            ScrapperJobStatus::Completed
        } else {
            ScrapperJobStatus::Processing
        }
    }
}

impl vstd::std_specs::convert::FromSpecImpl<String> for ScrapperJobStatus {
    open spec fn obeys_from_spec() -> bool {
        true
    }

    open spec fn from_spec(s: String) -> ScrapperJobStatus {
        spec_scrapper_job_status_from(s@)
    }
}

/// A scrapper-side job record as the workers see it.
#[derive(Debug, Clone, PartialEq)]
pub struct ScrapperJob {
    pub id: u128,
    pub registry_name: String,
    pub package_name: String,
    pub status: ScrapperJobStatus,
    pub trace_id: Option<String>,
    pub created_at: i64,
}

} // verus!
