use vstd::prelude::*;

use crate::error::Error;
use crate::strutil::str_eq;

verus! {

/// Lifecycle state of a scrapper-side job row, stored under the older
/// column values of that table.
#[derive(Debug, PartialEq, Eq, Structural, Copy, Clone)]
pub enum ScrapperJobStatus {
    Processing,
    Completed,
}

/// The column value each status is stored as in the scrapper table.
pub open spec fn spec_scrapper_status_str(s: ScrapperJobStatus) -> Seq<char> {
    match s {
        ScrapperJobStatus::Processing => "pending"@,
        ScrapperJobStatus::Completed => "completed"@,
    }
}

/// The status a stored column value denotes; an unrecognised value is
/// read as `Processing`.
pub open spec fn spec_scrapper_status_from(s: Seq<char>) -> ScrapperJobStatus {
    if s == "pending"@ {
        ScrapperJobStatus::Processing
    } else if s == "completed"@ {
        ScrapperJobStatus::Completed
    } else {
        ScrapperJobStatus::Processing
    }
}

impl ScrapperJobStatus {
    /// Renders the status as its stored column value.
    pub fn to_string(&self) -> (r: String)
        ensures
            r@ == spec_scrapper_status_str(*self),
    {
        match self {
            ScrapperJobStatus::Processing => String::from_str("pending"),
            ScrapperJobStatus::Completed => String::from_str("completed"),
        }
    }
}

impl core::convert::From<String> for ScrapperJobStatus {
    fn from(s: String) -> Self {
        if str_eq(s.as_str(), "pending") {
            ScrapperJobStatus::Processing
        } else if str_eq(s.as_str(), "completed") {
            ScrapperJobStatus::Completed
        } else {
            ScrapperJobStatus::Processing
        }
    }
}

impl vstd::std_specs::convert::FromSpecImpl<String> for ScrapperJobStatus {
    open spec fn obeys_from_spec() -> bool {
        true
    }

    open spec fn from_spec(s: String) -> ScrapperJobStatus {
        spec_scrapper_status_from(s@)
    }
}

/// A scrapper-side job row; its status is kept as the raw column value.
#[derive(Debug, PartialEq)]
pub struct ScrapperJob {
    pub id: u128,
    pub registry_name: String,
    pub package_name: String,
    pub status: String,
    pub trace_id: Option<String>,
    pub created_at: i64,
}

impl Clone for ScrapperJob {
    fn clone(&self) -> (r: Self)
        ensures
            r == *self,
    {
        ScrapperJob {
            id: self.id,
            registry_name: self.registry_name.clone(),
            package_name: self.package_name.clone(),
            status: self.status.clone(),
            trace_id: match &self.trace_id {
                Option::Some(t) => Option::Some(t.clone()),
                Option::None => Option::None,
            },
            created_at: self.created_at,
        }
    }
}

/// The scrapper-side jobs table, rows in strictly increasing id order.
pub struct ScrapperJobStore {
    jobs: Vec<ScrapperJob>,
}

impl ScrapperJobStore {
    pub closed spec fn rows(&self) -> Seq<ScrapperJob> {
        self.jobs@
    }

    pub open spec fn wf(&self) -> bool {
        forall|i: int, j: int|
            #![trigger self.rows()[i], self.rows()[j]]
            0 <= i < j < self.rows().len() ==> self.rows()[i].id < self.rows()[j].id
    }

    pub open spec fn spec_contains_id(&self, id: u128) -> bool {
        exists|i: int| 0 <= i < self.rows().len() && (#[trigger] self.rows()[i]).id == id
    }

    pub open spec fn spec_can_append(&self, id: u128) -> bool {
        self.rows().len() == 0 || self.rows().last().id < id
    }

    pub fn new() -> (s: Self)
        ensures
            s.rows() == Seq::<ScrapperJob>::empty(),
            s.wf(),
    {
        ScrapperJobStore { jobs: Vec::new() }
    }

    /// Inserts a scrapper job row; as ids are time-ordered, the row is
    /// appended, and an out-of-order id is rejected without change.
    pub fn insert_scrapper_job(&mut self, scrapper_job: ScrapperJob) -> (r: Result<
        ScrapperJob,
        Error,
    >)
        requires
            old(self).wf(),
        ensures
            final(self).wf(),
            old(self).spec_can_append(scrapper_job.id) ==> (r matches Ok(j) && j == scrapper_job)
                && final(self).rows() == old(self).rows().push(scrapper_job),
            !old(self).spec_can_append(scrapper_job.id) ==> (r matches Err(e) && e is Internal)
                && final(self).rows() == old(self).rows(),
    {
        let n = self.jobs.len();
        if n == 0 || self.jobs[n - 1].id < scrapper_job.id {
            let returned = scrapper_job.clone();
            self.jobs.push(scrapper_job);
            proof {
                assert forall|i: int, j: int|
                    #![trigger self.rows()[i], self.rows()[j]]
                    0 <= i < j < self.rows().len() implies self.rows()[i].id
                    < self.rows()[j].id by {
                    if j < old(self).rows().len() {
                    } else {
                        if i < old(self).rows().len() as int - 1 {
                            assert(old(self).rows()[i].id < old(self).rows()[old(self).rows().len() - 1].id);
                        }
                    }
                }
            }
            Ok(returned)
        } else {
            Err(Error::Internal(String::from_str("scrapper job id is not above the stored ids")))
        }
    }

    /// Sets the status column of the row with the given id to
    /// `completed` and returns the row as updated; a missing id is
    /// reported as `NotFound`.
    pub fn complete_scrapper_job(&mut self, id: u128) -> (r: Result<ScrapperJob, Error>)
        requires
            old(self).wf(),
        ensures
            final(self).wf(),
            !old(self).spec_contains_id(id) ==> (r matches Err(e) && e is NotFound) && final(self).rows() == old(self).rows(),
            old(self).spec_contains_id(id) ==> exists|i: int|
                {
                    &&& 0 <= i < old(self).rows().len()
                    &&& (#[trigger] old(self).rows()[i]).id == id
                    &&& final(self).rows().len() == old(self).rows().len()
                    &&& final(self).rows()[i].id == id
                    &&& final(self).rows()[i].status@ == "completed"@
                    &&& final(self).rows()[i].registry_name == old(self).rows()[i].registry_name
                    &&& final(self).rows()[i].package_name == old(self).rows()[i].package_name
                    &&& forall|k: int|
                        0 <= k < old(self).rows().len() && k != i ==> (#[trigger] final(self).rows()[k]) == old(self).rows()[k]
                    &&& r matches Ok(j) && j == final(self).rows()[i]
                },
    {
        let n = self.jobs.len();
        let mut i: usize = 0;
        while i < n
            invariant
                0 <= i <= n,
                n == self.rows().len(),
                self == old(self),
                old(self).wf(),
                forall|k: int| 0 <= k < i ==> (#[trigger] self.rows()[k]).id != id,
            decreases n - i,
        {
            if self.jobs[i].id == id {
                let row = self.jobs.remove(i);
                let updated = ScrapperJob { status: String::from_str("completed"), ..row };
                let returned = updated.clone();
                self.jobs.insert(i, updated);
                proof {
                    assert forall|p: int, q: int|
                        #![trigger self.rows()[p], self.rows()[q]]
                        0 <= p < q < self.rows().len() implies self.rows()[p].id
                        < self.rows()[q].id by {
                        assert(old(self).rows()[p].id < old(self).rows()[q].id);
                        assert(self.rows()[p].id == old(self).rows()[p].id);
                        assert(self.rows()[q].id == old(self).rows()[q].id);
                    }
                    assert forall|k: int|
                        0 <= k < old(self).rows().len() && k != i as int implies (#[trigger] self
                        .rows()[k]) == old(self).rows()[k] by {}
                }
                return Ok(returned);
            }
            i = i + 1;
        }
        Err(Error::NotFound(String::from_str("Not found")))
    }
}

} // verus!
