use vstd::prelude::*;

use crate::api::types::{
    spec_db_order, ApiResponse, ApiResponseList, CreateJobPayload, Limit, PaginationQuery,
};
use crate::codec::{encode_job_message, spec_job_message_text};
use crate::db::jobs::{spec_job_selection, spec_page, spec_page_next, JobStore};
use crate::error::{spec_public_message, Error};
use crate::ids::{parse_u128, spec_dec_digits, spec_parse_u128};
use crate::models::job::{Job, JobStatus};
use crate::rabbitmq::{spec_headers_trace, spec_is_bound, spec_has_name, Broker};
use crate::strutil::str_eq;
use crate::types::JobMessage;

verus! {

/// The static registry→queue map, injected at startup: resolving a
/// registry to its routing key is a data lookup, and an unknown registry
/// is a configuration error, not a transient one.
pub struct RegistryMap {
    entries: Vec<(String, String)>,
}

/// The routing key a registry resolves to: the value under the first
/// matching entry.
pub open spec fn spec_resolve(entries: Seq<(String, String)>, registry: Seq<char>) -> Option<
    Seq<char>,
>
    decreases entries.len(),
{
    if entries.len() == 0 {
        None
    } else if entries[0].0@ == registry {
        Some(entries[0].1@)
    } else {
        spec_resolve(entries.drop_first(), registry)
    }
}

impl RegistryMap {
    pub closed spec fn spec_entries(&self) -> Seq<(String, String)> {
        self.entries@
    }

    pub fn new(entries: Vec<(String, String)>) -> (r: Self)
        ensures
            r.spec_entries() == entries@,
    {
        RegistryMap { entries }
    }

    /// Resolves a registry name to its routing key.
    pub fn resolve(&self, registry: &str) -> (r: Option<String>)
        ensures
            match r {
                Some(k) => spec_resolve(self.spec_entries(), registry@) == Some(k@),
                None => spec_resolve(self.spec_entries(), registry@) is None,
            },
    {
        let n = self.entries.len();
        let mut i: usize = 0;
        proof {
            assert(self.spec_entries().skip(0) =~= self.spec_entries());
        }
        while i < n
            invariant
                0 <= i <= n,
                n == self.spec_entries().len(),
                spec_resolve(self.spec_entries(), registry@) == spec_resolve(
                    self.spec_entries().skip(i as int),
                    registry@,
                ),
            decreases n - i,
        {
            proof {
                assert(self.spec_entries().skip(i as int)[0] == self.spec_entries()[i as int]);
                assert(self.spec_entries().skip(i as int).drop_first() =~= self.spec_entries().skip(
                    i as int + 1,
                ));
            }
            if str_eq(self.entries[i].0.as_str(), registry) {
                return Some(self.entries[i].1.clone());
            }
            i = i + 1;
        }
        proof {
            assert(self.spec_entries().skip(n as int) =~= Seq::<(String, String)>::empty());
        }
        None
    }
}

/// What a successful dispatch leaves on the broker: every queue bound
/// under the resolved routing key gained exactly the one work message,
/// carrying the given trace context; every other queue, and the topology
/// itself, is untouched.
pub open spec fn spec_dispatched(
    b0: Broker,
    b1: Broker,
    exchange: Seq<char>,
    key: Seq<char>,
    payload: Seq<char>,
    trace: Option<Seq<char>>,
) -> bool {
    &&& b1.spec_exchanges() == b0.spec_exchanges()
    &&& b1.spec_bindings() == b0.spec_bindings()
    &&& b1.spec_queues().len() == b0.spec_queues().len()
    &&& forall|qi: int|
        0 <= qi < b0.spec_queues().len() ==> (#[trigger] b1.spec_queues()[qi]).0@
            == b0.spec_queues()[qi].0@
    &&& forall|qi: int|
        0 <= qi < b0.spec_queues().len() && spec_is_bound(
            b0.spec_bindings(),
            exchange,
            b0.spec_queues()[qi].0@,
            key,
        ) ==> {
            &&& (#[trigger] b1.spec_queues()[qi]).1@.len() == b0.spec_queues()[qi].1@.len() + 1
            &&& b1.spec_queues()[qi].1@.take(b0.spec_queues()[qi].1@.len() as int)
                == b0.spec_queues()[qi].1@
            &&& b1.spec_queues()[qi].1@.last().payload@ == payload
            &&& spec_headers_trace(b1.spec_queues()[qi].1@.last().headers@) == trace
        }
    &&& forall|qi: int|
        0 <= qi < b0.spec_queues().len() && !spec_is_bound(
            b0.spec_bindings(),
            exchange,
            b0.spec_queues()[qi].0@,
            key,
        ) ==> (#[trigger] b1.spec_queues()[qi]) == b0.spec_queues()[qi]
}

/// The job row a dispatch writes before anything is published.
pub open spec fn spec_new_job(
    payload: CreateJobPayload,
    id: u128,
    trace_id: Option<String>,
    now: i64,
) -> Job {
    Job {
        id,
        registry: payload.registry,
        package_name: payload.package_name,
        status: JobStatus::Processing,
        trace_id,
        created_at: now,
    }
}

/// The view of a trace context carried in message headers.
pub open spec fn spec_trace_view(trace: Option<String>) -> Option<Seq<char>> {
    match trace {
        Some(t) => Some(t@),
        None => None,
    }
}

/// Dispatches one job: resolves the registry, durably inserts the job as
/// `processing`, then publishes the work message with the trace context
/// in its headers.  The order is deliberate: an unknown registry fails
/// before any side effect; a failed insert publishes nothing; a failed
/// publish leaves the already-committed row in place, the documented
/// reconciliation gap.
pub fn create_job(
    jobs: &mut JobStore,
    broker: &mut Broker,
    registries: &RegistryMap,
    exchange_name: &str,
    payload: CreateJobPayload,
    id: u128,
    trace_id: Option<String>,
    now: i64,
) -> (r: Result<ApiResponse<Job>, Error>)
    requires
        old(jobs).wf(),
        old(broker).wf(),
    ensures
        final(jobs).wf(),
        final(broker).wf(),
        spec_resolve(registries.spec_entries(), payload.registry@) is None ==> (r matches Err(e)
            && e is NotFound && spec_public_message(&e) == "Registry not found"@) && final(jobs).rows() == old(jobs).rows() && *final(broker) == *old(broker),
        (spec_resolve(registries.spec_entries(), payload.registry@) is Some && !old(
            jobs,
        ).spec_can_append(id)) ==> (r matches Err(e) && e is Internal) && final(jobs).rows()
            == old(jobs).rows() && *final(broker) == *old(broker),
        (spec_resolve(registries.spec_entries(), payload.registry@) is Some && old(
            jobs,
        ).spec_can_append(id)) ==> {
            &&& final(jobs).rows() == old(jobs).rows().push(
                spec_new_job(payload, id, trace_id, now),
            )
            &&& spec_has_name(old(broker).spec_exchanges(), exchange_name@) ==> {
                &&& r matches Ok(resp) && resp.data == spec_new_job(payload, id, trace_id, now)
                &&& spec_dispatched(
                    *old(broker),
                    *final(broker),
                    exchange_name@,
                    spec_resolve(registries.spec_entries(), payload.registry@).unwrap(),
                    spec_job_message_text(id, payload.registry@, payload.package_name@),
                    spec_trace_view(trace_id),
                )
            }
            &&& !spec_has_name(old(broker).spec_exchanges(), exchange_name@) ==> (r matches Err(
                e,
            ) && e is Internal) && *final(broker) == *old(broker)
        },
{
    let routing_key = match registries.resolve(payload.registry.as_str()) {
        Some(k) => k,
        None => {
            return Err(Error::NotFound(String::from_str("Registry not found")));
        },
    };
    let job = Job {
        id,
        registry: payload.registry,
        package_name: payload.package_name,
        status: JobStatus::Processing,
        trace_id,
        created_at: now,
    };
    let inserted = match jobs.insert_job(job) {
        Ok(j) => j,
        Err(e) => {
            return Err(e);
        },
    };
    let message = JobMessage {
        job_id: inserted.id,
        registry: inserted.registry.clone(),
        package_name: inserted.package_name.clone(),
    };
    let text = encode_job_message(&message);
    match broker.publish_message(exchange_name, routing_key.as_str(), text, &inserted.trace_id) {
        Ok(_) => Ok(ApiResponse::new(inserted)),
        Err(e) => Err(e),
    }
}

/// One page of the jobs listing: validates the limit, queries one row of
/// headroom, and derives the next cursor from the last retained row.
pub fn get_jobs(jobs: &JobStore, query: PaginationQuery) -> (r: Result<
    ApiResponseList<Job>,
    Error,
>)
    ensures
        ({
            let lv = match query.limit {
                Some(l) => l,
                None => 100,
            };
            let sel = spec_job_selection(jobs.rows(), query.after, spec_db_order(query.order));
            &&& lv > 100 ==> (r matches Err(e) && e is InvalidInput)
            &&& lv <= 100 ==> (r matches Ok(list) && {
                &&& list.data@ == spec_page(
                    jobs.rows(),
                    lv as int,
                    query.after,
                    spec_db_order(query.order),
                )
                &&& match spec_page_next(
                    jobs.rows(),
                    lv as int,
                    query.after,
                    spec_db_order(query.order),
                ) {
                    Some(c) => list.next_cursor matches Some(s) && s@ == spec_dec_digits(
                        c as nat,
                    ),
                    None => list.next_cursor is None,
                }
            })
        }),
{
    let requested = match query.limit {
        Some(l) => l,
        None => 100,
    };
    let limit = match Limit::try_from(requested) {
        Ok(l) => l,
        Err(e) => {
            return Err(e);
        },
    };
    let order = crate::db::types::Order::from(query.order);
    let items = jobs.get_jobs(limit.as_u64() + 1, query.after, order);
    let list = ApiResponseList::new(items, limit);
    proof {
        let lv = limit.spec_value() as int;
        let sel = spec_job_selection(jobs.rows(), query.after, spec_db_order(query.order));
        if sel.len() > lv + 1 {
            assert(sel.take(lv + 1).take(lv) =~= sel.take(lv));
        }
        if sel.len() > lv && lv > 0 {
            assert(sel.take(lv)[lv - 1] == sel[lv - 1]);
        }
    }
    Ok(list)
}

/// Looks one job up by the textual form of its id: a malformed id is
/// `InvalidInput`, a well-formed id without a row is `NotFound`, each
/// with its fixed message.
pub fn get_job_by_id(jobs: &JobStore, id: &str) -> (r: Result<ApiResponse<Job>, Error>)
    ensures
        spec_parse_u128(id@) is None ==> (r matches Err(e) && e is InvalidInput
            && spec_public_message(&e) == "Invalid job ID"@),
        spec_parse_u128(id@) is Some ==> ({
            let v = spec_parse_u128(id@).unwrap();
            &&& !jobs.spec_contains_id(v) ==> (r matches Err(e) && e is NotFound
                && spec_public_message(&e) == "Not found"@)
            &&& jobs.spec_contains_id(v) ==> exists|i: int|
                {
                    &&& 0 <= i < jobs.rows().len()
                    &&& (#[trigger] jobs.rows()[i]).id == v
                    &&& r matches Ok(resp) && resp.data == jobs.rows()[i]
                }
        }),
{
    let parsed = match parse_u128(id) {
        Some(v) => v,
        None => {
            return Err(Error::InvalidInput(String::from_str("Invalid job ID")));
        },
    };
    match jobs.get_job_by_id(parsed) {
        Some(job) => Ok(ApiResponse::new(job)),
        None => Err(Error::NotFound(String::from_str("Not found"))),
    }
}

/// Relies on uuid::Uuid::now_v7, read as its 128-bit integer form: a
/// fresh, time-ordered id.  Nothing is promised of the value — the
/// clock and randomness decide it — so callers handle every outcome.
#[verifier::external_body]
fn fresh_job_id() -> (r: u128) {
    uuid::Uuid::now_v7().as_u128()
}

/// Relies on chrono::Utc::now, read as microseconds since the epoch.
/// Nothing is promised of the value: the clock decides it.
#[verifier::external_body]
fn now_micros() -> (r: i64) {
    chrono::Utc::now().timestamp_micros()
}

/// Dispatches one job with a fresh time-ordered id and the current
/// time.  The id is whatever the clock gave, so success cannot be
/// promised; but an unknown registry — the only source of `NotFound` —
/// still fails without side effects, no failure publishes anything, and
/// the only residue a failure can leave is the one durably committed
/// `processing` row of the insert-then-publish gap.  On success the job
/// and its message carry the id returned in the response.
pub fn submit_job(
    jobs: &mut JobStore,
    broker: &mut Broker,
    registries: &RegistryMap,
    exchange_name: &str,
    payload: CreateJobPayload,
    trace_id: Option<String>,
) -> (r: Result<ApiResponse<Job>, Error>)
    requires
        old(jobs).wf(),
        old(broker).wf(),
    ensures
        final(jobs).wf(),
        final(broker).wf(),
        spec_resolve(registries.spec_entries(), payload.registry@) is None ==> (r matches Err(e)
            && e is NotFound) && final(jobs).rows() == old(jobs).rows() && *final(broker) == *old(
            broker,
        ),
        r matches Ok(resp) ==> {
            &&& resp.data.registry@ == payload.registry@
            &&& resp.data.package_name@ == payload.package_name@
            &&& resp.data.status == JobStatus::Processing
            &&& final(jobs).rows() == old(jobs).rows().push(resp.data)
            &&& spec_dispatched(
                *old(broker),
                *final(broker),
                exchange_name@,
                spec_resolve(registries.spec_entries(), payload.registry@).unwrap(),
                spec_job_message_text(resp.data.id, payload.registry@, payload.package_name@),
                spec_trace_view(resp.data.trace_id),
            )
        },
        (r matches Err(e) && e is NotFound) ==> spec_resolve(
            registries.spec_entries(),
            payload.registry@,
        ) is None,
        r is Err ==> *final(broker) == *old(broker) && (final(jobs).rows() == old(jobs).rows()
            || exists|j: Job|
            #![auto]
            {
                &&& final(jobs).rows() == old(jobs).rows().push(j)
                &&& j.registry == payload.registry
                &&& j.package_name == payload.package_name
                &&& j.status == JobStatus::Processing
                &&& j.trace_id == trace_id
            }),
{
    let id = fresh_job_id();
    let now = now_micros();
    let ghost p0 = payload;
    let ghost t0 = trace_id;
    let r = create_job(jobs, broker, registries, exchange_name, payload, id, trace_id, now);
    proof {
        if r is Ok {
            assert(spec_resolve(registries.spec_entries(), p0.registry@) is Some);
            assert(old(jobs).spec_can_append(id));
            assert(spec_has_name(old(broker).spec_exchanges(), exchange_name@));
        } else {
            if spec_resolve(registries.spec_entries(), p0.registry@) is Some && old(
                jobs,
            ).spec_can_append(id) {
                let j = spec_new_job(p0, id, t0, now);
                assert(jobs.rows() == old(jobs).rows().push(j));
                assert(j.registry == p0.registry && j.package_name == p0.package_name
                    && j.status == JobStatus::Processing && j.trace_id == t0);
            }
        }
    }
    r
}

} // verus!
