use vstd::prelude::*;
use vstd::string::StringExecFns;

use crate::codec::{
    expect_lit, scan_number, scan_string, spec_expect, spec_job_message_text, spec_parse_job_message,
    spec_scan_number, spec_scan_string,
};
use crate::codec::parse_job_message;
use crate::db::jobs::{spec_completed, JobStore};
use crate::db::packages::{
    lemma_placed_has_row, spec_pkg_id_free, spec_placed, spec_upsert_ok, PackageStore,
};
use crate::error::Error;
use crate::models::job::JobStatus;
use crate::models::package::Package;
use crate::types::JobMessage;

verus! {

/// The scrape artifact the workers leave in object storage, as this
/// consumer reads it back.
#[derive(Debug)]
pub struct PackageOutput {
    pub id: u128,
    pub registry: String,
    pub name: String,
    pub version: String,
    pub downloads: u64,
}

/// What parsing a whole artifact yields: its fields, where the text is
/// one well-formed artifact object and nothing else; `None` otherwise.
pub open spec fn spec_parse_package_output(s: Seq<char>) -> Option<
    (u128, Seq<char>, Seq<char>, Seq<char>, u64),
> {
    match spec_expect(s, 0, "{\"id\":"@) {
        None => None,
        Some(i1) => match spec_scan_number(s, i1) {
            None => None,
            Some((id, i2)) => match spec_expect(s, i2, ",\"registry\":\""@) {
                None => None,
                Some(i3) => match spec_scan_string(s, i3) {
                    None => None,
                    Some((registry, i4)) => match spec_expect(s, i4, ",\"name\":\""@) {
                        None => None,
                        Some(i5) => match spec_scan_string(s, i5) {
                            None => None,
                            Some((name, i6)) => match spec_expect(s, i6, ",\"version\":\""@) {
                                None => None,
                                Some(i7) => match spec_scan_string(s, i7) {
                                    None => None,
                                    Some((version, i8)) => match spec_expect(
                                        s,
                                        i8,
                                        ",\"downloads\":"@,
                                    ) {
                                        None => None,
                                        Some(i9) => match spec_scan_number(s, i9) {
                                            None => None,
                                            Some((downloads, i10)) => if downloads <= u64::MAX
                                                && spec_expect(s, i10, "}"@) == Some(
                                                s.len() as int,
                                            ) {
                                                Some(
                                                    (
                                                        id,
                                                        registry,
                                                        name,
                                                        version,
                                                        downloads as u64,
                                                    ),
                                                )
                                            } else {
                                                None
                                            },
                                        },
                                    },
                                },
                            },
                        },
                    },
                },
            },
        },
    }
}

/// Parses a scrape artifact from its stored text.  Exactly the texts
/// that `spec_parse_package_output` accepts yield an artifact, with
/// exactly the fields it gives.
pub fn parse_package_output(s: &str) -> (r: Option<PackageOutput>)
    ensures
        match r {
            Some(o) => spec_parse_package_output(s@) == Some(
                (o.id, o.registry@, o.name@, o.version@, o.downloads),
            ),
            None => spec_parse_package_output(s@) is None,
        },
{
    let i1 = match expect_lit(s, 0, "{\"id\":") {
        Some(j) => j,
        None => {
            return None;
        },
    };
    let (id, i2) = match scan_number(s, i1) {
        Some(p) => p,
        None => {
            return None;
        },
    };
    let i3 = match expect_lit(s, i2, ",\"registry\":\"") {
        Some(j) => j,
        None => {
            return None;
        },
    };
    let (registry, i4) = match scan_string(s, i3) {
        Some(p) => p,
        None => {
            return None;
        },
    };
    let i5 = match expect_lit(s, i4, ",\"name\":\"") {
        Some(j) => j,
        None => {
            return None;
        },
    };
    let (name, i6) = match scan_string(s, i5) {
        Some(p) => p,
        None => {
            return None;
        },
    };
    let i7 = match expect_lit(s, i6, ",\"version\":\"") {
        Some(j) => j,
        None => {
            return None;
        },
    };
    let (version, i8) = match scan_string(s, i7) {
        Some(p) => p,
        None => {
            return None;
        },
    };
    let i9 = match expect_lit(s, i8, ",\"downloads\":") {
        Some(j) => j,
        None => {
            return None;
        },
    };
    let (downloads, i10) = match scan_number(s, i9) {
        Some(p) => p,
        None => {
            return None;
        },
    };
    if downloads > u64::MAX as u128 {
        return None;
    }
    match expect_lit(s, i10, "}") {
        Some(j) => {
            if j == s.unicode_len() {
                Some(
                    PackageOutput {
                        id,
                        registry,
                        name,
                        version,
                        downloads: downloads as u64,
                    },
                )
            } else {
                None
            }
        },
        None => None,
    }
}

/// The deterministic object-store key the scrape artifact for a package
/// is resolved from.
pub fn artifact_key(package_name: &str) -> (r: String)
    ensures
        r@ == "outputs/"@ + package_name@ + ".json"@,
{
    let mut key = String::from_str("outputs/");
    key.append(package_name);
    key.append(".json");
    key
}

/// The terminal state of one delivery: acknowledged, or negatively
/// acknowledged without requeue — a failed message is dropped, never
/// retried by the broker.
#[derive(Debug, PartialEq, Eq, Structural, Copy, Clone)]
pub enum ConsumeOutcome {
    Ack,
    Nack,
}

/// Whether some job row carries the given id.
pub open spec fn spec_jobs_contain(rows: Seq<crate::models::job::Job>, id: u128) -> bool {
    exists|i: int| 0 <= i < rows.len() && (#[trigger] rows[i]).id == id
}

/// Whether some package row carries the given identity, by view.
pub open spec fn spec_packages_contain_identity(
    rows: Seq<Package>,
    registry: Seq<char>,
    name: Seq<char>,
) -> bool {
    exists|i: int|
        0 <= i < rows.len() && (#[trigger] rows[i]).registry@ == registry && rows[i].name@ == name
}

/// The idempotent completion transaction, given the artifact fields: the
/// package row upserted and the job marked completed, or nothing at all.
pub open spec fn spec_completion_ok(
    j0: Seq<crate::models::job::Job>,
    p0: Seq<Package>,
    j1: Seq<crate::models::job::Job>,
    p1: Seq<Package>,
    job_id: u128,
    pid: u128,
    registry: Seq<char>,
    name: Seq<char>,
    version: Seq<char>,
    downloads: u64,
) -> bool {
    &&& exists|i: int|
        {
            &&& 0 <= i < j0.len()
            &&& (#[trigger] j0[i]).id == job_id
            &&& j1 == j0.update(i, spec_completed(j0[i]))
        }
    &&& exists|p: Package|
        {
            &&& (#[trigger] p.id) == pid
            &&& p.registry@ == registry
            &&& p.name@ == name
            &&& p.version@ == version
            &&& p.downloads == downloads as i64
            &&& spec_upsert_ok(p0, p, p1)
        }
}

/// What one delivery does to the two tables, as a function of its
/// payload and of whatever the object-store fetch returned: any failure
/// — missing artifact, malformed payload or artifact, unknown job, or a
/// package row that cannot be placed — drops the message with no
/// database mutation; only the full completion transaction acknowledges.
pub open spec fn spec_delivery_transition(
    j0: Seq<crate::models::job::Job>,
    p0: Seq<Package>,
    j1: Seq<crate::models::job::Job>,
    p1: Seq<Package>,
    payload: Seq<char>,
    artifact: Option<Seq<char>>,
    outcome: ConsumeOutcome,
) -> bool {
    match spec_parse_job_message(payload) {
        None => outcome == ConsumeOutcome::Nack && j1 == j0 && p1 == p0,
        Some((job_id, _registry, _package_name)) => match artifact {
            None => outcome == ConsumeOutcome::Nack && j1 == j0 && p1 == p0,
            Some(text) => match spec_parse_package_output(text) {
                None => outcome == ConsumeOutcome::Nack && j1 == j0 && p1 == p0,
                Some((pid, areg, aname, aver, adl)) => if !spec_jobs_contain(j0, job_id) || !(
                spec_packages_contain_identity(p0, areg, aname) || spec_pkg_id_free(p0, pid)) {
                    outcome == ConsumeOutcome::Nack && j1 == j0 && p1 == p0
                } else {
                    outcome == ConsumeOutcome::Ack && spec_completion_ok(
                        j0,
                        p0,
                        j1,
                        p1,
                        job_id,
                        pid,
                        areg,
                        aname,
                        aver,
                        adl,
                    )
                },
            },
        },
    }
}

/// Runs the idempotent completion for one parsed message: resolves the
/// artifact text into package attributes, upserts the package row and
/// completes the job as one transaction — on any failure nothing is
/// mutated, mirroring a rollback.
pub fn consume_message(
    jobs: &mut JobStore,
    packages: &mut PackageStore,
    message: &JobMessage,
    artifact: Option<&str>,
) -> (r: Result<(), Error>)
    requires
        old(jobs).wf(),
        old(packages).wf(),
    ensures
        final(jobs).wf(),
        final(packages).wf(),
        ({
            let art = match artifact {
                Some(a) => Some(a@),
                None => None::<Seq<char>>,
            };
            match r {
                Ok(_) => match art {
                    Some(text) => match spec_parse_package_output(text) {
                        Some((pid, areg, aname, aver, adl)) => spec_completion_ok(
                            old(jobs).rows(),
                            old(packages).rows(),
                            final(jobs).rows(),
                            final(packages).rows(),
                            message.job_id,
                            pid,
                            areg,
                            aname,
                            aver,
                            adl,
                        ),
                        None => false,
                    },
                    None => false,
                },
                Err(_) => final(jobs).rows() == old(jobs).rows() && final(packages).rows() == old(
                    packages,
                ).rows(),
            }
        }),
        ({
            let art = match artifact {
                Some(a) => Some(a@),
                None => None::<Seq<char>>,
            };
            r is Ok <==> (art matches Some(text) && spec_parse_package_output(text) matches Some(
                o,
            ) && spec_jobs_contain(old(jobs).rows(), message.job_id) && (
            spec_packages_contain_identity(old(packages).rows(), o.1, o.2) || spec_pkg_id_free(
                old(packages).rows(),
                o.0,
            )))
        }),
{
    let text = match artifact {
        Some(a) => a,
        None => {
            return Err(Error::NotFound(String::from_str("artifact is missing")));
        },
    };
    let output = match parse_package_output(text) {
        Some(o) => o,
        None => {
            return Err(Error::InvalidInput(String::from_str("malformed artifact")));
        },
    };
    if jobs.get_job_by_id(message.job_id).is_none() {
        return Err(Error::NotFound(String::from_str("job not found")));
    }
    let package = Package {
        id: output.id,
        registry: output.registry,
        name: output.name,
        version: output.version,
        downloads: output.downloads as i64,
    };
    let ghost package0 = package;
    match packages.upsert_package(package) {
        Ok(_) => {},
        Err(e) => {
            return Err(e);
        },
    }
    match jobs.complete_job(message.job_id) {
        Ok(_) => {
            proof {
                assert(package0.id == spec_parse_package_output(text@).unwrap().0);
                assert(spec_upsert_ok(old(packages).rows(), package0, packages.rows()));
            }
            Ok(())
        },
        Err(e) => {
            // the job was already found above, so completion cannot fail
            proof {
                assert(false);
            }
            Err(e)
        },
    }
}

/// The per-delivery state machine: parse the payload, resolve the
/// artifact, run the idempotent completion, and acknowledge; any failure
/// negatively acknowledges without requeue and mutates nothing.  A
/// malformed payload is a poison message: dropped, not retried.
pub fn handle_delivery(
    jobs: &mut JobStore,
    packages: &mut PackageStore,
    payload: &str,
    artifact: Option<&str>,
) -> (r: ConsumeOutcome)
    requires
        old(jobs).wf(),
        old(packages).wf(),
    ensures
        final(jobs).wf(),
        final(packages).wf(),
        spec_delivery_transition(
            old(jobs).rows(),
            old(packages).rows(),
            final(jobs).rows(),
            final(packages).rows(),
            payload@,
            match artifact {
                Some(a) => Some(a@),
                None => None::<Seq<char>>,
            },
            r,
        ),
{
    let message = match parse_job_message(payload) {
        Some(m) => m,
        None => {
            return ConsumeOutcome::Nack;
        },
    };
    match consume_message(jobs, packages, &message, artifact) {
        Ok(_) => ConsumeOutcome::Ack,
        Err(_) => ConsumeOutcome::Nack,
    }
}

/// A successful upsert leaves a row carrying the scraped attributes.
pub proof fn lemma_upsert_leaves_row(p0: Seq<Package>, p: Package, p1: Seq<Package>)
    requires
        spec_upsert_ok(p0, p, p1),
    ensures
        exists|k: int|
            {
                &&& 0 <= k < p1.len()
                &&& (#[trigger] p1[k]).registry@ == p.registry@
                &&& p1[k].name@ == p.name@
                &&& p1[k].version@ == p.version@
                &&& p1[k].downloads == p.downloads
            },
{
    if crate::db::packages::spec_contains_identity(p0, p) {
        let k = choose|k: int|
            0 <= k < p0.len() && crate::db::packages::spec_same_identity(#[trigger] p0[k], p)
                && p1 == p0.update(k, crate::db::packages::spec_refreshed(p0[k], p));
        assert(p1[k].registry@ == p.registry@);
    } else {
        lemma_placed_has_row(p0, p, p1);
    }
}

/// Dispatch-then-consume round trip: the payload a dispatch publishes,
/// consumed with a resolvable well-formed artifact, acknowledges, marks
/// exactly the submitted job `completed`, and leaves a package row with
/// the scraped attributes.
pub proof fn lemma_dispatch_consume_roundtrip(
    j0: Seq<crate::models::job::Job>,
    p0: Seq<Package>,
    j1: Seq<crate::models::job::Job>,
    p1: Seq<Package>,
    job_id: u128,
    registry: Seq<char>,
    package_name: Seq<char>,
    artifact: Seq<char>,
    outcome: ConsumeOutcome,
)
    requires
        spec_delivery_transition(
            j0,
            p0,
            j1,
            p1,
            spec_job_message_text(job_id, registry, package_name),
            Some(artifact),
            outcome,
        ),
        spec_parse_package_output(artifact) is Some,
        spec_jobs_contain(j0, job_id),
        ({
            let o = spec_parse_package_output(artifact).unwrap();
            spec_packages_contain_identity(p0, o.1, o.2) || spec_pkg_id_free(p0, o.0)
        }),
    ensures
        outcome == ConsumeOutcome::Ack,
        exists|i: int|
            0 <= i < j1.len() && (#[trigger] j1[i]).id == job_id && j1[i].status
                == JobStatus::Completed,
        ({
            let o = spec_parse_package_output(artifact).unwrap();
            exists|k: int|
                {
                    &&& 0 <= k < p1.len()
                    &&& (#[trigger] p1[k]).registry@ == o.1
                    &&& p1[k].name@ == o.2
                    &&& p1[k].version@ == o.3
                    &&& p1[k].downloads == o.4 as i64
                }
        }),
{
    crate::codec::lemma_job_message_roundtrip(job_id, registry, package_name);
    let o = spec_parse_package_output(artifact).unwrap();
    assert(spec_completion_ok(j0, p0, j1, p1, job_id, o.0, o.1, o.2, o.3, o.4));
    let i = choose|i: int|
        0 <= i < j0.len() && (#[trigger] j0[i]).id == job_id && j1 == j0.update(
            i,
            spec_completed(j0[i]),
        );
    assert(j1[i].id == job_id && j1[i].status == JobStatus::Completed);
    let p = choose|p: Package|
        {
            &&& (#[trigger] p.id) == o.0
            &&& p.registry@ == o.1
            &&& p.name@ == o.2
            &&& p.version@ == o.3
            &&& p.downloads == o.4 as i64
            &&& spec_upsert_ok(p0, p, p1)
        };
    lemma_upsert_leaves_row(p0, p, p1);
}

} // verus!
