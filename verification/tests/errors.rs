use integrations_api::api::jobs::get_job_by_id;
use integrations_api::api::packages::get_package_by_id;
use integrations_api::api::types::Limit;
use integrations_api::db::jobs::JobStore;
use integrations_api::db::packages::PackageStore;
use integrations_api::error::Error;
use integrations_api::models::job::{Job, JobStatus};
use integrations_api::models::package::Package;

#[test]
fn error_kinds_map_to_their_status_codes() {
    assert_eq!(Error::InvalidInput("bad".to_string()).status_code(), 400);
    assert_eq!(Error::NotFound("gone".to_string()).status_code(), 404);
    assert_eq!(Error::Internal("boom".to_string()).status_code(), 500);
}

#[test]
fn internal_detail_is_masked_in_the_public_message() {
    assert_eq!(
        Error::InvalidInput("Invalid input".to_string()).public_message(),
        "Invalid input"
    );
    assert_eq!(Error::NotFound("Not found".to_string()).public_message(), "Not found");
    assert_eq!(
        Error::Internal("connection refused".to_string()).public_message(),
        "Internal Server Error"
    );
}

#[test]
fn limit_accepts_the_bound_and_rejects_above_it() {
    assert_eq!(Limit::try_from(0).unwrap().as_u64(), 0);
    assert_eq!(Limit::try_from(100).unwrap().as_u64(), 100);
    let err = Limit::try_from(101).expect_err("limit above the bound");
    assert_eq!(err.status_code(), 400);
    assert_eq!(err.public_message(), "Limit must be less than 100");
}

#[test]
fn job_lookup_distinguishes_malformed_and_missing_ids() {
    let mut store = JobStore::new();
    store
        .insert_job(Job {
            id: 3,
            registry: "crates".to_string(),
            package_name: "serde".to_string(),
            status: JobStatus::Processing,
            trace_id: None,
            created_at: 0,
        })
        .unwrap();
    let invalid = get_job_by_id(&store, "not-an-id").unwrap_err();
    assert_eq!(invalid.status_code(), 400);
    assert_eq!(invalid.public_message(), "Invalid job ID");
    let missing = get_job_by_id(&store, "4").unwrap_err();
    assert_eq!(missing.status_code(), 404);
    assert_eq!(missing.public_message(), "Not found");
    let found = get_job_by_id(&store, "3").unwrap();
    assert_eq!(found.data.package_name, "serde");
}

#[test]
fn package_lookup_distinguishes_malformed_and_missing_ids() {
    let mut store = PackageStore::new();
    store
        .insert_package(Package {
            id: 3,
            registry: "crates".to_string(),
            name: "serde".to_string(),
            version: "1.0.0".to_string(),
            downloads: 1,
        })
        .unwrap();
    let invalid = get_package_by_id(&store, "zzz").unwrap_err();
    assert_eq!(invalid.status_code(), 400);
    assert_eq!(invalid.public_message(), "Invalid package ID");
    let missing = get_package_by_id(&store, "9").unwrap_err();
    assert_eq!(missing.status_code(), 404);
    assert_eq!(missing.public_message(), "Package with id 9 not found");
    let found = get_package_by_id(&store, "3").unwrap();
    assert_eq!(found.data.name, "serde");
}
