use integrations_api::db::jobs::JobStore;
use integrations_api::db::packages::PackageStore;
use integrations_api::db::scrapper_jobs::{ScrapperJob, ScrapperJobStatus, ScrapperJobStore};
use integrations_api::models::job::{Job, JobStatus};
use integrations_api::models::package::Package;

fn job(id: u128, registry: &str, package_name: &str) -> Job {
    Job {
        id,
        registry: registry.to_string(),
        package_name: package_name.to_string(),
        status: JobStatus::Processing,
        trace_id: Some(format!("trace-{}", id)),
        created_at: id as i64,
    }
}

fn package(id: u128, registry: &str, name: &str, version: &str, downloads: i64) -> Package {
    Package {
        id,
        registry: registry.to_string(),
        name: name.to_string(),
        version: version.to_string(),
        downloads,
    }
}

#[test]
fn inserted_job_is_found_by_id() {
    let mut store = JobStore::new();
    store.insert_job(job(1, "crates", "serde")).unwrap();
    let found = store.get_job_by_id(1).expect("job should exist");
    assert_eq!(found.package_name, "serde");
    assert_eq!(found.status, JobStatus::Processing);
    assert!(store.get_job_by_id(2).is_none());
}

#[test]
fn job_ids_must_arrive_in_increasing_order() {
    let mut store = JobStore::new();
    store.insert_job(job(5, "crates", "a")).unwrap();
    let err = store.insert_job(job(5, "crates", "b")).expect_err("duplicate id");
    assert_eq!(err.status_code(), 500);
    let err = store.insert_job(job(3, "crates", "c")).expect_err("stale id");
    assert_eq!(err.status_code(), 500);
    assert!(store.get_job_by_id(3).is_none());
}

#[test]
fn completing_a_job_is_monotonic_and_idempotent() {
    let mut store = JobStore::new();
    store.insert_job(job(1, "crates", "serde")).unwrap();
    let done = store.complete_job(1).unwrap();
    assert_eq!(done.status, JobStatus::Completed);
    // completed -> completed is a no-op, which makes redelivery safe
    let again = store.complete_job(1).unwrap();
    assert_eq!(again.status, JobStatus::Completed);
    assert_eq!(store.get_job_by_id(1).unwrap().status, JobStatus::Completed);
}

#[test]
fn completing_a_missing_job_is_not_found() {
    let mut store = JobStore::new();
    let err = store.complete_job(9).expect_err("missing job");
    assert_eq!(err.status_code(), 404);
}

#[test]
fn test_upsert_is_idempotent_per_identity() {
    // Applying the same identity twice with different attributes leaves
    // exactly one row carrying the latest values.
    let mut store = PackageStore::new();
    store.upsert_package(package(1, "crates", "serde", "1.0.0", 10)).unwrap();
    let stored = store
        .upsert_package(package(2, "crates", "serde", "1.0.1", 25))
        .unwrap();
    // the stored id is the one assigned at first insert
    assert_eq!(stored.id, 1);
    assert_eq!(stored.version, "1.0.1");
    assert_eq!(stored.downloads, 25);
    let row = store.get_package_by_id(1).expect("row should exist");
    assert_eq!(row.version, "1.0.1");
    assert_eq!(row.downloads, 25);
    assert!(store.get_package_by_id(2).is_none());
    let listing = store.get_packages(100, None, integrations_api::db::Order::Asc);
    assert_eq!(listing.len(), 1);
}

#[test]
fn upsert_places_an_out_of_order_id_at_its_position() {
    // package ids are chosen by the scrapers: a fresh identity whose id
    // lies below an already stored id still lands, in id order
    let mut store = PackageStore::new();
    store.upsert_package(package(100, "crates", "serde", "1.0.0", 10)).unwrap();
    store.upsert_package(package(50, "npm", "left-pad", "0.1.0", 3)).unwrap();
    let listing = store.get_packages(100, None, integrations_api::db::Order::Asc);
    let ids: Vec<u128> = listing.iter().map(|p| p.id).collect();
    assert_eq!(ids, vec![50, 100]);
}

#[test]
fn upsert_rejects_a_taken_id_of_another_identity() {
    let mut store = PackageStore::new();
    store.upsert_package(package(7, "crates", "serde", "1.0.0", 10)).unwrap();
    let err = store
        .upsert_package(package(7, "npm", "left-pad", "0.1.0", 3))
        .expect_err("id collision across identities");
    assert_eq!(err.status_code(), 500);
}

#[test]
fn insert_package_rejects_a_taken_id() {
    let mut store = PackageStore::new();
    store.insert_package(package(7, "crates", "serde", "1.0.0", 10)).unwrap();
    let err = store
        .insert_package(package(7, "npm", "left-pad", "0.1.0", 3))
        .expect_err("id collision across identities");
    assert_eq!(err.status_code(), 500);
}

#[test]
fn upsert_inserts_a_new_identity() {
    let mut store = PackageStore::new();
    store.upsert_package(package(1, "crates", "serde", "1.0.0", 10)).unwrap();
    store.upsert_package(package(2, "npm", "left-pad", "0.1.0", 3)).unwrap();
    let listing = store.get_packages(100, None, integrations_api::db::Order::Asc);
    assert_eq!(listing.len(), 2);
    assert_eq!(listing[1].name, "left-pad");
}

#[test]
fn insert_package_rejects_a_duplicate_identity() {
    let mut store = PackageStore::new();
    store.insert_package(package(1, "crates", "serde", "1.0.0", 10)).unwrap();
    let err = store
        .insert_package(package(2, "crates", "serde", "1.0.1", 11))
        .expect_err("duplicate identity");
    assert_eq!(err.status_code(), 500);
}

#[test]
fn update_package_rewrites_by_id() {
    let mut store = PackageStore::new();
    store.insert_package(package(1, "crates", "serde", "1.0.0", 10)).unwrap();
    let updated = store
        .update_package(package(1, "crates", "serde", "2.0.0", 99))
        .unwrap();
    assert_eq!(updated.version, "2.0.0");
    assert_eq!(store.get_package_by_id(1).unwrap().downloads, 99);
    let err = store
        .update_package(package(5, "crates", "tokio", "1.0.0", 1))
        .expect_err("missing id");
    assert_eq!(err.status_code(), 404);
}

#[test]
fn packages_listing_paginates_by_id() {
    let mut store = PackageStore::new();
    for id in 1..=5u128 {
        store
            .upsert_package(package(id, "crates", &format!("pkg-{}", id), "1.0.0", id as i64))
            .unwrap();
    }
    let asc = store.get_packages(2, Some(2), integrations_api::db::Order::Asc);
    let ids: Vec<u128> = asc.iter().map(|p| p.id).collect();
    assert_eq!(ids, vec![3, 4]);
    let desc = store.get_packages(2, Some(4), integrations_api::db::Order::Desc);
    let ids: Vec<u128> = desc.iter().map(|p| p.id).collect();
    assert_eq!(ids, vec![3, 2]);
}

#[test]
fn test_scrapper_job_status_to_string() {
    assert_eq!(ScrapperJobStatus::Processing.to_string(), "pending");
    assert_eq!(ScrapperJobStatus::Completed.to_string(), "completed");
}

#[test]
fn scrapper_job_status_reads_stored_values() {
    assert_eq!(
        ScrapperJobStatus::from("pending".to_string()),
        ScrapperJobStatus::Processing
    );
    assert_eq!(
        ScrapperJobStatus::from("completed".to_string()),
        ScrapperJobStatus::Completed
    );
    assert_eq!(
        ScrapperJobStatus::from("garbage".to_string()),
        ScrapperJobStatus::Processing
    );
}

#[test]
fn scrapper_jobs_complete_by_id() {
    let mut store = ScrapperJobStore::new();
    store
        .insert_scrapper_job(ScrapperJob {
            id: 1,
            registry_name: "crates".to_string(),
            package_name: "serde".to_string(),
            status: "pending".to_string(),
            trace_id: None,
            created_at: 0,
        })
        .unwrap();
    let done = store.complete_scrapper_job(1).unwrap();
    assert_eq!(done.status, "completed");
    let err = store.complete_scrapper_job(2).expect_err("missing row");
    assert_eq!(err.status_code(), 404);
}

#[test]
fn job_status_round_trips_through_its_column_value() {
    assert_eq!(JobStatus::Processing.to_string(), "processing");
    assert_eq!(JobStatus::Completed.to_string(), "completed");
    assert_eq!(JobStatus::from("processing".to_string()), JobStatus::Processing);
    assert_eq!(JobStatus::from("completed".to_string()), JobStatus::Completed);
    assert_eq!(JobStatus::from("other".to_string()), JobStatus::Processing);
}
