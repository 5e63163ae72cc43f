use integrations_api::api::jobs::{create_job, submit_job, RegistryMap};
use integrations_api::api::types::CreateJobPayload;
use integrations_api::codec::encode_job_message;
use integrations_api::db::jobs::JobStore;
use integrations_api::db::packages::PackageStore;
use integrations_api::models::job::JobStatus;
use integrations_api::rabbitmq::{extract_trace_context, inject_trace_context, Broker};
use integrations_api::types::JobMessage;
use integrations_api::worker::{handle_delivery, ConsumeOutcome};

const EXCHANGE: &str = "integrations";

fn registries() -> RegistryMap {
    RegistryMap::new(vec![
        ("crates".to_string(), "crates-queue".to_string()),
        ("npm".to_string(), "npm-queue".to_string()),
    ])
}

fn topology() -> Broker {
    let mut broker = Broker::new();
    broker.declare_exchange(EXCHANGE).unwrap();
    let queues = vec![
        "crates-queue".to_string(),
        "npm-queue".to_string(),
        "results-queue".to_string(),
    ];
    broker.declare_and_bind_queues(&queues, EXCHANGE).unwrap();
    broker
}

fn payload(registry: &str, package_name: &str) -> CreateJobPayload {
    CreateJobPayload {
        registry: registry.to_string(),
        package_name: package_name.to_string(),
    }
}

#[test]
fn topology_declarations_are_idempotent() {
    let mut broker = topology();
    broker.declare_exchange(EXCHANGE).unwrap();
    broker.declare_queue("crates-queue").unwrap();
    broker
        .declare_and_bind_queue("crates-queue", EXCHANGE)
        .unwrap();
    // a queue declared twice kept its identity: publishing still works
    broker
        .publish_message(EXCHANGE, "crates-queue", "x".to_string(), &None)
        .unwrap();
    let got = broker.consume_next("crates-queue").unwrap();
    assert_eq!(got.map(|m| m.payload), Some("x".to_string()));
}

#[test]
fn publish_routes_to_exactly_the_bound_queue() {
    let mut broker = topology();
    broker
        .publish_message(EXCHANGE, "crates-queue", "hello".to_string(), &None)
        .unwrap();
    let other = broker.consume_next("npm-queue").unwrap();
    assert!(other.is_none());
    let delivered = broker.consume_next("crates-queue").unwrap().unwrap();
    assert_eq!(delivered.payload, "hello");
    assert!(broker.consume_next("crates-queue").unwrap().is_none());
}

#[test]
fn consume_is_first_in_first_out() {
    let mut broker = topology();
    broker
        .publish_message(EXCHANGE, "npm-queue", "a".to_string(), &None)
        .unwrap();
    broker
        .publish_message(EXCHANGE, "npm-queue", "b".to_string(), &None)
        .unwrap();
    assert_eq!(broker.consume_next("npm-queue").unwrap().unwrap().payload, "a");
    assert_eq!(broker.consume_next("npm-queue").unwrap().unwrap().payload, "b");
}

#[test]
fn trace_context_survives_the_headers() {
    let headers = inject_trace_context(&Some("00-abc-def-01".to_string()));
    assert_eq!(extract_trace_context(&headers), Some("00-abc-def-01".to_string()));
    let empty = inject_trace_context(&None);
    assert_eq!(extract_trace_context(&empty), None);
}

#[test]
fn jobs_test_create_job_inserts_into_db() {
    let mut jobs = JobStore::new();
    let mut broker = topology();
    let resp = create_job(
        &mut jobs,
        &mut broker,
        &registries(),
        EXCHANGE,
        payload("crates", "serde"),
        1,
        Some("trace-1".to_string()),
        1000,
    )
    .expect("dispatch failed");
    assert_eq!(resp.data.id, 1);
    assert_eq!(resp.data.status, JobStatus::Processing);
    let stored = jobs.get_job_by_id(1).expect("job row missing");
    assert_eq!(stored.registry, "crates");
    assert_eq!(stored.package_name, "serde");
    assert_eq!(stored.created_at, 1000);
}

#[test]
fn jobs_test_create_job_publishes_to_rabbitmq() {
    let mut jobs = JobStore::new();
    let mut broker = topology();
    create_job(
        &mut jobs,
        &mut broker,
        &registries(),
        EXCHANGE,
        payload("crates", "serde"),
        1,
        Some("trace-1".to_string()),
        1000,
    )
    .expect("dispatch failed");
    // exactly one message, on the registry's queue, with the documented body
    let delivered = broker.consume_next("crates-queue").unwrap().expect("no message");
    let expected = encode_job_message(&JobMessage {
        job_id: 1,
        registry: "crates".to_string(),
        package_name: "serde".to_string(),
    });
    assert_eq!(delivered.payload, expected);
    assert_eq!(
        extract_trace_context(&delivered.headers),
        Some("trace-1".to_string())
    );
    assert!(broker.consume_next("crates-queue").unwrap().is_none());
    assert!(broker.consume_next("npm-queue").unwrap().is_none());
}

#[test]
fn unknown_registry_is_rejected_without_side_effects() {
    let mut jobs = JobStore::new();
    let mut broker = topology();
    let err = create_job(
        &mut jobs,
        &mut broker,
        &registries(),
        EXCHANGE,
        payload("nonexistent-registry", "x"),
        1,
        None,
        0,
    )
    .expect_err("unknown registry must fail");
    assert_eq!(err.status_code(), 404);
    assert!(jobs.get_job_by_id(1).is_none());
    assert!(broker.consume_next("crates-queue").unwrap().is_none());
    assert!(broker.consume_next("npm-queue").unwrap().is_none());
    assert!(broker.consume_next("results-queue").unwrap().is_none());
}

#[test]
fn submitting_with_a_fresh_id_dispatches_once() {
    let mut jobs = JobStore::new();
    let mut broker = topology();
    let resp = submit_job(
        &mut jobs,
        &mut broker,
        &registries(),
        EXCHANGE,
        payload("npm", "left-pad"),
        None,
    )
    .expect("dispatch failed");
    let stored = jobs.get_job_by_id(resp.data.id).expect("job row missing");
    assert_eq!(stored.package_name, "left-pad");
    let delivered = broker.consume_next("npm-queue").unwrap().expect("no message");
    let expected = encode_job_message(&JobMessage {
        job_id: resp.data.id,
        registry: "npm".to_string(),
        package_name: "left-pad".to_string(),
    });
    assert_eq!(delivered.payload, expected);
}

#[test]
fn dispatch_then_consume_round_trip() {
    let mut jobs = JobStore::new();
    let mut packages = PackageStore::new();
    let mut broker = topology();
    create_job(
        &mut jobs,
        &mut broker,
        &registries(),
        EXCHANGE,
        payload("crates", "serde"),
        1,
        None,
        0,
    )
    .expect("dispatch failed");
    let delivered = broker.consume_next("crates-queue").unwrap().expect("no message");
    let artifact =
        "{\"id\":50,\"registry\":\"crates\",\"name\":\"serde\",\"version\":\"1.0.2\",\"downloads\":12000}";
    let outcome = handle_delivery(&mut jobs, &mut packages, &delivered.payload, Some(artifact));
    assert_eq!(outcome, ConsumeOutcome::Ack);
    assert_eq!(jobs.get_job_by_id(1).unwrap().status, JobStatus::Completed);
    let row = packages.get_package_by_id(50).expect("package row missing");
    assert_eq!(row.registry, "crates");
    assert_eq!(row.name, "serde");
    assert_eq!(row.version, "1.0.2");
    assert_eq!(row.downloads, 12000);
}

#[test]
fn unknown_registry_reports_its_fixed_message() {
    let mut jobs = JobStore::new();
    let mut broker = topology();
    let err = create_job(
        &mut jobs,
        &mut broker,
        &registries(),
        EXCHANGE,
        payload("nonexistent-registry", "x"),
        1,
        None,
        0,
    )
    .expect_err("unknown registry must fail");
    assert_eq!(err.public_message(), "Registry not found");
}

#[test]
fn consuming_an_out_of_order_artifact_id_still_completes() {
    // the artifact's package id comes from the scraper; one below an
    // already stored package id must still reconcile
    let mut jobs = JobStore::new();
    let mut packages = PackageStore::new();
    let mut broker = topology();
    packages
        .upsert_package(integrations_api::models::package::Package {
            id: 90,
            registry: "npm".to_string(),
            name: "left-pad".to_string(),
            version: "0.1.0".to_string(),
            downloads: 3,
        })
        .unwrap();
    create_job(
        &mut jobs,
        &mut broker,
        &registries(),
        EXCHANGE,
        payload("crates", "serde"),
        1,
        None,
        0,
    )
    .expect("dispatch failed");
    let delivered = broker.consume_next("crates-queue").unwrap().expect("no message");
    let artifact =
        "{\"id\":50,\"registry\":\"crates\",\"name\":\"serde\",\"version\":\"1.0.2\",\"downloads\":12000}";
    let outcome = handle_delivery(&mut jobs, &mut packages, &delivered.payload, Some(artifact));
    assert_eq!(outcome, ConsumeOutcome::Ack);
    assert_eq!(jobs.get_job_by_id(1).unwrap().status, JobStatus::Completed);
    let listing = packages.get_packages(100, None, integrations_api::db::Order::Asc);
    let ids: Vec<u128> = listing.iter().map(|p| p.id).collect();
    assert_eq!(ids, vec![50, 90]);
}

#[test]
fn artifact_keys_follow_the_documented_convention() {
    assert_eq!(integrations_api::worker::artifact_key("serde"), "outputs/serde.json");
}

#[test]
fn redelivered_message_is_safe_to_consume_twice() {
    let mut jobs = JobStore::new();
    let mut packages = PackageStore::new();
    let mut broker = topology();
    create_job(
        &mut jobs,
        &mut broker,
        &registries(),
        EXCHANGE,
        payload("crates", "serde"),
        1,
        None,
        0,
    )
    .expect("dispatch failed");
    let delivered = broker.consume_next("crates-queue").unwrap().expect("no message");
    let artifact =
        "{\"id\":50,\"registry\":\"crates\",\"name\":\"serde\",\"version\":\"1.0.2\",\"downloads\":12000}";
    assert_eq!(
        handle_delivery(&mut jobs, &mut packages, &delivered.payload, Some(artifact)),
        ConsumeOutcome::Ack
    );
    // at-least-once delivery: the same message again re-runs the same
    // upsert and the same completion, duplicating nothing
    assert_eq!(
        handle_delivery(&mut jobs, &mut packages, &delivered.payload, Some(artifact)),
        ConsumeOutcome::Ack
    );
    let listing = packages.get_packages(100, None, integrations_api::db::Order::Asc);
    assert_eq!(listing.len(), 1);
    assert_eq!(jobs.get_job_by_id(1).unwrap().status, JobStatus::Completed);
}

#[test]
fn malformed_message_is_dropped_without_mutation() {
    let mut jobs = JobStore::new();
    let mut packages = PackageStore::new();
    let artifact =
        "{\"id\":50,\"registry\":\"crates\",\"name\":\"serde\",\"version\":\"1.0.2\",\"downloads\":12000}";
    let outcome = handle_delivery(&mut jobs, &mut packages, "not json", Some(artifact));
    assert_eq!(outcome, ConsumeOutcome::Nack);
    let outcome = handle_delivery(
        &mut jobs,
        &mut packages,
        "{\"unexpected\":true}",
        Some(artifact),
    );
    assert_eq!(outcome, ConsumeOutcome::Nack);
    assert!(packages.get_packages(100, None, integrations_api::db::Order::Asc).is_empty());
}

#[test]
fn missing_artifact_nacks_without_mutation() {
    let mut jobs = JobStore::new();
    let mut packages = PackageStore::new();
    let mut broker = topology();
    create_job(
        &mut jobs,
        &mut broker,
        &registries(),
        EXCHANGE,
        payload("crates", "serde"),
        1,
        None,
        0,
    )
    .expect("dispatch failed");
    let delivered = broker.consume_next("crates-queue").unwrap().expect("no message");
    let outcome = handle_delivery(&mut jobs, &mut packages, &delivered.payload, None);
    assert_eq!(outcome, ConsumeOutcome::Nack);
    // the job is still processing, and no package row appeared
    assert_eq!(jobs.get_job_by_id(1).unwrap().status, JobStatus::Processing);
    assert!(packages.get_packages(100, None, integrations_api::db::Order::Asc).is_empty());
}

#[test]
fn unknown_job_in_message_nacks_without_mutation() {
    let mut jobs = JobStore::new();
    let mut packages = PackageStore::new();
    let payload_text = encode_job_message(&JobMessage {
        job_id: 77,
        registry: "crates".to_string(),
        package_name: "serde".to_string(),
    });
    let artifact =
        "{\"id\":50,\"registry\":\"crates\",\"name\":\"serde\",\"version\":\"1.0.2\",\"downloads\":12000}";
    let outcome = handle_delivery(&mut jobs, &mut packages, &payload_text, Some(artifact));
    assert_eq!(outcome, ConsumeOutcome::Nack);
    assert!(packages.get_packages(100, None, integrations_api::db::Order::Asc).is_empty());
}
