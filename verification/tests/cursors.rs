use integrations_api::ids::{id_to_string, parse_u128};
use integrations_api::models::job::{Job, JobStatus};
use integrations_api::models::package::Package;
use integrations_api::types::Cursor;

#[test]
fn renders_small_ids() {
    assert_eq!(id_to_string(0), "0");
    assert_eq!(id_to_string(7), "7");
    assert_eq!(id_to_string(10), "10");
    assert_eq!(id_to_string(12345), "12345");
}

#[test]
fn renders_the_largest_id() {
    assert_eq!(
        id_to_string(u128::MAX),
        "340282366920938463463374607431768211455"
    );
}

#[test]
fn parses_what_it_renders() {
    for id in [0u128, 1, 9, 10, 99, 100, 123456789, u128::MAX] {
        assert_eq!(parse_u128(&id_to_string(id)), Some(id));
    }
}

#[test]
fn rejects_malformed_cursors() {
    assert_eq!(parse_u128(""), None);
    assert_eq!(parse_u128("007"), None);
    assert_eq!(parse_u128("abc"), None);
    assert_eq!(parse_u128("12a"), None);
    assert_eq!(parse_u128("-1"), None);
    assert_eq!(parse_u128(" 1"), None);
}

#[test]
fn rejects_values_beyond_an_id() {
    assert_eq!(parse_u128("340282366920938463463374607431768211456"), None);
}

#[test]
fn job_cursor_is_its_id() {
    let job = Job {
        id: 42,
        registry: "crates".to_string(),
        package_name: "serde".to_string(),
        status: JobStatus::Processing,
        trace_id: None,
        created_at: 0,
    };
    assert_eq!(job.cursor(), "42");
}

#[test]
fn package_cursor_is_its_id() {
    let package = Package {
        id: 7,
        registry: "crates".to_string(),
        name: "serde".to_string(),
        version: "1.0.0".to_string(),
        downloads: 10,
    };
    assert_eq!(package.cursor(), "7");
}
