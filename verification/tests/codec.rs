use integrations_api::codec::{encode_job_message, parse_job_message};
use integrations_api::types::JobMessage;
use integrations_api::worker::parse_package_output;

fn message(job_id: u128, registry: &str, package_name: &str) -> JobMessage {
    JobMessage {
        job_id,
        registry: registry.to_string(),
        package_name: package_name.to_string(),
    }
}

#[test]
fn encodes_the_documented_wire_form() {
    let m = message(17, "crates", "serde");
    assert_eq!(
        encode_job_message(&m),
        "{\"job_id\":17,\"registry\":\"crates\",\"package_name\":\"serde\"}"
    );
}

#[test]
fn escapes_quotes_and_backslashes() {
    let m = message(1, "a\"b", "c\\d");
    assert_eq!(
        encode_job_message(&m),
        "{\"job_id\":1,\"registry\":\"a\\\"b\",\"package_name\":\"c\\\\d\"}"
    );
}

#[test]
fn parses_what_it_encodes() {
    for m in [
        message(0, "", ""),
        message(5, "crates", "serde"),
        message(u128::MAX, "np\"m", "left\\pad"),
    ] {
        let text = encode_job_message(&m);
        let parsed = parse_job_message(&text).expect("round trip failed");
        assert_eq!(parsed, m);
    }
}

#[test]
fn rejects_non_json_payloads() {
    assert!(parse_job_message("").is_none());
    assert!(parse_job_message("not json at all").is_none());
    assert!(parse_job_message("{\"job_id\":}").is_none());
}

#[test]
fn rejects_schema_mismatched_payloads() {
    assert!(parse_job_message("{\"id\":1,\"registry\":\"r\",\"package_name\":\"p\"}").is_none());
    assert!(parse_job_message("{\"job_id\":1,\"registry\":\"r\"}").is_none());
    assert!(parse_job_message("{\"job_id\":1,\"registry\":\"r\",\"package_name\":\"p\"} ").is_none());
    assert!(parse_job_message("{\"job_id\":1,\"registry\":\"r\",\"package_name\":\"p\"").is_none());
}

#[test]
fn parses_a_well_formed_artifact() {
    let text = "{\"id\":9,\"registry\":\"crates\",\"name\":\"serde\",\"version\":\"1.0.2\",\"downloads\":12000}";
    let out = parse_package_output(text).expect("artifact should parse");
    assert_eq!(out.id, 9);
    assert_eq!(out.registry, "crates");
    assert_eq!(out.name, "serde");
    assert_eq!(out.version, "1.0.2");
    assert_eq!(out.downloads, 12000);
}

#[test]
fn rejects_a_malformed_artifact() {
    assert!(parse_package_output("").is_none());
    assert!(parse_package_output("{\"id\":9}").is_none());
    assert!(parse_package_output(
        "{\"id\":9,\"registry\":\"crates\",\"name\":\"serde\",\"version\":\"1.0.2\",\"downloads\":-3}"
    )
    .is_none());
}
