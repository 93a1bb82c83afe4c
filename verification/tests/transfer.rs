use sbmm::client::{graphql_payload, graphql_result, NexusError};
use sbmm::collection::{revision_variables, REVISION_QUERY};
use sbmm::http::{advanced, answer_of, range_header, Answer, Progress, Transfer};
use sbmm::json::JsonValue;
use sbmm::model::{Confidence, DetectedComponent, ModType};
use sbmm::store::{next_priority, order_priorities, primary_type};

// ---------------------------------------------------------------------------
// Transfers
// ---------------------------------------------------------------------------

#[test]
fn a_part_finished_file_asks_for_the_rest() {
    assert_eq!(range_header(0), None);
    assert_eq!(range_header(1024).as_deref(), Some("bytes=1024-"));
}

#[test]
fn throttling_is_surfaced_rather_than_written_to_disk() {
    assert_eq!(answer_of(429, 0, Some(10)), Answer::Throttled);
    assert_eq!(answer_of(404, 0, Some(10)), Answer::Refused);
    assert_eq!(answer_of(500, 7, None), Answer::Refused);
}

#[test]
fn a_honoured_range_resumes_and_counts_what_was_kept() {
    assert_eq!(
        answer_of(206, 100, Some(50)),
        Answer::Accepted(Transfer {
            resuming: true,
            start: Progress { done: 100, total: Some(150) },
        })
    );
}

#[test]
fn a_server_that_ignores_range_restarts_cleanly() {
    assert_eq!(
        answer_of(200, 100, Some(50)),
        Answer::Accepted(Transfer {
            resuming: false,
            start: Progress { done: 0, total: Some(50) },
        })
    );
    assert_eq!(
        answer_of(206, 0, None),
        Answer::Accepted(Transfer { resuming: false, start: Progress { done: 0, total: None } })
    );
}

#[test]
fn progress_counts_every_byte_written() {
    let p = Progress { done: 10, total: Some(30) };
    assert_eq!(advanced(p, 20), Progress { done: 30, total: Some(30) });
}

// ---------------------------------------------------------------------------
// GraphQL
// ---------------------------------------------------------------------------

#[test]
fn graphql_surfaces_errors_rather_than_returning_empty_data() {
    let err = graphql_result(r#"{"errors":[{"message":"nope"}],"data":null}"#).unwrap_err();
    match err {
        NexusError::Decode(m) => assert_eq!(m, "nope"),
        other => panic!("got {other:?}"),
    }
}

#[test]
fn every_graphql_error_is_named_and_an_unnamed_one_is_still_counted() {
    let err = graphql_result(r#"{"errors":[{"message":"a"},{"code":7}]}"#).unwrap_err();
    assert!(matches!(err, NexusError::Decode(ref m) if m == "a; unknown error"), "got {err:?}");
}

#[test]
fn graphql_data_is_handed_back_when_nothing_went_wrong() {
    let data = graphql_result(r#"{"errors":[],"data":{"n":3}}"#).unwrap();
    assert_eq!(data.get("n").and_then(|v| v.as_u64()), Some(3));
    assert!(matches!(graphql_result(r#"{"other":1}"#).unwrap(), JsonValue::Null));
    assert!(matches!(graphql_result("{oops").unwrap_err(), NexusError::Decode(_)));
}

#[test]
fn a_revision_lookup_posts_its_query_and_variables() {
    let body = graphql_payload("query {}", revision_variables("pack", 4, "stellarblade"));
    assert_eq!(
        body,
        r#"{"query":"query {}","variables":{"domain":"stellarblade","revision":4,"slug":"pack"}}"#
    );
    assert!(REVISION_QUERY.contains("collectionRevision("));
}

// ---------------------------------------------------------------------------
// The mod database's rules
// ---------------------------------------------------------------------------

#[test]
fn a_new_mod_goes_one_step_past_the_end_of_the_order() {
    assert_eq!(next_priority(None), 10);
    assert_eq!(next_priority(Some(20)), 30);
}

#[test]
fn reordering_writes_priorities_with_gaps() {
    assert_eq!(order_priorities(&[7, 3]), vec![(7, 10), (3, 20)]);
    assert!(order_priorities(&[]).is_empty());
}

#[test]
fn a_mod_is_listed_under_its_first_component() {
    let component = |t: ModType| DetectedComponent {
        mod_type: t,
        confidence: Confidence::High,
        files: Vec::new(),
        target_subdir: String::new(),
        ue4ss_mod_name: None,
        pak_sets: Vec::new(),
        warnings: Vec::new(),
        notes: Vec::new(),
    };
    assert_eq!(primary_type(&[]), "unknown");
    assert_eq!(
        primary_type(&[component(ModType::GenericPak), component(ModType::Movie)]),
        ModType::GenericPak.as_str()
    );
}

#[test]
fn the_first_listed_download_link_is_used() {
    let links = vec!["https://a.example/1".to_string(), "https://b.example/2".to_string()];
    assert_eq!(sbmm::client::first_download_link(links).unwrap(), "https://a.example/1");
    match sbmm::client::first_download_link(Vec::new()) {
        Err(sbmm::client::NexusError::Decode(m)) => assert_eq!(m, "no download links in the response"),
        other => panic!("expected a decode error, got {other:?}"),
    }
}

#[test]
fn only_trees_whose_numbers_are_known_can_be_written() {
    assert!(sbmm::json::is_encodable(&revision_variables("pack", 4, "stellarblade")));
    let unknown = JsonValue::Object(vec![(
        "ids".to_string(),
        JsonValue::Array(vec![JsonValue::Number(Some(1)), JsonValue::Number(None)]),
    )]);
    assert!(!sbmm::json::is_encodable(&unknown));
    assert!(sbmm::json::is_encodable(&JsonValue::Array(vec![JsonValue::Null, JsonValue::Bool(true)])));
}
