use sbmm::collection::{
    install_collection, number, parse_revision, plan_collection, read_manifest, Collection, CollectionError,
    CollectionMod, ManualMod, QueuedFile, Revision,
};
use sbmm::json::JsonValue;
use sbmm::queue::Queue;

/// A decoded document, the way the app hands one to the library.
fn decode(text: &str) -> JsonValue {
    fn convert(value: serde_json::Value) -> JsonValue {
        match value {
            serde_json::Value::Null => JsonValue::Null,
            serde_json::Value::Bool(b) => JsonValue::Bool(b),
            serde_json::Value::Number(n) => JsonValue::Number(n.as_u64()),
            serde_json::Value::String(s) => JsonValue::String(s),
            serde_json::Value::Array(items) => {
                JsonValue::Array(items.into_iter().map(convert).collect())
            }
            serde_json::Value::Object(fields) => JsonValue::Object(
                fields.into_iter().map(|(k, v)| (k, convert(v))).collect(),
            ),
        }
    }
    convert(serde_json::from_str(text).expect("test documents are valid JSON"))
}

fn parse(text: &str) -> Collection {
    sbmm::collection::parse(text).unwrap()
}

#[test]
fn invalid_json_is_an_error() {
    assert!(matches!(
        sbmm::collection::parse("not json"),
        Err(CollectionError::Invalid(_))
    ));
}

#[test]
fn a_decoded_manifest_reads_the_same_as_its_text() {
    let text = r#"{"info":{"name":"Pack"},"mods":[{"name":"A","source":{"type":"nexus","modId":1,"fileId":2}}]}"#;
    assert_eq!(read_manifest(&decode(text)), parse(text));
}

const MANIFEST: &str = r#"{
  "info": { "name": "Essential Stellar Blade", "version": "1.2.0", "author": "someone" },
  "mods": [
    {
      "name": "Aurora Suit",
      "version": "1.0",
      "optional": false,
      "source": { "type": "nexus", "modId": 123, "fileId": 456 }
    },
    {
      "name": "Optional Extras",
      "optional": true,
      "source": { "type": "nexus", "modId": "789", "fileId": "1011" }
    },
    {
      "name": "Something Elsewhere",
      "source": { "type": "browse", "url": "https://example.com/mod.zip" }
    }
  ]
}"#;

#[test]
fn reads_the_collection_details() {
    let collection = parse(MANIFEST);
    assert_eq!(collection.name, "Essential Stellar Blade");
    assert_eq!(collection.version.as_deref(), Some("1.2.0"));
    assert_eq!(collection.author.as_deref(), Some("someone"));
}

#[test]
fn nexus_entries_become_installable_mods() {
    let collection = parse(MANIFEST);
    assert_eq!(collection.mods.len(), 2);
    assert_eq!(collection.mods[0].mod_id, 123);
    assert_eq!(collection.mods[0].file_id, 456);
    assert!(!collection.mods[0].optional);
}

#[test]
fn ids_written_as_strings_are_accepted() {
    let collection = parse(MANIFEST);
    assert_eq!(collection.mods[1].mod_id, 789);
    assert_eq!(collection.mods[1].file_id, 1011);
    assert!(collection.mods[1].optional);
}

#[test]
fn entries_hosted_elsewhere_are_listed_for_the_user() {
    let collection = parse(MANIFEST);
    assert_eq!(collection.manual.len(), 1);
    assert_eq!(collection.manual[0].name, "Something Elsewhere");
    assert_eq!(
        collection.manual[0].url.as_deref(),
        Some("https://example.com/mod.zip")
    );
    assert!(collection.manual[0].reason.contains("browse"));
}

#[test]
fn unknown_fields_do_not_break_parsing() {
    let json = r#"{
      "info": { "name": "X", "somethingNew": 1 },
      "somethingElse": true,
      "mods": [
        { "name": "A", "futureField": [], "source": { "type": "nexus", "modId": 1, "fileId": 2 } }
      ]
    }"#;
    let collection = parse(json);
    assert_eq!(collection.mods.len(), 1);
}

#[test]
fn a_nexus_entry_missing_its_file_id_is_not_silently_dropped() {
    let json = r#"{"info":{"name":"X"},"mods":[
      {"name":"Half specified","source":{"type":"nexus","modId":1}}
    ]}"#;
    let collection = parse(json);
    assert!(collection.mods.is_empty());
    assert_eq!(collection.manual.len(), 1, "it must still be reported");
    assert_eq!(
        collection.manual[0].reason,
        "the collection does not say which file to download"
    );
}

#[test]
fn a_recommended_entry_counts_as_optional() {
    let json = r#"{"info":{"name":"X"},"mods":[
      {"name":"Maybe","type":"recommended","source":{"type":"nexus","modId":1,"fileId":2}}
    ]}"#;
    assert!(parse(json).mods[0].optional);
}

#[test]
fn a_manifest_with_no_mods_is_still_a_collection() {
    let collection = parse(r#"{"info":{"name":"Empty"}}"#);
    assert_eq!(collection.name, "Empty");
    assert!(collection.mods.is_empty());
}

#[test]
fn an_entry_without_a_source_says_so() {
    let collection = parse(r#"{"mods":[{"source":{}}, 7]}"#);
    assert_eq!(collection.name, "Collection");
    assert_eq!(collection.manual.len(), 2);
    assert_eq!(collection.manual[0].name, "Unnamed mod");
    assert_eq!(collection.manual[0].reason, "no download source given");
    assert_eq!(collection.manual[0].url, None);
}

#[test]
fn ids_are_read_as_numbers_or_digit_strings() {
    let doc = decode(r#"{"a": 5, "b": "+17", "c": "x1", "d": -3, "e": 2.5}"#);
    assert_eq!(number(&doc, "a"), Some(5));
    assert_eq!(number(&doc, "b"), Some(17));
    assert_eq!(number(&doc, "c"), None);
    assert_eq!(number(&doc, "d"), None);
    assert_eq!(number(&doc, "e"), None);
    assert_eq!(number(&doc, "missing"), None);
}

#[test]
fn a_revision_response_yields_its_mods_and_archive_link() {
    let data = decode(
        r#"{
        "collectionRevision": {
            "revisionNumber": 7,
            "downloadLink": "https://example.invalid/revision.zip",
            "collection": { "name": "Essential Stellar Blade", "slug": "abc123" },
            "modFiles": [
                { "optional": false,
                  "file": { "modId": 123, "fileId": 456, "name": "Aurora Suit", "version": "1.0" } },
                { "optional": true,
                  "file": { "modId": 789, "fileId": 1011, "name": "Optional Extras" } }
            ]
        }
    }"#,
    );

    let revision = parse_revision(&data);
    assert_eq!(revision.name, "Essential Stellar Blade");
    assert_eq!(revision.revision, 7);
    assert_eq!(
        revision.download_url.as_deref(),
        Some("https://example.invalid/revision.zip")
    );
    assert_eq!(revision.mods.len(), 2);
    assert_eq!(revision.mods[0].mod_id, 123);
    assert_eq!(revision.mods[0].file_id, 456);
    assert!(!revision.mods[0].optional);
    assert!(
        revision.mods[1].optional,
        "the flag sits on the wrapper, not the file"
    );
}

#[test]
fn mods_are_still_found_when_the_response_is_nested_differently() {
    let data = decode(
        r#"{
        "collectionRevision": {
            "collection": { "name": "Renamed Shape" },
            "someNewWrapper": {
                "edges": [
                    { "node": { "optional": true,
                                "modFile": { "modId": "42", "fileId": "99", "name": "Thing" } } }
                ]
            }
        }
    }"#,
    );

    let revision = parse_revision(&data);
    assert_eq!(revision.mods.len(), 1);
    assert_eq!(revision.mods[0].mod_id, 42, "ids may arrive as strings");
    assert_eq!(revision.mods[0].file_id, 99);
    assert!(revision.mods[0].optional);
}

#[test]
fn a_response_with_nothing_usable_is_empty_rather_than_an_error() {
    let revision = parse_revision(&decode(r#"{ "collectionRevision": null }"#));
    assert!(revision.mods.is_empty());
    assert_eq!(revision.download_url, None);
    assert_eq!(revision.name, "Collection");
}

#[test]
fn a_file_named_twice_in_a_row_is_listed_once() {
    let revision = parse_revision(&decode(
        r#"[{"modId":1,"fileId":2},{"modId":1,"fileId":2},{"modId":3,"fileId":4},{"modId":1,"fileId":2}]"#,
    ));
    let ids: Vec<(u64, u64)> = revision.mods.iter().map(|m| (m.mod_id, m.file_id)).collect();
    assert_eq!(ids, vec![(1, 2), (3, 4), (1, 2)]);
    assert_eq!(revision.revision, 0);
}

fn listed(name: &str, mod_id: u64) -> CollectionMod {
    CollectionMod { name: name.into(), mod_id, file_id: mod_id * 10, version: None, optional: false }
}

fn revision(mods: Vec<CollectionMod>, number: u64) -> Revision {
    Revision { name: "Pack".into(), revision: number, download_url: None, mods }
}

#[test]
fn the_archive_manifest_wins_over_the_inline_list() {
    let manifest = Collection {
        name: "ignored".into(),
        version: None,
        author: None,
        mods: vec![listed("From archive", 5)],
        manual: vec![ManualMod { name: "Elsewhere".into(), url: None, reason: "r".into() }],
    };
    let plan = plan_collection(
        "slug",
        3,
        revision(vec![listed("Inline", 1)], 0),
        Some(Ok(manifest)),
        &[5],
    )
    .unwrap();
    assert_eq!(plan.name, "Pack");
    assert_eq!(plan.slug, "slug");
    assert_eq!(plan.revision, 3, "the requested revision stands in for an unknown one");
    assert_eq!(plan.mods.len(), 1);
    assert_eq!(plan.mods[0].name, "From archive");
    assert!(plan.mods[0].installed);
    assert_eq!(plan.manual.len(), 1);
}

#[test]
fn a_broken_archive_falls_back_to_the_inline_list_when_there_is_one() {
    let plan = plan_collection(
        "slug",
        0,
        revision(vec![listed("Inline", 1)], 9),
        Some(Err("bad zip".into())),
        &[],
    )
    .unwrap();
    assert_eq!(plan.revision, 9);
    assert!(!plan.mods[0].installed);

    let failed = plan_collection("slug", 0, revision(vec![], 9), Some(Err("bad zip".into())), &[]);
    assert_eq!(failed.unwrap_err(), "bad zip");
}

#[test]
fn an_empty_collection_is_refused() {
    let failed = plan_collection("abc", 0, revision(vec![], 1), None, &[]);
    assert_eq!(
        failed.unwrap_err(),
        "the collection abc came back empty — check the link, or that the collection is published"
    );
}

#[test]
fn chosen_files_are_queued_under_their_collection() {
    let mut queue = Queue::new("stellarblade");
    let files = vec![
        QueuedFile { mod_id: 12, file_id: 34, name: "A".into(), version: Some("1".into()) },
        QueuedFile { mod_id: 56, file_id: 78, name: "B".into(), version: None },
    ];
    assert_eq!(install_collection(&mut queue, "pack", &files), 2);
    let items = queue.items();
    assert_eq!(items.len(), 2);
    assert_eq!(items[0].file_name, "12-34.zip");
    assert_eq!(items[0].collection.as_deref(), Some("pack"));
    assert_eq!(items[0].version.as_deref(), Some("1"));
    assert_eq!(items[1].file_name, "56-78.zip");
}
