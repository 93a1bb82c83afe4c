use std::time::Duration;

use sbmm::client::{check, download_link_failure, should_retry, NexusClient, NexusError};
use sbmm::collection::{parse_link, safe_file_name};
use sbmm::nxm::{parse, percent_decode, NxmCollection, NxmError, NxmLink};
use sbmm::queue::{after_fetch_error, after_link_error, DownloadState, Queue, QueueItem, StepAfter};
use sbmm::ratelimit::{backoff, is_retryable, RateLimit};

const GAME: &str = "stellarblade";

// ---------------------------------------------------------------------------
// nxm:// links
// ---------------------------------------------------------------------------

#[test]
fn reads_a_mod_file_link_with_credentials() {
    let link = parse(
        "nxm://stellarblade/mods/123/files/456?key=abc123&expires=1700000000&user_id=42",
        GAME,
    )
    .unwrap();

    let NxmLink::File(file) = link else {
        panic!("expected a file link");
    };
    assert_eq!(file.mod_id, 123);
    assert_eq!(file.file_id, 456);
    assert_eq!(file.key.as_deref(), Some("abc123"));
    assert_eq!(file.expires, Some(1_700_000_000));
    assert_eq!(file.user_id, Some(42));
    assert!(file.has_credentials());
}

#[test]
fn a_link_without_credentials_is_still_valid() {
    let NxmLink::File(file) = parse("nxm://stellarblade/mods/1/files/2", GAME).unwrap() else {
        panic!("expected a file link");
    };
    assert!(!file.has_credentials(), "a premium account can fetch this without a key");
}

#[test]
fn percent_encoded_keys_survive() {
    let NxmLink::File(file) =
        parse("nxm://stellarblade/mods/1/files/2?key=a%2Bb%2Fc%3D&expires=1", GAME).unwrap()
    else {
        panic!("expected a file link");
    };
    assert_eq!(file.key.as_deref(), Some("a+b/c="));
}

#[test]
fn reads_a_collection_link() {
    let link = parse("nxm://stellarblade/collections/abc123/revisions/7", GAME).unwrap();
    assert_eq!(
        link,
        NxmLink::Collection(NxmCollection {
            domain: "stellarblade".into(),
            slug: "abc123".into(),
            revision: 7,
        })
    );
}

#[test]
fn a_bare_collection_link_means_the_latest_revision() {
    let NxmLink::Collection(collection) = parse("nxm://stellarblade/collections/abc123", GAME).unwrap()
    else {
        panic!("expected a collection link");
    };
    assert_eq!(collection.revision, 0);
}

#[test]
fn a_link_for_another_game_is_refused_by_name() {
    let err = parse("nxm://skyrimspecialedition/mods/1/files/2", GAME).unwrap_err();
    assert_eq!(
        err,
        NxmError::WrongGame { found: "skyrimspecialedition".into(), expected: GAME.into() }
    );
}

#[test]
fn the_scheme_is_matched_case_insensitively() {
    assert!(parse("NXM://StellarBlade/mods/1/files/2", GAME).is_ok());
}

#[test]
fn rejects_things_that_are_not_nxm_links() {
    assert_eq!(parse("https://nexusmods.com/stellarblade/mods/1", GAME).unwrap_err(), NxmError::NotNxm);
}

#[test]
fn rejects_malformed_links() {
    for bad in [
        "nxm://stellarblade",
        "nxm://stellarblade/mods",
        "nxm://stellarblade/mods/notanumber/files/2",
        "nxm://stellarblade/mods/1/2",
        "nxm://stellarblade/something/1",
    ] {
        assert!(
            matches!(parse(bad, GAME), Err(NxmError::Malformed(_))),
            "{bad} should be malformed, got {:?}",
            parse(bad, GAME)
        );
    }
}

#[test]
fn malformed_links_say_what_is_wrong() {
    assert_eq!(
        parse("nxm://stellarblade", GAME).unwrap_err(),
        NxmError::Malformed("unsupported link type: (none)".into())
    );
    assert_eq!(
        parse("nxm://stellarblade/mods", GAME).unwrap_err(),
        NxmError::Malformed("missing mod id".into())
    );
    assert_eq!(
        parse("nxm://stellarblade/mods/x/files/2", GAME).unwrap_err(),
        NxmError::Malformed("mod id is not a number".into())
    );
    assert_eq!(
        parse("nxm://stellarblade/Other/1", GAME).unwrap_err(),
        NxmError::Malformed("unsupported link type: other".into())
    );
    assert_eq!(
        parse("nxm:///", GAME).unwrap_err().message(),
        "malformed nxm:// link: no game domain"
    );
}

#[test]
fn the_last_repeat_of_a_query_key_wins_and_odd_escapes_pass_through() {
    let NxmLink::File(file) =
        parse("nxm://stellarblade/mods/1/files/2?KEY=a&key=b+c%zz%4&expires=x", GAME).unwrap()
    else {
        panic!("expected a file link");
    };
    assert_eq!(file.key.as_deref(), Some("b c%zz%4"));
    assert_eq!(file.expires, None);
    assert_eq!(percent_decode("%41%2b%+F"), "A+\u{f}");
    assert_eq!(percent_decode("%C3%A9"), "é");
    assert_eq!(percent_decode("%FF"), "\u{fffd}");
}

// ---------------------------------------------------------------------------
// Rate limits
// ---------------------------------------------------------------------------

#[test]
fn reads_the_allowance_headers() {
    let limit = RateLimit::from_headers(&[
        ("X-RL-Hourly-Remaining", "97"),
        ("X-RL-Hourly-Limit", "100"),
        ("x-rl-daily-remaining", "2400"),
    ]);
    assert_eq!(limit.hourly_remaining, Some(97));
    assert_eq!(limit.hourly_limit, Some(100));
    assert_eq!(limit.daily_remaining, Some(2400));
    assert!(!limit.is_exhausted());
}

#[test]
fn zero_remaining_counts_as_exhausted() {
    let limit = RateLimit::from_headers(&[("X-RL-Hourly-Remaining", "0")]);
    assert!(limit.is_exhausted());
}

#[test]
fn merging_keeps_values_the_newer_reading_did_not_mention() {
    let mut limit = RateLimit::from_headers(&[("X-RL-Daily-Limit", "2500")]);
    limit.merge(RateLimit::from_headers(&[("X-RL-Hourly-Remaining", "5")]));

    assert_eq!(limit.daily_limit, Some(2500), "the older value must survive");
    assert_eq!(limit.hourly_remaining, Some(5));
}

#[test]
fn the_servers_retry_after_wins_over_our_backoff() {
    assert_eq!(Duration::from_secs(backoff(1, Some(30))), Duration::from_secs(30));
}

#[test]
fn backoff_grows_then_levels_off() {
    assert_eq!(Duration::from_secs(backoff(1, None)), Duration::from_secs(2));
    assert_eq!(Duration::from_secs(backoff(3, None)), Duration::from_secs(8));
    assert_eq!(Duration::from_secs(backoff(10, None)), Duration::from_secs(60));
}

#[test]
fn only_throttling_and_server_faults_are_retried() {
    assert!(is_retryable(429));
    assert!(is_retryable(503));
    assert!(!is_retryable(404));
    assert!(!is_retryable(403), "a bad key will not fix itself");
}

#[test]
fn header_values_are_trimmed_and_signed_and_retry_after_is_capped() {
    let limit = RateLimit::from_headers(&[
        ("x-rl-daily-remaining", " -3 "),
        ("Retry-After", "7200"),
        ("x-rl-hourly-limit", "lots"),
    ]);
    assert_eq!(limit.daily_remaining, Some(-3));
    assert!(limit.is_exhausted());
    assert_eq!(limit.reset_after_secs, Some(7200));
    assert_eq!(limit.hourly_limit, None);
    assert_eq!(backoff(1, Some(7200)), 3600);
    assert_eq!(backoff(0, None), 1);
}

// ---------------------------------------------------------------------------
// Client
// ---------------------------------------------------------------------------

#[test]
fn only_transient_failures_are_retried() {
    assert!(should_retry(&NexusError::RateLimited));
    assert!(should_retry(&NexusError::Network("reset".into())));
    assert!(should_retry(&NexusError::Http { status: 502, body: String::new() }));
    assert!(!should_retry(&NexusError::PremiumRequired));
    assert!(!should_retry(&NexusError::BadApiKey));
}

#[test]
fn statuses_become_bodies_or_errors() {
    assert_eq!(check(200, "ok".into()).unwrap(), "ok");
    assert!(matches!(check(401, String::new()), Err(NexusError::BadApiKey)));
    assert!(matches!(check(429, String::new()), Err(NexusError::RateLimited)));
    assert!(matches!(check(404, "no".into()), Err(NexusError::Http { status: 404, .. })));
    assert!(matches!(
        download_link_failure(NexusError::Http { status: 403, body: String::new() }, true),
        NexusError::LinkExpired
    ));
    assert!(matches!(
        download_link_failure(NexusError::Http { status: 403, body: String::new() }, false),
        NexusError::PremiumRequired
    ));
    assert_eq!(
        NexusError::Http { status: 500, body: "oops".into() }.message(),
        "nexus returned 500: oops"
    );
}

#[test]
fn requests_are_built_from_the_key_and_the_game() {
    let mut client = NexusClient::new("KEY", GAME);
    assert_eq!(client.mod_info_path(440), "/v1/games/stellarblade/mods/440.json");
    assert_eq!(
        client.download_link_path(1, 2, Some(("k", 9))),
        "/v1/games/stellarblade/mods/1/files/2/download_link.json?key=k&expires=9"
    );
    assert_eq!(client.url_for("/x").unwrap(), "https://api.nexusmods.com/x");
    assert!(matches!(NexusClient::new("", GAME).url_for("/x"), Err(NexusError::NoApiKey)));
    client.record_limits(&[("X-RL-Hourly-Remaining", "42")]);
    assert_eq!(client.rate_limit().hourly_remaining, Some(42));
    assert_eq!(client.headers()[0], ("apikey".to_string(), "KEY".to_string()));
}

// ---------------------------------------------------------------------------
// Queue
// ---------------------------------------------------------------------------

#[test]
fn an_nxm_link_revives_a_waiting_item_without_duplicating_it() {
    let mut q = Queue::new(GAME);
    let first = q.push(QueueItem::new(1, 2, "Mod", "mod.zip"));
    let other = q.push(QueueItem::new(3, 4, "Other", "other.zip"));
    assert_eq!((first, other), (1, 2));
    q.set_waiting(first);
    let again = q.push(QueueItem::new(1, 2, "Mod", "mod.zip").with_credentials("k", 5));
    assert_eq!(again, first);
    let items = q.items();
    assert_eq!(items.len(), 2);
    assert_eq!(items[0].state, DownloadState::Queued);
    assert!(items[0].has_credentials());
}

#[test]
fn a_push_without_credentials_changes_nothing_and_ids_are_never_reused() {
    let mut q = Queue::new(GAME);
    let first = q.push(QueueItem::new(1, 2, "Mod", "mod.zip"));
    q.set_waiting(first);
    assert_eq!(q.push(QueueItem::new(1, 2, "Mod", "mod.zip")), first);
    let items = q.items();
    assert_eq!(items.len(), 1);
    assert_eq!(items[0].state, DownloadState::NeedsUserAction);
    q.set_state(first, DownloadState::Done);
    q.clear_finished();
    let second = q.push(QueueItem::new(1, 2, "Mod", "mod.zip"));
    assert_ne!(second, first);
    assert_eq!(q.items().len(), 1);
}

#[test]
fn cancelling_and_clearing_keep_only_what_is_still_open() {
    let mut q = Queue::new(GAME);
    let a = q.push(QueueItem::new(1, 1, "A", "a.zip"));
    let b = q.push(QueueItem::new(2, 2, "B", "b.zip"));
    let c = q.push(QueueItem::new(3, 3, "C", "c.zip"));
    let started = q.take_next().unwrap();
    assert_eq!(started.id, a);
    assert_eq!(q.items()[0].state, DownloadState::Running);
    q.set_state(a, DownloadState::Done);
    q.cancel(b);
    assert!(q.is_cancelled(b));
    q.clear_finished();
    let left: Vec<u64> = q.items().iter().map(|i| i.id).collect();
    assert_eq!(left, vec![c]);
    assert_eq!(
        q.mod_page(&q.items()[0]),
        "https://www.nexusmods.com/stellarblade/mods/3?tab=files&file_id=3&nmm=1"
    );
}

#[test]
fn failures_are_retried_until_the_attempts_run_out() {
    assert!(matches!(after_link_error(&NexusError::PremiumRequired, 1), StepAfter::NeedsUser));
    assert!(matches!(after_link_error(&NexusError::RateLimited, 1), StepAfter::Retry(2)));
    assert!(matches!(after_fetch_error(&NexusError::RateLimited, 4), StepAfter::Fail(_)));
    match after_fetch_error(&NexusError::BadApiKey, 1) {
        StepAfter::Fail(m) => assert_eq!(m, "the API key was rejected"),
        other => panic!("expected a failure, got {other:?}"),
    }
}

// ---------------------------------------------------------------------------
// Collection links
// ---------------------------------------------------------------------------

#[test]
fn a_collection_link_is_read_in_any_of_the_forms_a_user_has() {
    assert_eq!(
        parse_link("nxm://stellarblade/collections/abc123/revisions/4").unwrap(),
        ("abc123".to_string(), 4)
    );
    assert_eq!(
        parse_link("https://next.nexusmods.com/stellarblade/collections/abc123").unwrap(),
        ("abc123".to_string(), 0)
    );
    assert_eq!(
        parse_link("https://next.nexusmods.com/stellarblade/collections/abc123?tab=mods").unwrap(),
        ("abc123".to_string(), 0)
    );
    assert_eq!(
        parse_link("abc123").unwrap(),
        ("abc123".to_string(), 0),
        "the slug on its own is what people copy out of a URL"
    );
}

#[test]
fn a_page_url_carrying_a_revision_keeps_it() {
    assert_eq!(
        parse_link("https://next.nexusmods.com/stellarblade/collections/abc123/revisions/12").unwrap(),
        ("abc123".to_string(), 12)
    );
}

#[test]
fn anything_that_is_not_a_collection_is_refused_with_a_reason() {
    assert!(parse_link("").is_err());
    assert!(parse_link("https://www.nexusmods.com/stellarblade/mods/440").is_err());
    assert!(
        parse_link("nxm://stellarblade/mods/440/files/1899").is_err(),
        "a single-mod link goes through the downloads screen instead"
    );
    assert!(
        parse_link("nxm://skyrimspecialedition/collections/abc").is_err(),
        "a collection for another game cannot be installed here"
    );
}

#[test]
fn download_names_never_leave_the_downloads_folder() {
    assert_eq!(safe_file_name("../../evil.zip"), "evil.zip");
    assert_eq!(safe_file_name("a/.."), "download.bin");
    assert_eq!(safe_file_name(""), "download.bin");
    assert_eq!(safe_file_name("Mod-1-0.7z"), "Mod-1-0.7z");
}

// ---------------------------------------------------------------------------
// A queue carried across restarts, and links from the browser
// ---------------------------------------------------------------------------

#[test]
fn states_are_saved_under_names_that_read_back() {
    let all = [
        DownloadState::Queued,
        DownloadState::Running,
        DownloadState::Done,
        DownloadState::Failed,
        DownloadState::Cancelled,
        DownloadState::NeedsUserAction,
    ];
    for state in all {
        assert_eq!(DownloadState::from_str_id(state.as_str()), Some(state));
    }
    assert_eq!(DownloadState::NeedsUserAction.as_str(), "needsUserAction");
    assert_eq!(DownloadState::from_str_id("paused"), None);
}

#[test]
fn a_restored_queue_keeps_its_items_and_hands_out_fresh_ids() {
    let interrupted = QueueItem::restored(
        7, 10, 20, "A".into(), "a.zip".into(), Some("1.0".into()), DownloadState::Running,
        Some(100), None, None,
    );
    assert_eq!(interrupted.state, DownloadState::Queued, "a cut-off transfer is resumed");
    assert_eq!(interrupted.bytes_done, 0);
    assert!(!interrupted.has_credentials());
    let failed = QueueItem::restored(
        3, 11, 21, "B".into(), "b.zip".into(), None, DownloadState::Failed, None,
        Some("boom".into()), Some("pack".into()),
    );

    let mut q = Queue::new("stellarblade");
    q.restore(vec![interrupted, failed]);
    let ids: Vec<u64> = q.items().iter().map(|i| i.id).collect();
    assert_eq!(ids, vec![7, 3]);
    assert_eq!(q.push(QueueItem::new(99, 1, "New", "new.zip")), 8);
}

#[test]
fn an_nxm_link_queues_its_file_with_the_links_credentials() {
    let described = sbmm::client::Described {
        name: "Aurora".into(),
        file_name: "aurora.zip".into(),
        version: Some("2.0".into()),
    };
    let link = match parse("nxm://stellarblade/mods/12/files/34?key=abc&expires=99", "stellarblade").unwrap() {
        NxmLink::File(f) => f,
        other => panic!("not a file link: {other:?}"),
    };
    let item = sbmm::queue::item_for_link(&link, described);
    assert_eq!((item.mod_id, item.file_id), (12, 34));
    assert_eq!(item.name, "Aurora");
    assert_eq!(item.version.as_deref(), Some("2.0"));
    assert_eq!(item.credentials(), Some(("abc".to_string(), 99)));

    let premium = match parse("nxm://stellarblade/mods/12/files/34", "stellarblade").unwrap() {
        NxmLink::File(f) => f,
        other => panic!("not a file link: {other:?}"),
    };
    let described = sbmm::client::Described { name: "A".into(), file_name: "a.zip".into(), version: None };
    assert!(!sbmm::queue::item_for_link(&premium, described).has_credentials());
}

#[test]
fn only_nxm_links_are_taken_from_outside() {
    assert!(sbmm::app::is_nxm_url("nxm://stellarblade/mods/1/files/2"));
    assert!(sbmm::app::is_nxm_url("NXM://StellarBlade/mods/1/files/2"));
    assert!(!sbmm::app::is_nxm_url("--flag"));
    assert!(!sbmm::app::is_nxm_url("https://nexusmods.com"));
}

#[test]
fn each_release_stream_has_its_own_manifest() {
    assert!(sbmm::app::updater_endpoint("nightly").contains("/download/nightly/"));
    assert!(sbmm::app::updater_endpoint("stable").contains("/latest/download/"));
    assert_eq!(sbmm::app::updater_endpoint("beta"), sbmm::app::updater_endpoint("stable"));
}
