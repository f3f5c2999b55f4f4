//! The command-line decision logic, run as a library.

use rss_reader::cli::{
    fetch_targets, output_json, run, Args, CliOutput, Command, EnclosureAction, FetchOutcome,
};
use rss_reader::error::Error;
use rss_reader::feed::{Feed, FeedItem, MediaEnclosure};
use rss_reader::fetch::parse_feed;
use rss_reader::gui::validate_url;
use rss_reader::media::download_filename;
use rss_reader::store::SubscriptionList;

fn args(cmd: Command) -> Args {
    Args { output: "human".to_string(), config: None, cmd }
}

fn feed(url: &str, title: Option<&str>) -> Feed {
    Feed {
        url: url.to_string(),
        title: title.map(|t| t.to_string()),
        description: None,
        last_fetched: None,
        created_at: None,
    }
}

fn item(id: &str, feed_url: &str, published: Option<i64>) -> FeedItem {
    FeedItem {
        id: id.to_string(),
        feed_url: feed_url.to_string(),
        title: format!("title of {}", id),
        link: None,
        published,
        summary: None,
        content: None,
        enclosures: Vec::new(),
    }
}

fn run_ok(a: &Args, store: &mut SubscriptionList, fetched: Vec<FetchOutcome>) -> CliOutput {
    run(a, store, fetched).expect("command should succeed")
}

#[test]
fn output_json_recognizes_the_mode_case_insensitively() {
    let mut a = args(Command::ListFeeds);
    assert!(!output_json(&a));
    a.output = "json".to_string();
    assert!(output_json(&a));
    a.output = "JSON".to_string();
    assert!(output_json(&a));
    a.output = "jso".to_string();
    assert!(!output_json(&a));
}

#[test]
fn add_invalid_url_returns_error_on_stderr_and_nonzero_exit() {
    let store = SubscriptionList::default();
    let a = args(Command::Add { url: "not-a-valid-url".to_string() });
    match fetch_targets(&a, &store) {
        Err(Error::InvalidUrl(_)) => {},
        _ => panic!("an unparseable URL must be rejected"),
    }
}

#[test]
fn add_empty_url_returns_error() {
    let store = SubscriptionList::default();
    let a = args(Command::Add { url: "   ".to_string() });
    match fetch_targets(&a, &store) {
        Err(Error::InvalidUrl(_)) => {},
        _ => panic!("an empty URL must be rejected"),
    }
}

#[test]
fn add_valid_url_is_fetched_then_applied() {
    let mut store = SubscriptionList::default();
    let a = args(Command::Add { url: " https://example.com/feed.xml ".to_string() });
    let targets = fetch_targets(&a, &store).expect("a well-formed URL passes validation");
    assert_eq!(targets, vec!["https://example.com/feed.xml".to_string()]);

    let outcome = FetchOutcome {
        url: targets[0].clone(),
        result: Ok((feed(&targets[0], Some("Example Feed")), vec![item("a", &targets[0], Some(5))])),
    };
    let out = run_ok(&a, &mut store, vec![outcome]);
    assert!(out.save);
    assert!(out.stdout.contains("Added feed: https://example.com/feed.xml"));
    assert_eq!(store.feeds.len(), 1);
    assert_eq!(store.items(None).len(), 1);
}

#[test]
fn add_failed_fetch_propagates_the_error() {
    let mut store = SubscriptionList::default();
    let a = args(Command::Add { url: "https://example.com/feed.xml".to_string() });
    let outcome = FetchOutcome {
        url: "https://example.com/feed.xml".to_string(),
        result: Err(Error::Fetch("connection refused".to_string())),
    };
    match run(&a, &mut store, vec![outcome]) {
        Err(Error::Fetch(m)) => assert_eq!(m, "connection refused"),
        _ => panic!("the fetch failure must come back"),
    }
    assert_eq!(store.feeds.len(), 0);
}

#[test]
fn list_items_with_no_feeds_produces_empty_stdout_and_success() {
    let mut store = SubscriptionList::default();
    let a = args(Command::ListItems { feed: None });
    let out = run_ok(&a, &mut store, Vec::new());
    assert_eq!(out.stdout, "");
    assert!(!out.save);
}

#[test]
fn remove_unknown_feed_returns_error_on_stderr_and_fails() {
    let mut store = SubscriptionList::default();
    let a = args(Command::Remove { url: "https://example.com/not-subscribed/feed.xml".to_string() });
    match run(&a, &mut store, Vec::new()) {
        Err(Error::NotFound(m)) => assert!(m.contains("not found"), "message: {}", m),
        _ => panic!("removing an unknown feed must fail with NotFound"),
    }
}

#[test]
fn remove_known_feed_confirms_and_saves() {
    let mut store = SubscriptionList::default();
    store.add_feed(feed("https://example.com/feed.xml", None), Vec::new());
    let a = args(Command::Remove { url: "https://example.com/feed.xml".to_string() });
    let out = run_ok(&a, &mut store, Vec::new());
    assert!(out.save);
    assert!(out.stdout.contains("Removed feed: https://example.com/feed.xml"));
    assert_eq!(store.feeds.len(), 0);
}

#[test]
fn show_nonexistent_item_id_writes_to_stderr_and_fails() {
    let mut store = SubscriptionList::default();
    let a = args(Command::Show { item_id: "nonexistent-id-12345".to_string() });
    match run(&a, &mut store, Vec::new()) {
        Err(Error::NotFound(m)) => assert!(m.contains("not found"), "message: {}", m),
        _ => panic!("showing a missing item must fail with NotFound"),
    }
}

fn store_with_structured_article() -> SubscriptionList {
    let mut store = SubscriptionList::default();
    let mut it = item("format-test-id-1", "https://example.com/feed.xml", Some(1736942400));
    it.title = "Article With Structure".to_string();
    it.link = Some("https://example.com/article".to_string());
    it.content = Some(
        "<h2>First Section</h2><p>First paragraph with a <a href=\"https://example.com/link\">link</a>.</p><h2>Second Section</h2><p>Second paragraph.</p><ul><li>Item one</li><li>Item two</li></ul>"
            .to_string(),
    );
    store.add_feed(feed("https://example.com/feed.xml", Some("Example Feed")), vec![it]);
    store
}

#[test]
fn show_article_with_structure_prints_title_date_and_blocks() {
    let mut store = store_with_structured_article();
    let a = args(Command::Show { item_id: "format-test-id-1".to_string() });
    let out = run_ok(&a, &mut store, Vec::new());
    let stdout = out.stdout;
    assert!(stdout.contains("Article With Structure"));
    assert!(stdout.contains("2025-01-15"));
    assert!(stdout.contains("example.com"));
    assert!(stdout.contains("First Section") || stdout.contains("Section"));
    assert!(stdout.contains("First paragraph") || stdout.contains("link"));
    assert!(stdout.contains("http"));
    assert!(stdout.trim().lines().count() >= 3);
}

#[test]
fn store_updated_via_library_appears_in_cli_list_feeds() {
    let mut store = SubscriptionList::default();
    store.add_feed(feed("https://example.com/feed.xml", Some("Example Feed")), Vec::new());
    let a = args(Command::ListFeeds);
    let out = run_ok(&a, &mut store, Vec::new());
    assert!(out.stdout.contains("example.com"), "list-feeds should show the feed: {}", out.stdout);
    assert!(out.stdout.contains("Example Feed"));
}

#[test]
fn list_feeds_json_mode_emits_json() {
    let mut store = SubscriptionList::default();
    store.add_feed(feed("https://example.com/feed.xml", Some("Example Feed")), Vec::new());
    let mut a = args(Command::ListFeeds);
    a.output = "json".to_string();
    let out = run_ok(&a, &mut store, Vec::new());
    let value: serde_json::Value = serde_json::from_str(&out.stdout).expect("stdout must be JSON");
    assert_eq!(
        value[0]["url"],
        serde_json::Value::String("https://example.com/feed.xml".to_string())
    );
    assert_eq!(
        value[0]["title"],
        serde_json::Value::String("Example Feed".to_string())
    );
}

fn store_with_enclosure() -> SubscriptionList {
    let mut store = SubscriptionList::default();
    let mut it = item("media-test-id-1", "https://example.com/feed.xml", Some(1736942400));
    it.title = "Episode 1".to_string();
    it.enclosures = vec![MediaEnclosure {
        url: "https://example.com/audio.mp3".to_string(),
        media_type: Some("audio/mpeg".to_string()),
        length: Some(123456),
        title: None,
    }];
    store.add_feed(feed("https://example.com/feed.xml", None), vec![it]);
    store
}

#[test]
fn show_item_with_enclosure_lists_enclosures() {
    let mut store = store_with_enclosure();
    let a = args(Command::Show { item_id: "media-test-id-1".to_string() });
    let out = run_ok(&a, &mut store, Vec::new());
    assert!(out.stdout.contains("Media:"), "{}", out.stdout);
    assert!(out.stdout.contains("audio.mp3"));
    assert!(out.stdout.contains("example.com"));
    assert!(out.stdout.contains("audio/mpeg"));
    assert!(out.stdout.contains("Episode 1"));
}

#[test]
fn open_enclosure_subcommand_exists_and_accepts_item_id_and_index() {
    let mut store = store_with_enclosure();
    let a = args(Command::OpenEnclosure {
        item_id: "media-test-id-1".to_string(),
        index: 0,
        download: false,
        output_dir: None,
    });
    let out = run_ok(&a, &mut store, Vec::new());
    match out.action {
        Some(EnclosureAction::Open(e)) => assert_eq!(e.url, "https://example.com/audio.mp3"),
        other => panic!("expected an open action: {:?}", other.is_some()),
    }
}

#[test]
fn open_enclosure_bad_index_is_not_found() {
    let mut store = store_with_enclosure();
    let a = args(Command::OpenEnclosure {
        item_id: "media-test-id-1".to_string(),
        index: 7,
        download: true,
        output_dir: Some("/tmp".to_string()),
    });
    match run(&a, &mut store, Vec::new()) {
        Err(Error::NotFound(m)) => assert!(m.contains("enclosure index 7"), "{}", m),
        _ => panic!("bad index must be NotFound"),
    }
}

#[test]
fn refresh_applies_successes_and_reports_failures() {
    let mut store = SubscriptionList::default();
    store.add_feed(feed("u1", None), Vec::new());
    store.add_feed(feed("u2", None), Vec::new());
    let a = args(Command::Refresh { feed: None });
    let targets = fetch_targets(&a, &store).expect("refresh targets never fail");
    assert_eq!(targets, vec!["u1".to_string(), "u2".to_string()]);

    let fetched = vec![
        FetchOutcome {
            url: "u1".to_string(),
            result: Ok((feed("u1", Some("One")), vec![item("a", "u1", Some(5))])),
        },
        FetchOutcome {
            url: "u2".to_string(),
            result: Err(Error::Fetch("timed out".to_string())),
        },
    ];
    let out = run_ok(&a, &mut store, fetched);
    assert!(out.save);
    assert!(out.stdout.contains("Refreshed 1 feed(s)"), "{}", out.stdout);
    assert!(out.stdout.contains("timed out"), "failures must be reported: {}", out.stdout);
    assert_eq!(store.items(Some("u1")).len(), 1);
}

#[test]
fn validate_url_matches_the_dialog_rules() {
    assert_eq!(validate_url("  "), Some("URL cannot be empty.".to_string()));
    assert_eq!(validate_url("not a url"), Some("Invalid URL.".to_string()));
    assert_eq!(validate_url(" https://example.com/feed.xml "), None);
}

#[test]
fn parse_feed_reads_a_real_rss_document() {
    let xml = "<?xml version=\"1.0\"?><rss version=\"2.0\"><channel><title>Example Feed</title><description>Sample</description><item><guid>id-1</guid><title>First post</title><link>https://example.com/one</link><pubDate>Wed, 15 Jan 2025 12:00:00 GMT</pubDate><description>Hello</description></item></channel></rss>";
    let (f, items) = parse_feed("https://example.com/feed.xml", xml.as_bytes())
        .expect("well-formed RSS should parse");
    assert_eq!(f.url, "https://example.com/feed.xml");
    assert_eq!(f.title.as_deref(), Some("Example Feed"));
    assert!(f.last_fetched.is_some());
    assert_eq!(items.len(), 1);
    assert_eq!(items[0].id, "id-1");
    assert_eq!(items[0].title, "First post");
    assert_eq!(items[0].feed_url, "https://example.com/feed.xml");
    assert_eq!(items[0].published, Some(1736942400));
}

#[test]
fn parse_feed_rejects_garbage_as_parse_error() {
    match parse_feed("u", b"this is not xml at all") {
        Err(Error::Parse(_)) => {},
        _ => panic!("garbage bytes must be a parse error"),
    }
}

#[test]
fn error_messages_carry_their_kind_prefix() {
    assert_eq!(
        Error::InvalidUrl("x".to_string()).message(),
        "Invalid URL: x"
    );
    assert_eq!(Error::Fetch("y".to_string()).message(), "Fetch failed: y");
    assert_eq!(Error::Parse("z".to_string()).message(), "Parse error: z");
    assert_eq!(Error::Io("a".to_string()).message(), "IO error: a");
    assert_eq!(Error::Store("b".to_string()).message(), "Store error: b");
    assert_eq!(Error::NotFound("c".to_string()).message(), "Not found: c");
}

#[test]
fn download_filename_takes_last_segment_without_query() {
    assert_eq!(download_filename("https://example.com/a/b/audio.mp3?sig=1"), "audio.mp3");
    assert_eq!(download_filename("audio.mp3"), "audio.mp3");
    assert_eq!(download_filename("https://example.com/dir/"), "");
    assert_eq!(download_filename("https://example.com/ep?x=1?y=2"), "ep");
}
