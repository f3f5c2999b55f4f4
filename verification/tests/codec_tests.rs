//! Snapshot round trips and the time text, against the real chrono.

use rss_reader::feed::{Feed, FeedItem, MediaEnclosure};
use rss_reader::snapshot::from_snapshot;
use rss_reader::store::SubscriptionList;
use rss_reader::timefmt::display_ts;

fn sample_store() -> SubscriptionList {
    let mut store = SubscriptionList::default();
    let f = Feed {
        url: "https://example.com/feed.xml".to_string(),
        title: Some("Example \"quoted\" title".to_string()),
        description: Some("line one\nline two".to_string()),
        last_fetched: Some(1736942400),
        created_at: Some(1700000000),
    };
    let i = FeedItem {
        id: "item-1".to_string(),
        feed_url: "https://example.com/feed.xml".to_string(),
        title: "A title with \\ backslash".to_string(),
        link: Some("https://example.com/a".to_string()),
        published: Some(1736942400),
        summary: None,
        content: Some("<p>Body</p>".to_string()),
        enclosures: vec![
            MediaEnclosure {
                url: "https://example.com/audio.mp3".to_string(),
                media_type: Some("audio/mpeg".to_string()),
                length: Some(1024),
                title: Some("Episode 1".to_string()),
            },
        ],
    };
    store.add_feed(f, vec![i]);
    store
}

#[test]
fn subscription_list_load_save_roundtrip() {
    let mut list = SubscriptionList::default();
    list.feeds.push(Feed {
        url: "https://example.com/feed.xml".to_string(),
        title: Some("Example".to_string()),
        description: None,
        last_fetched: None,
        created_at: None,
    });
    let text = list.to_snapshot().expect("snapshot should render");
    let loaded = from_snapshot(&text).expect("snapshot should parse");
    assert_eq!(loaded.feeds.len(), 1);
    assert_eq!(loaded.feeds[0].url, "https://example.com/feed.xml");
}

#[test]
fn snapshot_round_trip_preserves_every_field() {
    let store = sample_store();
    let text = store.to_snapshot().expect("snapshot should render");
    let loaded = from_snapshot(&text).expect("snapshot should parse");

    assert_eq!(loaded.feeds.len(), store.feeds.len());
    let (a, b) = (&loaded.feeds[0], &store.feeds[0]);
    assert_eq!(a.url, b.url);
    assert_eq!(a.title, b.title);
    assert_eq!(a.description, b.description);
    assert_eq!(a.last_fetched, b.last_fetched);
    assert_eq!(a.created_at, b.created_at);

    assert_eq!(loaded.items_by_feed.len(), 1);
    let (la, lb) = (&loaded.items_by_feed[0], &store.items_by_feed[0]);
    assert_eq!(la.feed_url, lb.feed_url);
    assert_eq!(la.items.len(), lb.items.len());
    let (ia, ib) = (&la.items[0], &lb.items[0]);
    assert_eq!(ia.id, ib.id);
    assert_eq!(ia.feed_url, ib.feed_url);
    assert_eq!(ia.title, ib.title);
    assert_eq!(ia.link, ib.link);
    assert_eq!(ia.published, ib.published);
    assert_eq!(ia.summary, ib.summary);
    assert_eq!(ia.content, ib.content);
    assert_eq!(ia.enclosures.len(), 1);
    assert_eq!(ia.enclosures[0].url, ib.enclosures[0].url);
    assert_eq!(ia.enclosures[0].media_type, ib.enclosures[0].media_type);
    assert_eq!(ia.enclosures[0].length, ib.enclosures[0].length);
    assert_eq!(ia.enclosures[0].title, ib.enclosures[0].title);
}

#[test]
fn snapshot_text_is_plain_json_with_rfc3339_timestamps() {
    let store = sample_store();
    let text = store.to_snapshot().expect("snapshot should render");
    assert!(text.starts_with("{\"feeds\":["));
    assert!(text.contains("2025-01-15T12:00:00+00:00"));
    let value: serde_json::Value = serde_json::from_str(&text).expect("snapshot should be JSON");
    assert_eq!(
        value["feeds"][0]["url"],
        serde_json::Value::String("https://example.com/feed.xml".to_string())
    );
    assert_eq!(
        value["items_by_feed"]["https://example.com/feed.xml"][0]["id"],
        serde_json::Value::String("item-1".to_string())
    );
}

#[test]
fn unreadable_snapshot_is_a_store_error_naming_the_construct() {
    match from_snapshot("this is not a snapshot") {
        Err(rss_reader::error::Error::Store(m)) => {
            assert_eq!(m, "snapshot does not open with a feeds list");
        },
        _ => panic!("garbage must give a store error"),
    }
    assert!(from_snapshot("").is_err());
    match from_snapshot("{\"feeds\":[],\"items_by_feed\":{}}trailing") {
        Err(rss_reader::error::Error::Store(m)) => {
            assert_eq!(m, "text after the end of the snapshot");
        },
        _ => panic!("trailing text must give a store error"),
    }
}

#[test]
fn control_characters_in_strings_survive_the_round_trip() {
    let mut store = SubscriptionList::default();
    store.add_feed(
        Feed {
            url: "u".to_string(),
            title: Some("tab\there\nand\u{1}ctrl".to_string()),
            description: None,
            last_fetched: None,
            created_at: None,
        },
        Vec::new(),
    );
    let text = store.to_snapshot().expect("snapshot should render");
    let loaded = from_snapshot(&text).expect("snapshot should parse");
    assert_eq!(loaded.feeds[0].title.as_deref(), Some("tab\there\nand\u{1}ctrl"));
}

#[test]
fn display_ts_formats_epoch_and_sample_date() {
    assert_eq!(display_ts(0), "1970-01-01 00:00");
    assert_eq!(display_ts(1736942400), "2025-01-15 12:00");
    assert_eq!(display_ts(-1), "?");
}
