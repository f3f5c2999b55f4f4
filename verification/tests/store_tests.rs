//! Store and merge behaviour on concrete values.

use rss_reader::feed::{Feed, FeedItem, MediaEnclosure};
use rss_reader::merge::merge_items;
use rss_reader::store::SubscriptionList;

fn item(id: &str, feed_url: &str, published: Option<i64>) -> FeedItem {
    FeedItem {
        id: id.to_string(),
        feed_url: feed_url.to_string(),
        title: format!("title of {}", id),
        link: None,
        published,
        summary: None,
        content: None,
        enclosures: Vec::new(),
    }
}

fn feed(url: &str, title: Option<&str>) -> Feed {
    Feed {
        url: url.to_string(),
        title: title.map(|t| t.to_string()),
        description: None,
        last_fetched: None,
        created_at: None,
    }
}

#[test]
fn feed_item_media_enclosure_types_exist_and_serialize() {
    let f = Feed {
        url: "https://example.com/feed.xml".to_string(),
        title: Some("Example".to_string()),
        description: None,
        last_fetched: None,
        created_at: None,
    };
    assert_eq!(f.url, "https://example.com/feed.xml");

    let e = MediaEnclosure {
        url: "https://example.com/img.png".to_string(),
        media_type: Some("image/png".to_string()),
        length: Some(1024),
        title: None,
    };
    assert!(!e.url.is_empty());

    let i = FeedItem {
        id: "1".to_string(),
        feed_url: f.url.clone(),
        title: "Item".to_string(),
        link: None,
        published: None,
        summary: None,
        content: None,
        enclosures: vec![e],
    };
    assert_eq!(i.id, "1");
    assert_eq!(i.enclosures.len(), 1);
}

#[test]
fn merge_keeps_newer_duplicate_and_drops_stale_copy() {
    // Existing [a@T1, b@T2] merged with new [a@T3], T3 > T2 > T1, cap 10:
    // the duplicate id "a" keeps the newer timestamp's position.
    let existing = vec![item("a", "u", Some(100)), item("b", "u", Some(200))];
    let new_items = vec![item("a", "u", Some(300))];
    let merged = merge_items(existing, new_items, 10);
    assert_eq!(merged.len(), 2);
    assert_eq!(merged[0].id, "a");
    assert_eq!(merged[0].published, Some(300));
    assert_eq!(merged[1].id, "b");
    assert_eq!(merged[1].published, Some(200));
}

#[test]
fn merge_sorts_descending_with_untimed_last() {
    let existing = vec![item("x", "u", None), item("y", "u", Some(50))];
    let new_items = vec![item("z", "u", Some(500))];
    let merged = merge_items(existing, new_items, 10);
    let ids: Vec<&str> = merged.iter().map(|i| i.id.as_str()).collect();
    assert_eq!(ids, vec!["z", "y", "x"]);
}

#[test]
fn merge_enforces_cap_dropping_oldest() {
    let existing: Vec<FeedItem> =
        (0..5).map(|k| item(&format!("e{}", k), "u", Some(100 + k))).collect();
    let new_items: Vec<FeedItem> =
        (0..5).map(|k| item(&format!("n{}", k), "u", Some(200 + k))).collect();
    let merged = merge_items(existing, new_items, 4);
    assert_eq!(merged.len(), 4);
    // Newest first: n4, n3, n2, n1.
    assert_eq!(merged[0].id, "n4");
    assert_eq!(merged[3].id, "n1");
}

#[test]
fn merge_stability_keeps_cached_copy_on_equal_timestamps() {
    let existing = vec![item("a", "u", Some(100))];
    let mut newer = item("a", "u", Some(100));
    newer.title = "other title".to_string();
    let merged = merge_items(existing, vec![newer], 10);
    assert_eq!(merged.len(), 1);
    // The earlier (cached) copy wins the tie.
    assert_eq!(merged[0].title, "title of a");
}

#[test]
fn add_feed_is_idempotent_on_identical_input() {
    let mut store = SubscriptionList::default();
    let items = vec![item("a", "u", Some(10)), item("b", "u", Some(20))];
    store.add_feed(feed("u", Some("One")), items.clone());
    let after_once: Vec<(String, Option<i64>)> =
        store.items(Some("u")).iter().map(|i| (i.id.clone(), i.published)).collect();
    store.add_feed(feed("u", Some("One")), items);
    let after_twice: Vec<(String, Option<i64>)> =
        store.items(Some("u")).iter().map(|i| (i.id.clone(), i.published)).collect();
    assert_eq!(after_once, after_twice);
    assert_eq!(store.feeds.len(), 1);
}

#[test]
fn items_across_feeds_are_globally_sorted() {
    let mut store = SubscriptionList::default();
    store.add_feed(feed("u1", None), vec![item("a", "u1", Some(100)), item("b", "u1", None)]);
    store.add_feed(feed("u2", None), vec![item("c", "u2", Some(300)), item("d", "u2", Some(50))]);
    let all = store.items(None);
    let ids: Vec<&str> = all.iter().map(|i| i.id.as_str()).collect();
    assert_eq!(ids, vec!["c", "a", "d", "b"]);
    for w in all.windows(2) {
        let l = w[0].published.map(|t| (1, t)).unwrap_or((0, 0));
        let r = w[1].published.map(|t| (1, t)).unwrap_or((0, 0));
        assert!(l >= r, "items must be sorted newest first, untimed last");
    }
}

#[test]
fn items_scoped_to_one_feed_filters() {
    let mut store = SubscriptionList::default();
    store.add_feed(feed("u1", None), vec![item("a", "u1", Some(100))]);
    store.add_feed(feed("u2", None), vec![item("c", "u2", Some(300))]);
    let only = store.items(Some("u2"));
    assert_eq!(only.len(), 1);
    assert_eq!(only[0].id, "c");
}

#[test]
fn get_item_finds_first_match_and_misses_cleanly() {
    let mut store = SubscriptionList::default();
    store.add_feed(feed("u1", None), vec![item("a", "u1", Some(100))]);
    let got = store.get_item("a", None).expect("item a should be found");
    assert_eq!(got.feed_url, "u1");
    assert!(store.get_item("zzz", None).is_none());
    assert!(store.get_item("a", Some("other")).is_none());
}

#[test]
fn remove_feed_clears_items_and_second_removal_fails() {
    let mut store = SubscriptionList::default();
    store.add_feed(feed("u1", None), vec![item("a", "u1", Some(100))]);
    store.add_feed(feed("u2", None), vec![item("c", "u2", Some(300))]);
    assert!(store.remove_feed("u1"));
    assert_eq!(store.items(Some("u1")).len(), 0);
    assert!(store.feeds.iter().all(|f| f.url != "u1"));
    assert!(!store.remove_feed("u1"));
    assert_eq!(store.items(None).len(), 1);
}

#[test]
fn add_feed_replaces_feed_record_wholesale() {
    let mut store = SubscriptionList::default();
    store.add_feed(feed("u", Some("Old title")), Vec::new());
    store.add_feed(feed("u", Some("New title")), Vec::new());
    assert_eq!(store.feeds.len(), 1);
    assert_eq!(store.feeds[0].title.as_deref(), Some("New title"));
}
