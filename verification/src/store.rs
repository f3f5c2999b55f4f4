//! The subscription store: the set of feeds and, per feed, its cached
//! item list. Mutations keep every per-feed list sorted by recency,
//! free of duplicate ids and within the cap; queries materialize a
//! globally sorted view.

use vstd::prelude::*;
use vstd::string::StringExecFns;

use crate::feed::{
    clone_items, lemma_deep_view_concat, lemma_deep_view_pop_front, lemma_deep_view_push, Feed,
    FeedItem, FeedItemV, FeedV,
};
use crate::merge::{
    lemma_merge_spec_props, merge_items, merge_spec, sort_desc, sort_items, sorted_desc,
};

verus! {

/// Every feed keeps at most this many cached items.
pub const DEFAULT_CAP_PER_FEED: usize = 500;

/// One feed's cached item list, keyed by the feed's URL.
pub struct FeedItemList {
    pub feed_url: String,
    pub items: Vec<FeedItem>,
}

/// Mathematical image of a `FeedItemList`.
pub struct FeedItemListV {
    pub feed_url: Seq<char>,
    pub items: Seq<FeedItemV>,
}

impl DeepView for FeedItemList {
    type V = FeedItemListV;

    open spec fn deep_view(&self) -> FeedItemListV {
        FeedItemListV { feed_url: self.feed_url.deep_view(), items: self.items.deep_view() }
    }
}

/// The in-memory subscription list plus item cache.
pub struct SubscriptionList {
    pub feeds: Vec<Feed>,
    pub items_by_feed: Vec<FeedItemList>,
}

/// Mathematical image of a `SubscriptionList`.
pub struct SubscriptionListV {
    pub feeds: Seq<FeedV>,
    pub items_by_feed: Seq<FeedItemListV>,
}

impl DeepView for SubscriptionList {
    type V = SubscriptionListV;

    open spec fn deep_view(&self) -> SubscriptionListV {
        SubscriptionListV {
            feeds: self.feeds.deep_view(),
            items_by_feed: self.items_by_feed.deep_view(),
        }
    }
}

impl Default for SubscriptionList {
    /// The empty store: no feeds, no item lists.
    fn default() -> (r: Self)
        ensures
            r.deep_view().feeds == Seq::<FeedV>::empty(),
            r.deep_view().items_by_feed == Seq::<FeedItemListV>::empty(),
    {
        let r = SubscriptionList { feeds: Vec::new(), items_by_feed: Vec::new() };
        proof {
            assert(r.feeds.deep_view() =~= Seq::<FeedV>::empty());
            assert(r.items_by_feed.deep_view() =~= Seq::<FeedItemListV>::empty());
        }
        r
    }
}

/// The store under its operational name.
pub type Store = SubscriptionList;

/// Some feed carries this URL.
pub open spec fn has_feed(feeds: Seq<FeedV>, url: Seq<char>) -> bool {
    exists|i: int| 0 <= i < feeds.len() && feeds[i].url == url
}

/// The feed list without every record carrying `url`.
pub open spec fn drop_feed(feeds: Seq<FeedV>, url: Seq<char>) -> Seq<FeedV>
    decreases feeds.len(),
{
    if feeds.len() == 0 {
        Seq::<FeedV>::empty()
    } else if feeds[0].url == url {
        drop_feed(feeds.drop_first(), url)
    } else {
        seq![feeds[0]] + drop_feed(feeds.drop_first(), url)
    }
}

/// The item mapping without every entry keyed by `url`.
pub open spec fn drop_lists(m: Seq<FeedItemListV>, url: Seq<char>) -> Seq<FeedItemListV>
    decreases m.len(),
{
    if m.len() == 0 {
        Seq::<FeedItemListV>::empty()
    } else if m[0].feed_url == url {
        drop_lists(m.drop_first(), url)
    } else {
        seq![m[0]] + drop_lists(m.drop_first(), url)
    }
}

/// The item list of the first entry keyed by `url`; empty if none is.
pub open spec fn lookup_items(m: Seq<FeedItemListV>, url: Seq<char>) -> Seq<FeedItemV>
    decreases m.len(),
{
    if m.len() == 0 {
        Seq::<FeedItemV>::empty()
    } else if m[0].feed_url == url {
        m[0].items
    } else {
        lookup_items(m.drop_first(), url)
    }
}

/// Does this feed URL pass the optional filter?
pub open spec fn matches_filter(url: Seq<char>, filter: Option<Seq<char>>) -> bool {
    match filter {
        Option::None => true,
        Option::Some(u) => url == u,
    }
}

/// The concatenation, in stored order, of the item lists passing the filter.
pub open spec fn selected_items(m: Seq<FeedItemListV>, filter: Option<Seq<char>>) -> Seq<
    FeedItemV,
>
    decreases m.len(),
{
    if m.len() == 0 {
        Seq::<FeedItemV>::empty()
    } else if matches_filter(m[0].feed_url, filter) {
        m[0].items + selected_items(m.drop_first(), filter)
    } else {
        selected_items(m.drop_first(), filter)
    }
}

/// What `items` returns: the selected lists, globally re-sorted by recency.
pub open spec fn items_spec(v: SubscriptionListV, filter: Option<Seq<char>>) -> Seq<FeedItemV> {
    sort_desc(selected_items(v.items_by_feed, filter))
}

/// The first element carrying `id`, if any.
pub open spec fn first_with_id(s: Seq<FeedItemV>, id: Seq<char>) -> Option<FeedItemV>
    decreases s.len(),
{
    if s.len() == 0 {
        Option::None
    } else if s[0].id == id {
        Option::Some(s[0])
    } else {
        first_with_id(s.drop_first(), id)
    }
}

/// What `add_feed` does: replace the feed record wholesale and give its
/// item list the merged contents.
pub open spec fn add_feed_spec(
    v: SubscriptionListV,
    feed: FeedV,
    items: Seq<FeedItemV>,
    cap: nat,
) -> SubscriptionListV {
    SubscriptionListV {
        feeds: drop_feed(v.feeds, feed.url).push(feed),
        items_by_feed: drop_lists(v.items_by_feed, feed.url).push(
            FeedItemListV {
                feed_url: feed.url,
                items: merge_spec(lookup_items(v.items_by_feed, feed.url), items, cap),
            },
        ),
    }
}

impl SubscriptionList {
    /// Upsert `feed` by URL and merge `items` into its cached list: the
    /// single write path for both subscribing and refreshing.
    pub fn add_feed(&mut self, feed: Feed, items: Vec<FeedItem>)
        ensures
            final(self).deep_view() == add_feed_spec(
                old(self).deep_view(),
                feed.deep_view(),
                items.deep_view(),
                DEFAULT_CAP_PER_FEED as nat,
            ),
    {
        let ghost mdv = self.items_by_feed.deep_view();
        let ghost fdv = self.feeds.deep_view();
        let url = feed.url.clone();

        // Split the mapping: the replaced feed's list out, the rest kept in order.
        let mut kept: Vec<FeedItemList> = Vec::new();
        let mut existing: Option<Vec<FeedItem>> = None;
        proof {
            assert(kept.deep_view() =~= Seq::<FeedItemListV>::empty());
            assert(mdv.skip(0) =~= mdv);
            assert(Seq::<FeedItemListV>::empty() + drop_lists(mdv, url@) =~= drop_lists(
                mdv,
                url@,
            ));
        }
        let ghost mut k: int = 0;
        while self.items_by_feed.len() > 0
            invariant
                0 <= k <= mdv.len(),
                url@ == feed.deep_view().url,
                self.feeds == old(self).feeds,
                self.items_by_feed.deep_view() == mdv.skip(k),
                self.items_by_feed@.len() == mdv.len() - k,
                drop_lists(mdv, url@) == kept.deep_view() + drop_lists(mdv.skip(k), url@),
                match existing {
                    Option::None => lookup_items(mdv, url@) == lookup_items(mdv.skip(k), url@),
                    Option::Some(v) => lookup_items(mdv, url@) == v.deep_view(),
                },
            decreases self.items_by_feed.len(),
        {
            let ghost pre_map = self.items_by_feed;
            let ghost rest = mdv.skip(k);
            let e = self.items_by_feed.remove(0);
            proof {
                lemma_deep_view_pop_front(pre_map, self.items_by_feed);
                assert(rest.drop_first() =~= mdv.skip(k + 1));
                assert(e.deep_view() == rest[0]);
            }
            if e.feed_url == url {
                if existing.is_none() {
                    existing = Some(e.items);
                }
            } else {
                let ghost kept_pre = kept;
                kept.push(e);
                proof {
                    lemma_deep_view_push(kept_pre, kept, e);
                    assert(kept.deep_view() + drop_lists(mdv.skip(k + 1), url@)
                        =~= kept_pre.deep_view() + (seq![rest[0]] + drop_lists(
                        rest.drop_first(),
                        url@,
                    )));
                }
            }
            proof {
                k = k + 1;
            }
        }
        proof {
            assert(mdv.skip(k) =~= Seq::<FeedItemListV>::empty());
            assert(kept.deep_view() + Seq::<FeedItemListV>::empty() =~= kept.deep_view());
        }

        let existing_vec: Vec<FeedItem> = match existing {
            Option::Some(v) => v,
            Option::None => Vec::new(),
        };
        proof {
            assert(existing_vec.deep_view() =~= lookup_items(mdv, url@));
        }
        let merged = merge_items(existing_vec, items, DEFAULT_CAP_PER_FEED);
        let entry = FeedItemList { feed_url: url.clone(), items: merged };
        let ghost kept_pre = kept;
        kept.push(entry);
        proof {
            lemma_deep_view_push(kept_pre, kept, entry);
        }
        self.items_by_feed = kept;
        let ghost map_done = self.items_by_feed;

        // Replace the feed record wholesale.
        let mut newfeeds: Vec<Feed> = Vec::new();
        proof {
            assert(newfeeds.deep_view() =~= Seq::<FeedV>::empty());
            assert(fdv.skip(0) =~= fdv);
            assert(Seq::<FeedV>::empty() + drop_feed(fdv, url@) =~= drop_feed(fdv, url@));
        }
        let ghost mut j: int = 0;
        while self.feeds.len() > 0
            invariant
                0 <= j <= fdv.len(),
                url@ == feed.deep_view().url,
                self.items_by_feed == map_done,
                self.feeds.deep_view() == fdv.skip(j),
                self.feeds@.len() == fdv.len() - j,
                drop_feed(fdv, url@) == newfeeds.deep_view() + drop_feed(fdv.skip(j), url@),
            decreases self.feeds.len(),
        {
            let ghost pre_feeds = self.feeds;
            let ghost rest = fdv.skip(j);
            let f = self.feeds.remove(0);
            proof {
                lemma_deep_view_pop_front(pre_feeds, self.feeds);
                assert(rest.drop_first() =~= fdv.skip(j + 1));
                assert(f.deep_view() == rest[0]);
            }
            if f.url == url {
            } else {
                let ghost nf_pre = newfeeds;
                newfeeds.push(f);
                proof {
                    lemma_deep_view_push(nf_pre, newfeeds, f);
                    assert(newfeeds.deep_view() + drop_feed(fdv.skip(j + 1), url@)
                        =~= nf_pre.deep_view() + (seq![rest[0]] + drop_feed(
                        rest.drop_first(),
                        url@,
                    )));
                }
            }
            proof {
                j = j + 1;
            }
        }
        proof {
            assert(fdv.skip(j) =~= Seq::<FeedV>::empty());
            assert(newfeeds.deep_view() + Seq::<FeedV>::empty() =~= newfeeds.deep_view());
        }
        let ghost nf_pre = newfeeds;
        newfeeds.push(feed);
        proof {
            lemma_deep_view_push(nf_pre, newfeeds, feed);
        }
        self.feeds = newfeeds;
    }

    /// Delete the feed record and its item list; say whether the feed
    /// was there. A missing feed is not an error.
    pub fn remove_feed(&mut self, url: &str) -> (r: bool)
        ensures
            r == has_feed(old(self).feeds.deep_view(), url@),
            final(self).feeds.deep_view() == drop_feed(old(self).feeds.deep_view(), url@),
            final(self).items_by_feed.deep_view() == drop_lists(
                old(self).items_by_feed.deep_view(),
                url@,
            ),
    {
        let ghost fdv = self.feeds.deep_view();
        let ghost mdv = self.items_by_feed.deep_view();
        let target = String::from_str(url);

        let mut found = false;
        let mut i: usize = 0;
        while i < self.feeds.len()
            invariant
                0 <= i <= self.feeds.len(),
                self.feeds.deep_view() == fdv,
                self.feeds@.len() == fdv.len(),
                target@ == url@,
                found == exists|w: int| 0 <= w < i && fdv[w].url == url@,
            decreases self.feeds.len() - i,
        {
            if self.feeds[i].url == target {
                found = true;
                assert(fdv[i as int].url == url@);
            }
            i = i + 1;
        }

        let mut newfeeds: Vec<Feed> = Vec::new();
        proof {
            assert(newfeeds.deep_view() =~= Seq::<FeedV>::empty());
            assert(fdv.skip(0) =~= fdv);
            assert(Seq::<FeedV>::empty() + drop_feed(fdv, url@) =~= drop_feed(fdv, url@));
        }
        let ghost mut j: int = 0;
        while self.feeds.len() > 0
            invariant
                0 <= j <= fdv.len(),
                target@ == url@,
                self.items_by_feed == old(self).items_by_feed,
                self.feeds.deep_view() == fdv.skip(j),
                self.feeds@.len() == fdv.len() - j,
                drop_feed(fdv, url@) == newfeeds.deep_view() + drop_feed(fdv.skip(j), url@),
            decreases self.feeds.len(),
        {
            let ghost pre_feeds = self.feeds;
            let ghost rest = fdv.skip(j);
            let f = self.feeds.remove(0);
            proof {
                lemma_deep_view_pop_front(pre_feeds, self.feeds);
                assert(rest.drop_first() =~= fdv.skip(j + 1));
                assert(f.deep_view() == rest[0]);
            }
            if f.url == target {
            } else {
                let ghost nf_pre = newfeeds;
                newfeeds.push(f);
                proof {
                    lemma_deep_view_push(nf_pre, newfeeds, f);
                    assert(newfeeds.deep_view() + drop_feed(fdv.skip(j + 1), url@)
                        =~= nf_pre.deep_view() + (seq![rest[0]] + drop_feed(
                        rest.drop_first(),
                        url@,
                    )));
                }
            }
            proof {
                j = j + 1;
            }
        }
        proof {
            assert(fdv.skip(j) =~= Seq::<FeedV>::empty());
            assert(newfeeds.deep_view() + Seq::<FeedV>::empty() =~= newfeeds.deep_view());
        }
        self.feeds = newfeeds;
        let ghost feeds_done = self.feeds;

        let mut kept: Vec<FeedItemList> = Vec::new();
        proof {
            assert(kept.deep_view() =~= Seq::<FeedItemListV>::empty());
            assert(mdv.skip(0) =~= mdv);
            assert(Seq::<FeedItemListV>::empty() + drop_lists(mdv, url@) =~= drop_lists(
                mdv,
                url@,
            ));
        }
        let ghost mut k: int = 0;
        while self.items_by_feed.len() > 0
            invariant
                0 <= k <= mdv.len(),
                target@ == url@,
                self.feeds == feeds_done,
                self.items_by_feed.deep_view() == mdv.skip(k),
                self.items_by_feed@.len() == mdv.len() - k,
                drop_lists(mdv, url@) == kept.deep_view() + drop_lists(mdv.skip(k), url@),
            decreases self.items_by_feed.len(),
        {
            let ghost pre_map = self.items_by_feed;
            let ghost rest = mdv.skip(k);
            let e = self.items_by_feed.remove(0);
            proof {
                lemma_deep_view_pop_front(pre_map, self.items_by_feed);
                assert(rest.drop_first() =~= mdv.skip(k + 1));
                assert(e.deep_view() == rest[0]);
            }
            if e.feed_url == target {
            } else {
                let ghost kept_pre = kept;
                kept.push(e);
                proof {
                    lemma_deep_view_push(kept_pre, kept, e);
                    assert(kept.deep_view() + drop_lists(mdv.skip(k + 1), url@)
                        =~= kept_pre.deep_view() + (seq![rest[0]] + drop_lists(
                        rest.drop_first(),
                        url@,
                    )));
                }
            }
            proof {
                k = k + 1;
            }
        }
        proof {
            assert(mdv.skip(k) =~= Seq::<FeedItemListV>::empty());
            assert(kept.deep_view() + Seq::<FeedItemListV>::empty() =~= kept.deep_view());
        }
        self.items_by_feed = kept;

        found
    }

    /// All cached items, or one feed's, newest first; items without a
    /// timestamp come last.
    pub fn items(&self, feed_url: Option<&str>) -> (r: Vec<FeedItem>)
        ensures
            r.deep_view() == items_spec(self.deep_view(), feed_url.deep_view()),
            sorted_desc(r.deep_view()),
    {
        let ghost mdv = self.items_by_feed.deep_view();
        let ghost filt = feed_url.deep_view();
        let filter: Option<String> = match feed_url {
            Option::Some(u) => Option::Some(String::from_str(u)),
            Option::None => Option::None,
        };

        let mut selected: Vec<FeedItem> = Vec::new();
        proof {
            assert(selected.deep_view() =~= Seq::<FeedItemV>::empty());
            assert(mdv.skip(0) =~= mdv);
            assert(Seq::<FeedItemV>::empty() + selected_items(mdv, filt) =~= selected_items(
                mdv,
                filt,
            ));
        }
        let mut k: usize = 0;
        while k < self.items_by_feed.len()
            invariant
                0 <= k <= self.items_by_feed@.len(),
                self.items_by_feed.deep_view() == mdv,
                self.items_by_feed@.len() == mdv.len(),
                match (filter, filt) {
                    (Option::Some(f), Option::Some(g)) => f@ == g,
                    (Option::None, Option::None) => true,
                    _ => false,
                },
                selected_items(mdv, filt) == selected.deep_view() + selected_items(
                    mdv.skip(k as int),
                    filt,
                ),
            decreases self.items_by_feed@.len() - k,
        {
            let ghost rest = mdv.skip(k as int);
            proof {
                assert(rest[0] == mdv[k as int]);
                assert(rest.drop_first() =~= mdv.skip(k + 1));
            }
            let e = &self.items_by_feed[k];
            let is_match = match &filter {
                Option::Some(u) => e.feed_url == *u,
                Option::None => true,
            };
            assert(is_match == matches_filter(rest[0].feed_url, filt));
            if is_match {
                let mut part = clone_items(&e.items);
                let ghost sel_pre = selected;
                let ghost part_snap = part;
                selected.append(&mut part);
                proof {
                    lemma_deep_view_concat(sel_pre, part_snap, selected);
                    assert(selected.deep_view() + selected_items(mdv.skip(k + 1), filt)
                        =~= sel_pre.deep_view() + (rest[0].items + selected_items(
                        rest.drop_first(),
                        filt,
                    )));
                }
            }
            k = k + 1;
        }
        proof {
            assert(mdv.skip(self.items_by_feed@.len() as int) =~= Seq::<FeedItemListV>::empty());
            assert(selected.deep_view() + Seq::<FeedItemV>::empty() =~= selected.deep_view());
        }
        sort_items(selected)
    }

    /// Find one item by id, optionally scoped to a feed; the first match
    /// in the sorted item view wins.
    pub fn get_item(&self, id: &str, feed_url: Option<&str>) -> (r: Option<FeedItem>)
        ensures
            r.deep_view() == first_with_id(
                items_spec(self.deep_view(), feed_url.deep_view()),
                id@,
            ),
    {
        let all = self.items(feed_url);
        let ghost adv = all.deep_view();
        let target = String::from_str(id);
        proof {
            assert(adv.skip(0) =~= adv);
        }
        let mut k: usize = 0;
        while k < all.len()
            invariant
                0 <= k <= all@.len(),
                all.deep_view() == adv,
                all@.len() == adv.len(),
                target@ == id@,
                adv == items_spec(self.deep_view(), feed_url.deep_view()),
                first_with_id(adv, id@) == first_with_id(adv.skip(k as int), id@),
            decreases all@.len() - k,
        {
            let ghost rest = adv.skip(k as int);
            proof {
                assert(rest[0] == adv[k as int]);
                assert(rest.drop_first() =~= adv.skip(k + 1));
            }
            if all[k].id == target {
                let x = all[k].clone();
                proof {
                    assert(rest[0].id == id@);
                    assert(first_with_id(rest, id@) == Option::Some(rest[0]));
                    assert(x.deep_view() == adv[k as int]);
                    assert(adv == items_spec(self.deep_view(), feed_url.deep_view()));
                    assert(first_with_id(adv, id@) == Option::Some(x.deep_view()));
                    assert(Option::Some(x).deep_view() == Option::Some(x.deep_view()));
                }
                return Some(x);
            }
            proof {
                assert(rest[0].id != id@);
            }
            k = k + 1;
        }
        proof {
            assert(adv.skip(all@.len() as int) =~= Seq::<FeedItemV>::empty());
        }
        None
    }
}

/// Every cached list fits within the cap.
pub open spec fn lists_capped(m: Seq<FeedItemListV>, cap: nat) -> bool {
    forall|k: int| 0 <= k < m.len() ==> m[k].items.len() <= cap
}

/// Whatever `drop_lists` keeps was already in the mapping.
proof fn lemma_drop_lists_sub(m: Seq<FeedItemListV>, url: Seq<char>)
    ensures
        forall|k: int|
            0 <= k < drop_lists(m, url).len() ==> exists|j: int|
                0 <= j < m.len() && #[trigger] drop_lists(m, url)[k] == m[j],
    decreases m.len(),
{
    if m.len() > 0 {
        let t = m.drop_first();
        lemma_drop_lists_sub(t, url);
        let d = drop_lists(m, url);
        if m[0].feed_url == url {
            assert forall|k: int| 0 <= k < d.len() implies exists|j: int|
                0 <= j < m.len() && #[trigger] d[k] == m[j] by {
                let j0 = choose|j0: int| 0 <= j0 < t.len() && #[trigger] drop_lists(t, url)[k] == t[j0];
                assert(d[k] == m[j0 + 1]);
            }
        } else {
            assert forall|k: int| 0 <= k < d.len() implies exists|j: int|
                0 <= j < m.len() && #[trigger] d[k] == m[j] by {
                if k == 0 {
                    assert(d[0] == m[0]);
                } else {
                    let j0 = choose|j0: int|
                        0 <= j0 < t.len() && #[trigger] drop_lists(t, url)[k - 1] == t[j0];
                    assert(d[k] == m[j0 + 1]);
                }
            }
        }
    }
}

/// Cap law: one `add_feed` step keeps every cached list within the cap.
/// Since the empty store trivially satisfies the bound, any sequence of
/// merges does.
pub proof fn lemma_cap_invariant(
    v: SubscriptionListV,
    feed: FeedV,
    items: Seq<FeedItemV>,
    cap: nat,
)
    requires
        lists_capped(v.items_by_feed, cap),
    ensures
        lists_capped(add_feed_spec(v, feed, items, cap).items_by_feed, cap),
{
    lemma_drop_lists_sub(v.items_by_feed, feed.url);
    lemma_merge_spec_props(lookup_items(v.items_by_feed, feed.url), items, cap);
    let post = add_feed_spec(v, feed, items, cap).items_by_feed;
    let d = drop_lists(v.items_by_feed, feed.url);
    assert forall|k: int| 0 <= k < post.len() implies post[k].items.len() <= cap by {
        if k < d.len() {
            assert(post[k] == d[k]);
            let j = choose|j: int|
                0 <= j < v.items_by_feed.len() && #[trigger] d[k] == v.items_by_feed[j];
            assert(v.items_by_feed[j].items.len() <= cap);
        }
    }
}

/// Nothing kept by `drop_feed` carries the dropped URL.
proof fn lemma_drop_feed_gone(feeds: Seq<FeedV>, url: Seq<char>)
    ensures
        forall|k: int| 0 <= k < drop_feed(feeds, url).len() ==> drop_feed(feeds, url)[k].url != url,
    decreases feeds.len(),
{
    if feeds.len() > 0 {
        lemma_drop_feed_gone(feeds.drop_first(), url);
        let d = drop_feed(feeds, url);
        let t = drop_feed(feeds.drop_first(), url);
        if feeds[0].url != url {
            assert forall|k: int| 0 <= k < d.len() implies d[k].url != url by {
                if k > 0 {
                    assert(d[k] == t[k - 1]);
                }
            }
        }
    }
}

/// Nothing kept by `drop_lists` is keyed by the dropped URL.
proof fn lemma_drop_lists_gone(m: Seq<FeedItemListV>, url: Seq<char>)
    ensures
        forall|k: int|
            0 <= k < drop_lists(m, url).len() ==> drop_lists(m, url)[k].feed_url != url,
    decreases m.len(),
{
    if m.len() > 0 {
        lemma_drop_lists_gone(m.drop_first(), url);
        let d = drop_lists(m, url);
        let t = drop_lists(m.drop_first(), url);
        if m[0].feed_url != url {
            assert forall|k: int| 0 <= k < d.len() implies d[k].feed_url != url by {
                if k > 0 {
                    assert(d[k] == t[k - 1]);
                }
            }
        }
    }
}

/// A mapping with no entry for a URL selects nothing for it.
proof fn lemma_selected_none(m: Seq<FeedItemListV>, url: Seq<char>)
    requires
        forall|k: int| 0 <= k < m.len() ==> m[k].feed_url != url,
    ensures
        selected_items(m, Option::Some(url)) == Seq::<FeedItemV>::empty(),
    decreases m.len(),
{
    if m.len() > 0 {
        assert forall|k: int| 0 <= k < m.drop_first().len() implies m.drop_first()[k].feed_url
            != url by {
            assert(m.drop_first()[k] == m[k + 1]);
        }
        lemma_selected_none(m.drop_first(), url);
    }
}

/// Removal law: after a removal, the URL is gone from the feed list, its
/// item view is empty, and a second removal of the same URL reports
/// `false`.
pub proof fn lemma_removal_invariant(v: SubscriptionListV, url: Seq<char>)
    ensures
        !has_feed(drop_feed(v.feeds, url), url),
        items_spec(
            SubscriptionListV {
                feeds: drop_feed(v.feeds, url),
                items_by_feed: drop_lists(v.items_by_feed, url),
            },
            Option::Some(url),
        ) == Seq::<FeedItemV>::empty(),
{
    lemma_drop_feed_gone(v.feeds, url);
    lemma_drop_lists_gone(v.items_by_feed, url);
    lemma_selected_none(drop_lists(v.items_by_feed, url), url);
}

/// Appending a feed record commutes with dropping a URL.
proof fn lemma_drop_feed_snoc(s: Seq<FeedV>, f: FeedV, url: Seq<char>)
    ensures
        drop_feed(s.push(f), url) == if f.url == url {
            drop_feed(s, url)
        } else {
            drop_feed(s, url).push(f)
        },
    decreases s.len(),
{
    let p = s.push(f);
    assert(drop_feed(Seq::<FeedV>::empty(), url) == Seq::<FeedV>::empty());
    if s.len() == 0 {
        assert(p[0] == f);
        assert(p.drop_first() =~= Seq::<FeedV>::empty());
        if f.url != url {
            assert(drop_feed(p, url) =~= drop_feed(s, url).push(f));
        }
    } else {
        assert(p[0] == s[0]);
        assert(p.drop_first() =~= s.drop_first().push(f));
        lemma_drop_feed_snoc(s.drop_first(), f, url);
        if s[0].url != url && f.url != url {
            assert(seq![s[0]] + drop_feed(s.drop_first(), url).push(f) =~= (seq![s[0]]
                + drop_feed(s.drop_first(), url)).push(f));
        }
    }
}

/// Dropping a URL that occurs nowhere changes nothing.
proof fn lemma_drop_feed_noop(s: Seq<FeedV>, url: Seq<char>)
    requires
        forall|k: int| 0 <= k < s.len() ==> (#[trigger] s[k]).url != url,
    ensures
        drop_feed(s, url) == s,
    decreases s.len(),
{
    if s.len() > 0 {
        assert(forall|k: int| 0 <= k < s.drop_first().len() ==> (#[trigger] s.drop_first()[k])
            == s[k + 1]);
        lemma_drop_feed_noop(s.drop_first(), url);
        assert(drop_feed(s, url) =~= s);
    }
}

/// Appending a mapping entry commutes with dropping a key.
proof fn lemma_drop_lists_snoc(s: Seq<FeedItemListV>, e: FeedItemListV, url: Seq<char>)
    ensures
        drop_lists(s.push(e), url) == if e.feed_url == url {
            drop_lists(s, url)
        } else {
            drop_lists(s, url).push(e)
        },
    decreases s.len(),
{
    let p = s.push(e);
    assert(drop_lists(Seq::<FeedItemListV>::empty(), url) == Seq::<FeedItemListV>::empty());
    if s.len() == 0 {
        assert(p[0] == e);
        assert(p.drop_first() =~= Seq::<FeedItemListV>::empty());
        if e.feed_url != url {
            assert(drop_lists(p, url) =~= drop_lists(s, url).push(e));
        }
    } else {
        assert(p[0] == s[0]);
        assert(p.drop_first() =~= s.drop_first().push(e));
        lemma_drop_lists_snoc(s.drop_first(), e, url);
        if s[0].feed_url != url && e.feed_url != url {
            assert(seq![s[0]] + drop_lists(s.drop_first(), url).push(e) =~= (seq![s[0]]
                + drop_lists(s.drop_first(), url)).push(e));
        }
    }
}

/// Dropping a key that occurs nowhere changes nothing.
proof fn lemma_drop_lists_noop(s: Seq<FeedItemListV>, url: Seq<char>)
    requires
        forall|k: int| 0 <= k < s.len() ==> (#[trigger] s[k]).feed_url != url,
    ensures
        drop_lists(s, url) == s,
    decreases s.len(),
{
    if s.len() > 0 {
        assert(forall|k: int|
            0 <= k < s.drop_first().len() ==> (#[trigger] s.drop_first()[k]) == s[k + 1]);
        lemma_drop_lists_noop(s.drop_first(), url);
        assert(drop_lists(s, url) =~= s);
    }
}

/// When no earlier entry carries the key, lookup reaches the appended
/// entry.
proof fn lemma_lookup_after(m: Seq<FeedItemListV>, e: FeedItemListV, url: Seq<char>)
    requires
        forall|k: int| 0 <= k < m.len() ==> (#[trigger] m[k]).feed_url != url,
    ensures
        lookup_items(m.push(e), url) == if e.feed_url == url {
            e.items
        } else {
            Seq::<FeedItemV>::empty()
        },
    decreases m.len(),
{
    let p = m.push(e);
    assert(lookup_items(Seq::<FeedItemListV>::empty(), url) == Seq::<FeedItemV>::empty());
    if m.len() == 0 {
        assert(p[0] == e);
        assert(p.drop_first() =~= Seq::<FeedItemListV>::empty());
    } else {
        assert(p[0] == m[0]);
        assert(p.drop_first() =~= m.drop_first().push(e));
        assert(forall|k: int|
            0 <= k < m.drop_first().len() ==> (#[trigger] m.drop_first()[k]) == m[k + 1]);
        lemma_lookup_after(m.drop_first(), e, url);
    }
}

/// Idempotence law: adding the same feed with the same items twice
/// leaves exactly the store that one addition built — deduplication by
/// id is stable under repetition.
pub proof fn lemma_add_feed_idempotent(
    v: SubscriptionListV,
    feed: FeedV,
    items: Seq<FeedItemV>,
    cap: nat,
)
    ensures
        add_feed_spec(add_feed_spec(v, feed, items, cap), feed, items, cap) == add_feed_spec(
            v,
            feed,
            items,
            cap,
        ),
{
    let url = feed.url;
    let v1 = add_feed_spec(v, feed, items, cap);
    let v2 = add_feed_spec(v1, feed, items, cap);
    let merged = merge_spec(lookup_items(v.items_by_feed, url), items, cap);
    let entry = FeedItemListV { feed_url: url, items: merged };

    lemma_drop_feed_gone(v.feeds, url);
    lemma_drop_feed_snoc(drop_feed(v.feeds, url), feed, url);
    lemma_drop_feed_noop(drop_feed(v.feeds, url), url);
    assert(drop_feed(v1.feeds, url) == drop_feed(v.feeds, url));

    lemma_drop_lists_gone(v.items_by_feed, url);
    lemma_drop_lists_snoc(drop_lists(v.items_by_feed, url), entry, url);
    lemma_drop_lists_noop(drop_lists(v.items_by_feed, url), url);
    assert(drop_lists(v1.items_by_feed, url) == drop_lists(v.items_by_feed, url));

    lemma_lookup_after(drop_lists(v.items_by_feed, url), entry, url);
    assert(lookup_items(v1.items_by_feed, url) == merged);
    crate::merge::lemma_merge_idempotent(lookup_items(v.items_by_feed, url), items, cap);
    assert(merge_spec(lookup_items(v1.items_by_feed, url), items, cap) == merged);
    assert(v2 == v1);
}

} // verus!
