//! Feed, FeedItem and MediaEnclosure: the data model of the reader.
//!
//! Timestamps are Unix seconds (`i64`); absence is `None`. Each type has a
//! deep view used by every contract, and a hand-written `Clone` whose
//! contract says the clone has the same view.

use vstd::prelude::*;

verus! {

/// A subscription source identified by its URL.
pub struct Feed {
    pub url: String,
    pub title: Option<String>,
    pub description: Option<String>,
    pub last_fetched: Option<i64>,
    pub created_at: Option<i64>,
}

/// Mathematical image of a `Feed`.
pub struct FeedV {
    pub url: Seq<char>,
    pub title: Option<Seq<char>>,
    pub description: Option<Seq<char>>,
    pub last_fetched: Option<i64>,
    pub created_at: Option<i64>,
}

impl DeepView for Feed {
    type V = FeedV;

    open spec fn deep_view(&self) -> FeedV {
        FeedV {
            url: self.url.deep_view(),
            title: self.title.deep_view(),
            description: self.description.deep_view(),
            last_fetched: self.last_fetched,
            created_at: self.created_at,
        }
    }
}

impl Clone for Feed {
    fn clone(&self) -> (r: Self)
        ensures
            r.deep_view() == self.deep_view(),
    {
        Feed {
            url: self.url.clone(),
            title: clone_opt_string(&self.title),
            description: clone_opt_string(&self.description),
            last_fetched: self.last_fetched,
            created_at: self.created_at,
        }
    }
}

/// A media resource attached to an item, addressed by its position in the
/// item's enclosure list.
pub struct MediaEnclosure {
    pub url: String,
    pub media_type: Option<String>,
    pub length: Option<u64>,
    pub title: Option<String>,
}

/// Mathematical image of a `MediaEnclosure`.
pub struct MediaEnclosureV {
    pub url: Seq<char>,
    pub media_type: Option<Seq<char>>,
    pub length: Option<u64>,
    pub title: Option<Seq<char>>,
}

impl DeepView for MediaEnclosure {
    type V = MediaEnclosureV;

    open spec fn deep_view(&self) -> MediaEnclosureV {
        MediaEnclosureV {
            url: self.url.deep_view(),
            media_type: self.media_type.deep_view(),
            length: self.length,
            title: self.title.deep_view(),
        }
    }
}

impl Clone for MediaEnclosure {
    fn clone(&self) -> (r: Self)
        ensures
            r.deep_view() == self.deep_view(),
    {
        MediaEnclosure {
            url: self.url.clone(),
            media_type: clone_opt_string(&self.media_type),
            length: self.length,
            title: clone_opt_string(&self.title),
        }
    }
}

/// One entry fetched from a feed. `id` is the identity key; `published`
/// is the best known timestamp and may be absent.
pub struct FeedItem {
    pub id: String,
    pub feed_url: String,
    pub title: String,
    pub link: Option<String>,
    pub published: Option<i64>,
    pub summary: Option<String>,
    pub content: Option<String>,
    pub enclosures: Vec<MediaEnclosure>,
}

/// Mathematical image of a `FeedItem`.
pub struct FeedItemV {
    pub id: Seq<char>,
    pub feed_url: Seq<char>,
    pub title: Seq<char>,
    pub link: Option<Seq<char>>,
    pub published: Option<i64>,
    pub summary: Option<Seq<char>>,
    pub content: Option<Seq<char>>,
    pub enclosures: Seq<MediaEnclosureV>,
}

impl DeepView for FeedItem {
    type V = FeedItemV;

    open spec fn deep_view(&self) -> FeedItemV {
        FeedItemV {
            id: self.id.deep_view(),
            feed_url: self.feed_url.deep_view(),
            title: self.title.deep_view(),
            link: self.link.deep_view(),
            published: self.published,
            summary: self.summary.deep_view(),
            content: self.content.deep_view(),
            enclosures: self.enclosures.deep_view(),
        }
    }
}

impl Clone for FeedItem {
    fn clone(&self) -> (r: Self)
        ensures
            r.deep_view() == self.deep_view(),
    {
        let enclosures = clone_enclosures(&self.enclosures);
        let r = FeedItem {
            id: self.id.clone(),
            feed_url: self.feed_url.clone(),
            title: self.title.clone(),
            link: clone_opt_string(&self.link),
            published: self.published,
            summary: clone_opt_string(&self.summary),
            content: clone_opt_string(&self.content),
            enclosures,
        };
        r
    }
}

/// Pushing onto a vector pushes onto its deep view.
pub proof fn lemma_deep_view_push<T: DeepView>(pre: Vec<T>, post: Vec<T>, x: T)
    requires
        post@ == pre@.push(x),
    ensures
        post.deep_view() == pre.deep_view().push(x.deep_view()),
{
    assert forall|k: int| 0 <= k < post@.len() implies post.deep_view()[k] == pre.deep_view().push(
        x.deep_view(),
    )[k] by {
        if k < pre@.len() {
            assert(post@[k] == pre@[k]);
        } else {
            assert(post@[k] == x);
        }
    }
    assert(post.deep_view() =~= pre.deep_view().push(x.deep_view()));
}

/// Removing a vector's first element drops the first of its deep view.
pub proof fn lemma_deep_view_pop_front<T: DeepView>(pre: Vec<T>, post: Vec<T>)
    requires
        pre@.len() > 0,
        post@ == pre@.remove(0),
    ensures
        post.deep_view() == pre.deep_view().drop_first(),
{
    assert(pre@.remove(0) =~= pre@.drop_first());
    assert forall|k: int| 0 <= k < post@.len() implies post.deep_view()[k]
        == pre.deep_view().drop_first()[k] by {
        assert(post@[k] == pre@[k + 1]);
    }
    assert(post.deep_view() =~= pre.deep_view().drop_first());
}

/// Appending vectors concatenates their deep views.
pub proof fn lemma_deep_view_concat<T: DeepView>(a: Vec<T>, b: Vec<T>, post: Vec<T>)
    requires
        post@ == a@ + b@,
    ensures
        post.deep_view() == a.deep_view() + b.deep_view(),
{
    assert forall|k: int| 0 <= k < post@.len() implies post.deep_view()[k] == (a.deep_view()
        + b.deep_view())[k] by {
        if k < a@.len() {
            assert(post@[k] == a@[k]);
        } else {
            assert(post@[k] == b@[k - a@.len()]);
        }
    }
    assert(post.deep_view() =~= a.deep_view() + b.deep_view());
}

/// Clone an optional string; the clone views equal.
pub fn clone_opt_string(s: &Option<String>) -> (r: Option<String>)
    ensures
        r.deep_view() == s.deep_view(),
{
    match s {
        Option::Some(x) => Option::Some(x.clone()),
        Option::None => Option::None,
    }
}

/// Clone a vector of enclosures element by element.
pub fn clone_enclosures(v: &Vec<MediaEnclosure>) -> (r: Vec<MediaEnclosure>)
    ensures
        r.deep_view() == v.deep_view(),
{
    let mut r: Vec<MediaEnclosure> = Vec::new();
    let mut i: usize = 0;
    while i < v.len()
        invariant
            i <= v.len(),
            r.deep_view() == v.deep_view().take(i as int),
        decreases v.len() - i,
    {
        let x = v[i].clone();
        assert(x.deep_view() == v.deep_view()[i as int]);
        let ghost pre = r;
        r.push(x);
        proof {
            lemma_deep_view_push(pre, r, x);
            assert(r.deep_view() =~= v.deep_view().take(i + 1 as int));
        }
        i = i + 1;
    }
    assert(v.deep_view().take(v.len() as int) =~= v.deep_view());
    r
}

/// Clone a vector of items element by element.
pub fn clone_items(v: &Vec<FeedItem>) -> (r: Vec<FeedItem>)
    ensures
        r.deep_view() == v.deep_view(),
{
    let mut r: Vec<FeedItem> = Vec::new();
    let mut i: usize = 0;
    while i < v.len()
        invariant
            i <= v.len(),
            r.deep_view() == v.deep_view().take(i as int),
        decreases v.len() - i,
    {
        let x = v[i].clone();
        assert(x.deep_view() == v.deep_view()[i as int]);
        let ghost pre = r;
        r.push(x);
        proof {
            lemma_deep_view_push(pre, r, x);
            assert(r.deep_view() =~= v.deep_view().take(i + 1 as int));
        }
        i = i + 1;
    }
    assert(v.deep_view().take(v.len() as int) =~= v.deep_view());
    r
}

} // verus!
