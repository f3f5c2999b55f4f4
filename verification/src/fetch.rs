//! Turn raw feed bytes into the library's data: feed_rs parses the
//! bytes behind trusted wrappers, and the verified logic derives each
//! item's identity, timestamp and enclosures from the parsed fields.

use vstd::prelude::*;
use vstd::string::StringExecFns;

use crate::error::Error;
use crate::feed::{clone_opt_string, lemma_deep_view_push, FeedItem, FeedItemV, MediaEnclosure, MediaEnclosureV};
use crate::timefmt::now_ts;

verus! {

#[verifier::external_type_specification]
#[verifier::external_body]
pub struct ExRsEntry(feed_rs::model::Entry);

/// An opaque handle on feed_rs's parsed feed, read only through the
/// wrappers below.
#[verifier::external_body]
struct RsFeedHandle {
    inner: feed_rs::model::Feed,
}

/// Whether feed_rs accepts these bytes as a feed.
pub uninterp spec fn feed_accepts(bytes: Seq<u8>) -> bool;

/// Relies on feed_rs::parser::parse: interpret raw bytes as an RSS,
/// Atom or JSON feed. Whether the bytes are accepted depends on the
/// bytes alone (only generated entry ids involve chance, not the
/// verdict); a failure is rendered to its message.
#[verifier::external_body]
fn parse_feed_bytes(bytes: &[u8]) -> (r: Result<RsFeedHandle, String>)
    ensures
        r is Ok <==> feed_accepts(bytes@),
{
    match feed_rs::parser::parse(bytes) {
        Ok(f) => Ok(RsFeedHandle { inner: f }),
        Err(e) => Err(e.to_string()),
    }
}

/// Relies on feed_rs::model::Feed's `title` field (a `Text`): its
/// content string, when present.
#[verifier::external_body]
fn rs_feed_title(f: &RsFeedHandle) -> Option<String> {
    f.inner.title.as_ref().map(|t| t.content.clone())
}

/// Relies on feed_rs::model::Feed's `description` field: its content
/// string, when present.
#[verifier::external_body]
fn rs_feed_description(f: &RsFeedHandle) -> Option<String> {
    f.inner.description.as_ref().map(|d| d.content.clone())
}

/// Relies on feed_rs::model::Feed's `entries` field.
#[verifier::external_body]
fn rs_feed_entries(f: &RsFeedHandle) -> Vec<feed_rs::model::Entry> {
    f.inner.entries.clone()
}

/// Relies on feed_rs::model::Entry's `id` field.
#[verifier::external_body]
fn rs_entry_id(e: &feed_rs::model::Entry) -> String {
    e.id.clone()
}

/// Relies on feed_rs::model::Entry's `title` field: its content
/// string, when present.
#[verifier::external_body]
fn rs_entry_title(e: &feed_rs::model::Entry) -> Option<String> {
    e.title.as_ref().map(|t| t.content.clone())
}

/// Relies on feed_rs::model::Entry's `links` field: each link's href.
#[verifier::external_body]
fn rs_entry_links(e: &feed_rs::model::Entry) -> Vec<String> {
    e.links.iter().map(|l| l.href.clone()).collect()
}

/// Relies on feed_rs::model::Entry's `published` field and chrono's
/// `timestamp`: the publication instant as Unix seconds.
#[verifier::external_body]
fn rs_entry_published(e: &feed_rs::model::Entry) -> Option<i64> {
    e.published.map(|d| d.timestamp())
}

/// Relies on feed_rs::model::Entry's `updated` field and chrono's
/// `timestamp`: the update instant as Unix seconds.
#[verifier::external_body]
fn rs_entry_updated(e: &feed_rs::model::Entry) -> Option<i64> {
    e.updated.map(|d| d.timestamp())
}

/// Relies on feed_rs::model::Entry's `summary` field: its content
/// string, when present.
#[verifier::external_body]
fn rs_entry_summary(e: &feed_rs::model::Entry) -> Option<String> {
    e.summary.as_ref().map(|s| s.content.clone())
}

/// Relies on feed_rs::model::Entry's `content` field: its body string,
/// when present.
#[verifier::external_body]
fn rs_entry_content_body(e: &feed_rs::model::Entry) -> Option<String> {
    e.content.as_ref().and_then(|c| c.body.clone())
}

/// Relies on feed_rs::model::Entry's `media` field: every media
/// content's URL, MIME type and size, as plain values.
#[verifier::external_body]
fn rs_entry_media(e: &feed_rs::model::Entry) -> Vec<(Option<String>, Option<String>, Option<u64>)> {
    e.media
        .iter()
        .flat_map(|m| {
            m.content.iter().map(|c| {
                (
                    c.url.as_ref().map(|u| u.to_string()),
                    c.content_type.as_ref().map(|t| t.to_string()),
                    c.size,
                )
            })
        })
        .collect()
}

/// An entry's identity: its declared id if non-empty, else its first
/// link, else a synthetic key from the feed URL and the title.
pub open spec fn derive_id_spec(
    declared: Seq<char>,
    links: Seq<Seq<char>>,
    feed_url: Seq<char>,
    title: Option<Seq<char>>,
) -> Seq<char> {
    if declared.len() > 0 {
        declared
    } else if links.len() > 0 {
        links[0]
    } else {
        feed_url + "#"@ + (match title {
            Option::Some(t) => t,
            Option::None => Seq::<char>::empty(),
        })
    }
}

/// Derive an entry's identity key.
pub fn derive_item_id(
    declared: &String,
    links: &Vec<String>,
    feed_url: &str,
    title: &Option<String>,
) -> (r: String)
    ensures
        r@ == derive_id_spec(declared@, links.deep_view(), feed_url@, title.deep_view()),
{
    if declared.as_str().unicode_len() > 0 {
        declared.clone()
    } else if links.len() > 0 {
        let l = links[0].clone();
        proof {
            assert(links.deep_view()[0] == links@[0]@);
        }
        l
    } else {
        let base = String::from_str(feed_url).concat("#");
        match title {
            Option::Some(t) => base.concat(t.as_str()),
            Option::None => {
                proof {
                    assert(base@ + Seq::<char>::empty() =~= base@);
                }
                base
            },
        }
    }
}

/// The enclosures an entry's media references describe: one per media
/// content that has a URL.
pub open spec fn enclosures_from_media(
    m: Seq<(Option<Seq<char>>, Option<Seq<char>>, Option<u64>)>,
) -> Seq<MediaEnclosureV>
    decreases m.len(),
{
    if m.len() == 0 {
        Seq::<MediaEnclosureV>::empty()
    } else {
        (match m[0].0 {
            Option::Some(u) => seq![
                MediaEnclosureV { url: u, media_type: m[0].1, length: m[0].2, title: Option::None },
            ],
            Option::None => Seq::<MediaEnclosureV>::empty(),
        }) + enclosures_from_media(m.drop_first())
    }
}

/// Build the enclosure list from plain media values.
pub fn build_enclosures(media: &Vec<(Option<String>, Option<String>, Option<u64>)>) -> (r: Vec<
    MediaEnclosure,
>)
    ensures
        r.deep_view() == enclosures_from_media(media.deep_view()),
{
    let ghost mdv = media.deep_view();
    let mut r: Vec<MediaEnclosure> = Vec::new();
    proof {
        assert(r.deep_view() =~= Seq::<MediaEnclosureV>::empty());
        assert(mdv.skip(0) =~= mdv);
        assert(Seq::<MediaEnclosureV>::empty() + enclosures_from_media(mdv)
            =~= enclosures_from_media(mdv));
    }
    let mut k: usize = 0;
    while k < media.len()
        invariant
            0 <= k <= media@.len(),
            media.deep_view() == mdv,
            media@.len() == mdv.len(),
            enclosures_from_media(mdv) == r.deep_view() + enclosures_from_media(
                mdv.skip(k as int),
            ),
        decreases media@.len() - k,
    {
        let ghost rest = mdv.skip(k as int);
        proof {
            assert(rest[0] == mdv[k as int]);
            assert(rest.drop_first() =~= mdv.skip(k + 1));
        }
        let m = &media[k];
        match &m.0 {
            Option::Some(u) => {
                let e = MediaEnclosure {
                    url: u.clone(),
                    media_type: clone_opt_string(&m.1),
                    length: m.2,
                    title: Option::None,
                };
                let ghost ge = e;
                let ghost pre = r;
                r.push(e);
                proof {
                    lemma_deep_view_push(pre, r, ge);
                    assert(ge.deep_view() == MediaEnclosureV {
                        url: rest[0].0->0,
                        media_type: rest[0].1,
                        length: rest[0].2,
                        title: Option::None,
                    });
                    assert(r.deep_view() + enclosures_from_media(mdv.skip(k + 1))
                        =~= pre.deep_view() + (seq![ge.deep_view()] + enclosures_from_media(
                        rest.drop_first(),
                    )));
                }
            },
            Option::None => {},
        }
        k = k + 1;
    }
    proof {
        assert(mdv.skip(media@.len() as int) =~= Seq::<
            (Option<Seq<char>>, Option<Seq<char>>, Option<u64>),
        >::empty());
        assert(r.deep_view() + Seq::<MediaEnclosureV>::empty() =~= r.deep_view());
    }
    r
}

/// What one parsed entry becomes: identity from the fallback chain,
/// the best known timestamp, and the enclosures with a URL.
pub open spec fn item_from_entry_spec(
    feed_url: Seq<char>,
    declared: Seq<char>,
    title: Option<Seq<char>>,
    links: Seq<Seq<char>>,
    published: Option<i64>,
    updated: Option<i64>,
    summary: Option<Seq<char>>,
    content: Option<Seq<char>>,
    media: Seq<(Option<Seq<char>>, Option<Seq<char>>, Option<u64>)>,
) -> FeedItemV {
    FeedItemV {
        id: derive_id_spec(declared, links, feed_url, title),
        feed_url: feed_url,
        title: match title {
            Option::Some(t) => t,
            Option::None => Seq::<char>::empty(),
        },
        link: if links.len() > 0 {
            Option::Some(links[0])
        } else {
            Option::None
        },
        published: match published {
            Option::Some(p) => Option::Some(p),
            Option::None => updated,
        },
        summary,
        content,
        enclosures: enclosures_from_media(media),
    }
}

/// Assemble one item from an entry's plain fields.
pub fn item_from_entry(
    feed_url: &str,
    declared: String,
    title: Option<String>,
    links: Vec<String>,
    published: Option<i64>,
    updated: Option<i64>,
    summary: Option<String>,
    content: Option<String>,
    media: Vec<(Option<String>, Option<String>, Option<u64>)>,
) -> (r: FeedItem)
    ensures
        r.deep_view() == item_from_entry_spec(
            feed_url@,
            declared@,
            title.deep_view(),
            links.deep_view(),
            published,
            updated,
            summary.deep_view(),
            content.deep_view(),
            media.deep_view(),
        ),
{
    let id = derive_item_id(&declared, &links, feed_url, &title);
    let title_str = match &title {
        Option::Some(t) => t.clone(),
        Option::None => String::new(),
    };
    let link = if links.len() > 0 {
        proof {
            assert(links.deep_view()[0] == links@[0]@);
        }
        Option::Some(links[0].clone())
    } else {
        Option::None
    };
    let pub_ts = match published {
        Option::Some(p) => Option::Some(p),
        Option::None => updated,
    };
    let enclosures = build_enclosures(&media);
    FeedItem {
        id,
        feed_url: String::from_str(feed_url),
        title: title_str,
        link,
        published: pub_ts,
        summary,
        content,
        enclosures,
    }
}

/// Parse raw feed bytes fetched from `url` into the feed record and
/// its items: success exactly when feed_rs accepts the bytes. Every
/// item belongs to `url`; the feed's fetch and creation stamps are the
/// present moment. An unreadable feed is a parse failure.
pub fn parse_feed(url: &str, bytes: &[u8]) -> (r: Result<(crate::feed::Feed, Vec<FeedItem>), Error>)
    ensures
        r is Ok <==> feed_accepts(bytes@),
        match r {
            Result::Ok(p) => {
                &&& p.0.deep_view().url == url@
                &&& p.0.deep_view().last_fetched is Some
                &&& p.0.deep_view().created_at == p.0.deep_view().last_fetched
                &&& forall|k: int|
                    0 <= k < p.1.deep_view().len() ==> (#[trigger] p.1.deep_view()[k]).feed_url
                        == url@
            },
            Result::Err(e) => e is Parse,
        },
{
    match parse_feed_bytes(bytes) {
        Result::Err(m) => Result::Err(Error::Parse(m)),
        Result::Ok(rf) => {
            let now = now_ts();
            let feed = crate::feed::Feed {
                url: String::from_str(url),
                title: rs_feed_title(&rf),
                description: rs_feed_description(&rf),
                last_fetched: Option::Some(now),
                created_at: Option::Some(now),
            };
            let entries = rs_feed_entries(&rf);
            let mut items: Vec<FeedItem> = Vec::new();
            let mut k: usize = 0;
            while k < entries.len()
                invariant
                    forall|j: int|
                        0 <= j < items.deep_view().len() ==> (
                        #[trigger] items.deep_view()[j]).feed_url == url@,
                decreases entries@.len() - k,
            {
                let e = &entries[k];
                let it = item_from_entry(
                    url,
                    rs_entry_id(e),
                    rs_entry_title(e),
                    rs_entry_links(e),
                    rs_entry_published(e),
                    rs_entry_updated(e),
                    rs_entry_summary(e),
                    rs_entry_content_body(e),
                    rs_entry_media(e),
                );
                let ghost git = it;
                let ghost pre = items;
                items.push(it);
                proof {
                    lemma_deep_view_push(pre, items, git);
                }
                k = k + 1;
            }
            Result::Ok((feed, items))
        },
    }
}

} // verus!
