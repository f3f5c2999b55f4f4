//! Decision logic of the command line: argument shapes, which URLs a
//! command wants fetched, and what each command does to the store and
//! prints. All I/O — reading files, fetching over the network, writing
//! the terminal — stays with the caller, which hands fetch results in
//! and carries the returned text and actions out.

use vstd::prelude::*;
use vstd::string::StringExecFns;

use crate::error::Error;
use crate::feed::{Feed, FeedItem, FeedItemV, FeedV, MediaEnclosure, MediaEnclosureV};
use crate::format::{chars_to_string, format_article, format_article_spec, trim_spec};
use crate::gui::trim_str;
use crate::jsontext::{dec_digits, enc_str_view, push_json_string, push_u64};
use crate::snapshot::push_lit;
use crate::store::{
    add_feed_spec, drop_feed, drop_lists, first_with_id, has_feed, items_spec, SubscriptionList,
    SubscriptionListV, DEFAULT_CAP_PER_FEED,
};
use crate::timefmt::{display_ts_spec, display_ts, rfc3339_of, ts_in_range, fmt_rfc3339};
use crate::urlcheck::{parse_url_check, url_parse_ok};

verus! {

/// The subcommands of the reader.
pub enum Command {
    Add { url: String },
    Remove { url: String },
    ListFeeds,
    ListItems { feed: Option<String> },
    Show { item_id: String },
    Refresh { feed: Option<String> },
    OpenEnclosure { item_id: String, index: usize, download: bool, output_dir: Option<String> },
}

/// Parsed command-line arguments: output mode, snapshot location and
/// the subcommand.
pub struct Args {
    pub output: String,
    pub config: Option<String>,
    pub cmd: Command,
}

/// The output mode names JSON, compared without regard to ASCII case.
pub open spec fn wants_json(s: Seq<char>) -> bool {
    s.len() == 4 && (s[0] == 'j' || s[0] == 'J') && (s[1] == 's' || s[1] == 'S') && (s[2] == 'o'
        || s[2] == 'O') && (s[3] == 'n' || s[3] == 'N')
}

/// Whether stdout should be JSON (from the output option).
pub fn output_json(args: &Args) -> (r: bool)
    ensures
        r == wants_json(args.output@),
{
    let s = &args.output;
    if s.as_str().unicode_len() != 4 {
        return false;
    }
    let c0 = s.as_str().get_char(0);
    let c1 = s.as_str().get_char(1);
    let c2 = s.as_str().get_char(2);
    let c3 = s.as_str().get_char(3);
    (c0 == 'j' || c0 == 'J') && (c1 == 's' || c1 == 'S') && (c2 == 'o' || c2 == 'O') && (c3 == 'n'
        || c3 == 'N')
}

/// One fetch the caller performed: the URL it fetched and what came
/// back — parsed feed data, or the failure to report.
pub struct FetchOutcome {
    pub url: String,
    pub result: Result<(Feed, Vec<FeedItem>), Error>,
}

/// What the caller must do after a command: print `stdout`, persist
/// the store if `save`, and perform the enclosure action if one is
/// returned.
pub struct CliOutput {
    pub stdout: String,
    pub save: bool,
    pub action: Option<EnclosureAction>,
}

/// The enclosure operation the caller performs: open externally, or
/// download into the optional directory.
pub enum EnclosureAction {
    Open(MediaEnclosure),
    Download(MediaEnclosure, Option<String>),
}

/// The URLs of the feeds passing the filter, in stored order.
pub open spec fn refresh_urls(feeds: Seq<FeedV>, filter: Option<Seq<char>>) -> Seq<Seq<char>>
    decreases feeds.len(),
{
    if feeds.len() == 0 {
        Seq::<Seq<char>>::empty()
    } else if match filter {
        Option::None => true,
        Option::Some(u) => feeds[0].url == u,
    } {
        seq![feeds[0].url] + refresh_urls(feeds.drop_first(), filter)
    } else {
        refresh_urls(feeds.drop_first(), filter)
    }
}

/// Which URLs a command needs fetched before it can run: the validated
/// URL for a subscription, every selected feed for a refresh, nothing
/// else for the rest.
pub fn fetch_targets(args: &Args, store: &SubscriptionList) -> (r: Result<Vec<String>, Error>)
    ensures
        match args.cmd {
            Command::Add { url } => {
                &&& (r is Ok <==> trim_spec(url@).len() != 0 && url_parse_ok(trim_spec(url@)))
                &&& r is Ok ==> (r->Ok_0).deep_view() == seq![trim_spec(url@)]
                &&& r is Err ==> r->Err_0 is InvalidUrl
            },
            Command::Refresh { feed } => r is Ok && (r->Ok_0).deep_view() == refresh_urls(
                store.feeds.deep_view(),
                feed.deep_view(),
            ),
            _ => r is Ok && (r->Ok_0).deep_view() == Seq::<Seq<char>>::empty(),
        },
{
    match &args.cmd {
        Command::Add { url } => {
            let t = trim_str(url.as_str());
            if t.as_str().unicode_len() == 0 {
                return Result::Err(Error::InvalidUrl(String::from_str("empty URL")));
            }
            match parse_url_check(t.as_str()) {
                Result::Err(m) => Result::Err(Error::InvalidUrl(m)),
                Result::Ok(_) => {
                    let mut v: Vec<String> = Vec::new();
                    v.push(t);
                    proof {
                        assert(v.deep_view() =~= seq![trim_spec(url@)]);
                    }
                    Result::Ok(v)
                },
            }
        },
        Command::Refresh { feed } => {
            let ghost fdv = store.feeds.deep_view();
            let ghost filt = feed.deep_view();
            let mut v: Vec<String> = Vec::new();
            proof {
                assert(v.deep_view() =~= Seq::<Seq<char>>::empty());
                assert(fdv.skip(0) =~= fdv);
                assert(Seq::<Seq<char>>::empty() + refresh_urls(fdv, filt) =~= refresh_urls(
                    fdv,
                    filt,
                ));
            }
            let mut k: usize = 0;
            while k < store.feeds.len()
                invariant
                    0 <= k <= store.feeds@.len(),
                    store.feeds.deep_view() == fdv,
                    store.feeds@.len() == fdv.len(),
                    match (feed, filt) {
                        (Option::Some(f), Option::Some(g)) => f@ == g,
                        (Option::None, Option::None) => true,
                        _ => false,
                    },
                    refresh_urls(fdv, filt) == v.deep_view() + refresh_urls(
                        fdv.skip(k as int),
                        filt,
                    ),
                decreases store.feeds@.len() - k,
            {
                let ghost rest = fdv.skip(k as int);
                proof {
                    assert(rest[0] == fdv[k as int]);
                    assert(rest.drop_first() =~= fdv.skip(k + 1));
                }
                let f = &store.feeds[k];
                let is_match = match feed {
                    Option::Some(u) => f.url == *u,
                    Option::None => true,
                };
                if is_match {
                    let ghost pre = v;
                    let u = f.url.clone();
                    let ghost gu = u;
                    v.push(u);
                    proof {
                        crate::feed::lemma_deep_view_push(pre, v, gu);
                        assert(v.deep_view() =~= pre.deep_view().push(rest[0].url));
                        assert(v.deep_view() + refresh_urls(fdv.skip(k + 1), filt)
                            =~= pre.deep_view() + (seq![rest[0].url] + refresh_urls(
                            rest.drop_first(),
                            filt,
                        )));
                    }
                }
                k = k + 1;
            }
            proof {
                assert(fdv.skip(store.feeds@.len() as int) =~= Seq::<FeedV>::empty());
                assert(v.deep_view() + Seq::<Seq<char>>::empty() =~= v.deep_view());
            }
            Result::Ok(v)
        },
        _ => {
            let v: Vec<String> = Vec::new();
            proof {
                assert(v.deep_view() =~= Seq::<Seq<char>>::empty());
            }
            Result::Ok(v)
        },
    }
}

// ------------------------------------------------------------- outputs

/// The feed's display name: its title, or its URL.
pub open spec fn title_or_url(f: FeedV) -> Seq<char> {
    match f.title {
        Option::Some(t) => t,
        Option::None => f.url,
    }
}

/// One line of the feed listing.
pub open spec fn feed_line(f: FeedV) -> Seq<char> {
    title_or_url(f) + " ("@ + f.url + ")"@ + "\n"@
}

/// The human feed listing.
pub open spec fn feeds_human(s: Seq<FeedV>) -> Seq<char>
    decreases s.len(),
{
    if s.len() == 0 {
        Seq::<char>::empty()
    } else {
        feed_line(s[0]) + feeds_human(s.drop_first())
    }
}

/// One feed as a JSON object; the title only when there is one.
pub open spec fn feed_json(f: FeedV) -> Seq<char> {
    "{\"url\":"@ + enc_str_view(f.url) + (match f.title {
        Option::None => "}"@,
        Option::Some(t) => ",\"title\":"@ + enc_str_view(t) + "}"@,
    })
}

/// The feeds as a JSON array body.
pub open spec fn feeds_json(s: Seq<FeedV>) -> Seq<char>
    decreases s.len(),
{
    if s.len() == 0 {
        Seq::<char>::empty()
    } else if s.len() == 1 {
        feed_json(s[0])
    } else {
        feed_json(s[0]) + ","@ + feeds_json(s.drop_first())
    }
}

/// The feed listing, in the chosen mode.
pub open spec fn feeds_output(s: Seq<FeedV>, json: bool) -> Seq<char> {
    if json {
        "["@ + feeds_json(s) + "]"@ + "\n"@
    } else {
        feeds_human(s)
    }
}

/// How a timestamp shows in listings; a question mark when absent.
pub open spec fn published_display(p: Option<i64>) -> Seq<char> {
    match p {
        Option::Some(ts) => display_ts_spec(ts),
        Option::None => "?"@,
    }
}

/// A timestamp as a JSON value: quoted RFC 3339 text, or `null` when
/// absent or unrenderable.
pub open spec fn ts_json(p: Option<i64>) -> Seq<char> {
    match p {
        Option::None => "null"@,
        Option::Some(ts) => if ts_in_range(ts) {
            seq!['"'] + rfc3339_of(ts) + seq!['"']
        } else {
            "null"@
        },
    }
}

/// One line of the item listing.
pub open spec fn item_line(i: FeedItemV) -> Seq<char> {
    published_display(i.published) + " | "@ + i.title + " | "@ + i.feed_url + "\n"@
}

/// The human item listing.
pub open spec fn items_human(s: Seq<FeedItemV>) -> Seq<char>
    decreases s.len(),
{
    if s.len() == 0 {
        Seq::<char>::empty()
    } else {
        item_line(s[0]) + items_human(s.drop_first())
    }
}

/// One item as a JSON object; the link only when there is one.
pub open spec fn item_json(i: FeedItemV) -> Seq<char> {
    "{\"id\":"@ + enc_str_view(i.id) + ",\"feed_url\":"@ + enc_str_view(i.feed_url)
        + ",\"title\":"@ + enc_str_view(i.title) + ",\"published\":"@ + ts_json(i.published) + (
    match i.link {
        Option::None => "}"@,
        Option::Some(l) => ",\"link\":"@ + enc_str_view(l) + "}"@,
    })
}

/// The items as a JSON array body.
pub open spec fn items_json(s: Seq<FeedItemV>) -> Seq<char>
    decreases s.len(),
{
    if s.len() == 0 {
        Seq::<char>::empty()
    } else if s.len() == 1 {
        item_json(s[0])
    } else {
        item_json(s[0]) + ","@ + items_json(s.drop_first())
    }
}

/// The item listing, in the chosen mode.
pub open spec fn items_output(s: Seq<FeedItemV>, json: bool) -> Seq<char> {
    if json {
        "["@ + items_json(s) + "]"@ + "\n"@
    } else {
        items_human(s)
    }
}

/// One enclosure line of the article view.
pub open spec fn encl_line(e: MediaEnclosureV, idx: nat) -> Seq<char> {
    "  ["@ + dec_digits(idx) + "] Open: "@ + e.url + " ("@ + (match e.media_type {
        Option::Some(m) => m,
        Option::None => "?"@,
    }) + ")"@ + "\n"@
}

/// The enclosure lines, numbered from `idx`.
pub open spec fn encl_lines(s: Seq<MediaEnclosureV>, idx: nat) -> Seq<char>
    decreases s.len(),
{
    if s.len() == 0 {
        Seq::<char>::empty()
    } else {
        encl_line(s[0], idx) + encl_lines(s.drop_first(), idx + 1)
    }
}

/// The media section of the article view; empty without enclosures.
pub open spec fn media_section(s: Seq<MediaEnclosureV>) -> Seq<char> {
    if s.len() == 0 {
        Seq::<char>::empty()
    } else {
        "\n---\nMedia:\n"@ + encl_lines(s, 0)
            + "\n  To open: rss-reader open-enclosure <item-id> <index>\n"@
            + "  To download: rss-reader open-enclosure <item-id> <index> --download [--output-dir <dir>]\n"@
    }
}

/// The link line of the article view; empty when there is no link.
pub open spec fn link_section(l: Option<Seq<char>>) -> Seq<char> {
    match l {
        Option::Some(x) => if x.len() > 0 {
            "Link:   "@ + x + "\n"@
        } else {
            Seq::<char>::empty()
        },
        Option::None => Seq::<char>::empty(),
    }
}

/// The whole human article view: title, date, source, optional link,
/// the formatted body, and the media section.
pub open spec fn show_human(i: FeedItemV) -> Seq<char> {
    i.title + "\n\n"@ + "Date:   "@ + published_display(i.published) + "\n"@ + "Source: "@
        + i.feed_url + "\n"@ + link_section(i.link) + "\n---\n\n"@ + format_article_spec(
        i.content,
        80,
    ) + "\n"@ + media_section(i.enclosures)
}

/// One enclosure as a JSON object; absent fields omitted.
pub open spec fn encl_json(e: MediaEnclosureV) -> Seq<char> {
    "{\"url\":"@ + enc_str_view(e.url) + (match e.media_type {
        Option::None => Seq::<char>::empty(),
        Option::Some(m) => ",\"media_type\":"@ + enc_str_view(m),
    }) + (match e.length {
        Option::None => Seq::<char>::empty(),
        Option::Some(n) => ",\"length\":"@ + dec_digits(n as nat),
    }) + "}"@
}

/// The enclosures as a JSON array body.
pub open spec fn encls_json(s: Seq<MediaEnclosureV>) -> Seq<char>
    decreases s.len(),
{
    if s.len() == 0 {
        Seq::<char>::empty()
    } else if s.len() == 1 {
        encl_json(s[0])
    } else {
        encl_json(s[0]) + ","@ + encls_json(s.drop_first())
    }
}

/// The whole article view as a JSON object.
pub open spec fn show_json(i: FeedItemV) -> Seq<char> {
    "{\"title\":"@ + enc_str_view(i.title) + ",\"published\":"@ + ts_json(i.published)
        + ",\"feed_url\":"@ + enc_str_view(i.feed_url) + ",\"content\":"@ + enc_str_view(
        match i.content {
            Option::Some(c) => c,
            Option::None => Seq::<char>::empty(),
        },
    ) + ",\"enclosures\":["@ + encls_json(i.enclosures) + "]}"@ + "\n"@
}

/// The article view, in the chosen mode.
pub open spec fn show_output(i: FeedItemV, json: bool) -> Seq<char> {
    if json {
        show_json(i)
    } else {
        show_human(i)
    }
}

/// A one-line confirmation, as text or as a JSON object.
pub open spec fn confirm_output(msg: Seq<char>, json: bool) -> Seq<char> {
    if json {
        "{\"success\":true,\"message\":"@ + enc_str_view(msg) + "}"@ + "\n"@
    } else {
        msg + "\n"@
    }
}

/// The confirmation printed after a subscription.
pub open spec fn add_output(url: Seq<char>, json: bool) -> Seq<char> {
    confirm_output("Added feed: "@ + url, json)
}

/// The confirmation printed after a removal.
pub open spec fn remove_output(url: Seq<char>, json: bool) -> Seq<char> {
    confirm_output("Removed feed: "@ + url, json)
}

/// Failure descriptions joined into one line.
pub open spec fn join_semi(s: Seq<Seq<char>>) -> Seq<char>
    decreases s.len(),
{
    if s.len() == 0 {
        Seq::<char>::empty()
    } else if s.len() == 1 {
        s[0]
    } else {
        s[0] + "; "@ + join_semi(s.drop_first())
    }
}

/// What a refresh reports: the number of feeds applied, and the
/// failures, never dropped for the successes' sake.
pub open spec fn refresh_output(count: nat, failures: Seq<Seq<char>>, json: bool) -> Seq<char> {
    if json {
        "{\"success\":true,\"updated_count\":"@ + dec_digits(count) + (if failures.len() == 0 {
            "}"@
        } else {
            ",\"errors\":"@ + enc_str_view(join_semi(failures)) + "}"@
        }) + "\n"@
    } else {
        "Refreshed "@ + dec_digits(count) + " feed(s)\n"@ + (if failures.len() == 0 {
            Seq::<char>::empty()
        } else {
            "Failures: "@ + join_semi(failures) + "\n"@
        })
    }
}

// ----------------------------------------------------- refresh folding

/// The store after applying every successful fetch, in order.
pub open spec fn apply_fetches(v: SubscriptionListV, s: Seq<FetchOutcome>, cap: nat)
    -> SubscriptionListV
    decreases s.len(),
{
    if s.len() == 0 {
        v
    } else {
        match s[0].result {
            Result::Ok(p) => apply_fetches(
                add_feed_spec(v, p.0.deep_view(), p.1.deep_view(), cap),
                s.drop_first(),
                cap,
            ),
            Result::Err(_) => apply_fetches(v, s.drop_first(), cap),
        }
    }
}

/// How many fetches succeeded.
pub open spec fn ok_count(s: Seq<FetchOutcome>) -> nat
    decreases s.len(),
{
    if s.len() == 0 {
        0
    } else {
        (match s[0].result {
            Result::Ok(_) => 1 as nat,
            Result::Err(_) => 0 as nat,
        }) + ok_count(s.drop_first())
    }
}

/// The messages of the failed fetches, in order.
pub open spec fn fail_msgs(s: Seq<FetchOutcome>) -> Seq<Seq<char>>
    decreases s.len(),
{
    if s.len() == 0 {
        Seq::<Seq<char>>::empty()
    } else {
        match s[0].result {
            Result::Ok(_) => fail_msgs(s.drop_first()),
            Result::Err(e) => seq![e.message_spec()] + fail_msgs(s.drop_first()),
        }
    }
}

// ----------------------------------------------------- exec builders

/// Append a JSON string value.
fn push_str_value(out: &mut Vec<char>, s: &str)
    ensures
        final(out)@ == old(out)@ + enc_str_view(s@),
{
    push_json_string(out, s);
    assert(out@ =~= old(out)@ + enc_str_view(s@));
}

/// Append a feed's listing line.
fn push_feed_line(out: &mut Vec<char>, f: &Feed)
    ensures
        final(out)@ == old(out)@ + feed_line(f.deep_view()),
{
    match &f.title {
        Option::Some(t) => push_lit(out, t.as_str()),
        Option::None => push_lit(out, f.url.as_str()),
    }
    push_lit(out, " (");
    push_lit(out, f.url.as_str());
    push_lit(out, ")");
    push_lit(out, "\n");
    assert(out@ =~= old(out)@ + feed_line(f.deep_view()));
}

/// Append the feed listing from index `i` on.
fn push_feeds_human(out: &mut Vec<char>, v: &Vec<Feed>, i: usize)
    requires
        i <= v@.len(),
    ensures
        final(out)@ == old(out)@ + feeds_human(v.deep_view().skip(i as int)),
    decreases v@.len() - i,
{
    let ghost rest = v.deep_view().skip(i as int);
    if i == v.len() {
        proof {
            assert(rest =~= Seq::<FeedV>::empty());
            assert(out@ + feeds_human(rest) =~= out@);
        }
    } else {
        proof {
            assert(rest[0] == v.deep_view()[i as int]);
            assert(rest.drop_first() =~= v.deep_view().skip(i + 1));
        }
        push_feed_line(out, &v[i]);
        push_feeds_human(out, v, i + 1);
        proof {
            crate::jsontext::lemma_assoc(
                old(out)@,
                feed_line(rest[0]),
                feeds_human(rest.drop_first()),
            );
        }
    }
}

/// Append a feed as a JSON object.
fn push_feed_json(out: &mut Vec<char>, f: &Feed)
    ensures
        final(out)@ == old(out)@ + feed_json(f.deep_view()),
{
    push_lit(out, "{\"url\":");
    push_str_value(out, f.url.as_str());
    match &f.title {
        Option::None => push_lit(out, "}"),
        Option::Some(t) => {
            push_lit(out, ",\"title\":");
            push_str_value(out, t.as_str());
            push_lit(out, "}");
        },
    }
    assert(out@ =~= old(out)@ + feed_json(f.deep_view()));
}

/// Append the JSON feed array body from index `i` on.
fn push_feeds_json(out: &mut Vec<char>, v: &Vec<Feed>, i: usize)
    requires
        i <= v@.len(),
    ensures
        final(out)@ == old(out)@ + feeds_json(v.deep_view().skip(i as int)),
    decreases v@.len() - i,
{
    let ghost rest = v.deep_view().skip(i as int);
    if i == v.len() {
        proof {
            assert(rest =~= Seq::<FeedV>::empty());
            assert(out@ + feeds_json(rest) =~= out@);
        }
    } else {
        proof {
            assert(rest[0] == v.deep_view()[i as int]);
            assert(rest.drop_first() =~= v.deep_view().skip(i + 1));
        }
        push_feed_json(out, &v[i]);
        if i + 1 < v.len() {
            push_lit(out, ",");
            push_feeds_json(out, v, i + 1);
            proof {
                crate::jsontext::lemma_assoc(
                    old(out)@,
                    feed_json(rest[0]),
                    ","@ + feeds_json(rest.drop_first()),
                );
                crate::jsontext::lemma_assoc(
                    feed_json(rest[0]),
                    ","@,
                    feeds_json(rest.drop_first()),
                );
                crate::jsontext::lemma_assoc(old(out)@, feed_json(rest[0]) + ","@, feeds_json(
                    rest.drop_first(),
                ));
            }
        } else {
            proof {
                assert(rest.len() == 1);
            }
        }
    }
}

/// Append a timestamp as a JSON value.
fn push_ts_json(out: &mut Vec<char>, p: Option<i64>)
    ensures
        final(out)@ == old(out)@ + ts_json(p),
{
    match p {
        Option::None => push_lit(out, "null"),
        Option::Some(ts) => {
            if crate::timefmt::TS_MIN <= ts && ts <= crate::timefmt::TS_MAX {
                match fmt_rfc3339(ts) {
                    Option::Some(st) => {
                        out.push('"');
                        push_lit(out, st.as_str());
                        out.push('"');
                        assert(out@ =~= old(out)@ + ts_json(p));
                    },
                    Option::None => {
                        proof {
                            assert(false);
                        }
                    },
                }
            } else {
                push_lit(out, "null");
            }
        },
    }
}

/// Append an item's listing line.
fn push_item_line(out: &mut Vec<char>, it: &FeedItem)
    ensures
        final(out)@ == old(out)@ + item_line(it.deep_view()),
{
    match it.published {
        Option::Some(ts) => {
            let d = display_ts(ts);
            push_lit(out, d.as_str());
        },
        Option::None => push_lit(out, "?"),
    }
    push_lit(out, " | ");
    push_lit(out, it.title.as_str());
    push_lit(out, " | ");
    push_lit(out, it.feed_url.as_str());
    push_lit(out, "\n");
    assert(out@ =~= old(out)@ + item_line(it.deep_view()));
}

/// Append the item listing from index `i` on.
fn push_items_human(out: &mut Vec<char>, v: &Vec<FeedItem>, i: usize)
    requires
        i <= v@.len(),
    ensures
        final(out)@ == old(out)@ + items_human(v.deep_view().skip(i as int)),
    decreases v@.len() - i,
{
    let ghost rest = v.deep_view().skip(i as int);
    if i == v.len() {
        proof {
            assert(rest =~= Seq::<FeedItemV>::empty());
            assert(out@ + items_human(rest) =~= out@);
        }
    } else {
        proof {
            assert(rest[0] == v.deep_view()[i as int]);
            assert(rest.drop_first() =~= v.deep_view().skip(i + 1));
        }
        push_item_line(out, &v[i]);
        push_items_human(out, v, i + 1);
        proof {
            crate::jsontext::lemma_assoc(
                old(out)@,
                item_line(rest[0]),
                items_human(rest.drop_first()),
            );
        }
    }
}

/// Append an item as a JSON object.
fn push_item_json(out: &mut Vec<char>, it: &FeedItem)
    ensures
        final(out)@ == old(out)@ + item_json(it.deep_view()),
{
    push_lit(out, "{\"id\":");
    push_str_value(out, it.id.as_str());
    push_lit(out, ",\"feed_url\":");
    push_str_value(out, it.feed_url.as_str());
    push_lit(out, ",\"title\":");
    push_str_value(out, it.title.as_str());
    push_lit(out, ",\"published\":");
    push_ts_json(out, it.published);
    match &it.link {
        Option::None => push_lit(out, "}"),
        Option::Some(l) => {
            push_lit(out, ",\"link\":");
            push_str_value(out, l.as_str());
            push_lit(out, "}");
        },
    }
    assert(out@ =~= old(out)@ + item_json(it.deep_view()));
}

/// Append the JSON item array body from index `i` on.
fn push_items_json(out: &mut Vec<char>, v: &Vec<FeedItem>, i: usize)
    requires
        i <= v@.len(),
    ensures
        final(out)@ == old(out)@ + items_json(v.deep_view().skip(i as int)),
    decreases v@.len() - i,
{
    let ghost rest = v.deep_view().skip(i as int);
    if i == v.len() {
        proof {
            assert(rest =~= Seq::<FeedItemV>::empty());
            assert(out@ + items_json(rest) =~= out@);
        }
    } else {
        proof {
            assert(rest[0] == v.deep_view()[i as int]);
            assert(rest.drop_first() =~= v.deep_view().skip(i + 1));
        }
        push_item_json(out, &v[i]);
        if i + 1 < v.len() {
            push_lit(out, ",");
            push_items_json(out, v, i + 1);
            proof {
                crate::jsontext::lemma_assoc(
                    old(out)@,
                    item_json(rest[0]),
                    ","@ + items_json(rest.drop_first()),
                );
                crate::jsontext::lemma_assoc(
                    item_json(rest[0]),
                    ","@,
                    items_json(rest.drop_first()),
                );
                crate::jsontext::lemma_assoc(old(out)@, item_json(rest[0]) + ","@, items_json(
                    rest.drop_first(),
                ));
            }
        } else {
            proof {
                assert(rest.len() == 1);
            }
        }
    }
}

/// Append one enclosure line, numbered `idx`.
fn push_encl_line(out: &mut Vec<char>, e: &MediaEnclosure, idx: usize)
    ensures
        final(out)@ == old(out)@ + encl_line(e.deep_view(), idx as nat),
{
    push_lit(out, "  [");
    push_u64(out, idx as u64);
    push_lit(out, "] Open: ");
    push_lit(out, e.url.as_str());
    push_lit(out, " (");
    match &e.media_type {
        Option::Some(m) => push_lit(out, m.as_str()),
        Option::None => push_lit(out, "?"),
    }
    push_lit(out, ")");
    push_lit(out, "\n");
    assert(out@ =~= old(out)@ + encl_line(e.deep_view(), idx as nat));
}

/// Append the enclosure lines from index `i` on.
fn push_encl_lines(out: &mut Vec<char>, v: &Vec<MediaEnclosure>, i: usize)
    requires
        i <= v@.len(),
    ensures
        final(out)@ == old(out)@ + encl_lines(v.deep_view().skip(i as int), i as nat),
    decreases v@.len() - i,
{
    let ghost rest = v.deep_view().skip(i as int);
    if i == v.len() {
        proof {
            assert(rest =~= Seq::<MediaEnclosureV>::empty());
            assert(out@ + encl_lines(rest, i as nat) =~= out@);
        }
    } else {
        proof {
            assert(rest[0] == v.deep_view()[i as int]);
            assert(rest.drop_first() =~= v.deep_view().skip(i + 1));
        }
        push_encl_line(out, &v[i], i);
        push_encl_lines(out, v, i + 1);
        proof {
            crate::jsontext::lemma_assoc(
                old(out)@,
                encl_line(rest[0], i as nat),
                encl_lines(rest.drop_first(), (i + 1) as nat),
            );
        }
    }
}

/// Append an enclosure as a JSON object.
fn push_encl_json(out: &mut Vec<char>, e: &MediaEnclosure)
    ensures
        final(out)@ == old(out)@ + encl_json(e.deep_view()),
{
    push_lit(out, "{\"url\":");
    push_str_value(out, e.url.as_str());
    match &e.media_type {
        Option::None => (),
        Option::Some(m) => {
            push_lit(out, ",\"media_type\":");
            push_str_value(out, m.as_str());
        },
    }
    match e.length {
        Option::None => (),
        Option::Some(n) => {
            push_lit(out, ",\"length\":");
            push_u64(out, n);
        },
    }
    push_lit(out, "}");
    assert(out@ =~= old(out)@ + encl_json(e.deep_view()));
}

/// Append the JSON enclosure array body from index `i` on.
fn push_encls_json(out: &mut Vec<char>, v: &Vec<MediaEnclosure>, i: usize)
    requires
        i <= v@.len(),
    ensures
        final(out)@ == old(out)@ + encls_json(v.deep_view().skip(i as int)),
    decreases v@.len() - i,
{
    let ghost rest = v.deep_view().skip(i as int);
    if i == v.len() {
        proof {
            assert(rest =~= Seq::<MediaEnclosureV>::empty());
            assert(out@ + encls_json(rest) =~= out@);
        }
    } else {
        proof {
            assert(rest[0] == v.deep_view()[i as int]);
            assert(rest.drop_first() =~= v.deep_view().skip(i + 1));
        }
        push_encl_json(out, &v[i]);
        if i + 1 < v.len() {
            push_lit(out, ",");
            push_encls_json(out, v, i + 1);
            proof {
                crate::jsontext::lemma_assoc(
                    old(out)@,
                    encl_json(rest[0]),
                    ","@ + encls_json(rest.drop_first()),
                );
                crate::jsontext::lemma_assoc(
                    encl_json(rest[0]),
                    ","@,
                    encls_json(rest.drop_first()),
                );
                crate::jsontext::lemma_assoc(old(out)@, encl_json(rest[0]) + ","@, encls_json(
                    rest.drop_first(),
                ));
            }
        } else {
            proof {
                assert(rest.len() == 1);
            }
        }
    }
}

/// Build the article view.
#[verifier::rlimit(100)]
#[verifier::spinoff_prover]
fn build_show(it: &FeedItem, json: bool) -> (r: String)
    ensures
        r@ == show_output(it.deep_view(), json),
{
    let mut out: Vec<char> = Vec::new();
    proof {
        assert(out@ =~= Seq::<char>::empty());
    }
    if json {
        push_lit(&mut out, "{\"title\":");
        push_str_value(&mut out, it.title.as_str());
        push_lit(&mut out, ",\"published\":");
        push_ts_json(&mut out, it.published);
        push_lit(&mut out, ",\"feed_url\":");
        push_str_value(&mut out, it.feed_url.as_str());
        push_lit(&mut out, ",\"content\":");
        match &it.content {
            Option::Some(c) => push_str_value(&mut out, c.as_str()),
            Option::None => push_str_value(&mut out, ""),
        }
        push_lit(&mut out, ",\"enclosures\":[");
        push_encls_json(&mut out, &it.enclosures, 0);
        push_lit(&mut out, "]}");
        push_lit(&mut out, "\n");
        proof {
            reveal_strlit("");
            assert(""@ =~= Seq::<char>::empty());
            assert(it.enclosures.deep_view().skip(0) =~= it.enclosures.deep_view());
            assert(out@ =~= show_json(it.deep_view()));
        }
    } else {
        push_lit(&mut out, it.title.as_str());
        push_lit(&mut out, "\n\n");
        push_lit(&mut out, "Date:   ");
        match it.published {
            Option::Some(ts) => {
                let d = display_ts(ts);
                push_lit(&mut out, d.as_str());
            },
            Option::None => push_lit(&mut out, "?"),
        }
        push_lit(&mut out, "\n");
        push_lit(&mut out, "Source: ");
        push_lit(&mut out, it.feed_url.as_str());
        push_lit(&mut out, "\n");
        match &it.link {
            Option::Some(l) => {
                if l.as_str().unicode_len() > 0 {
                    push_lit(&mut out, "Link:   ");
                    push_lit(&mut out, l.as_str());
                    push_lit(&mut out, "\n");
                }
            },
            Option::None => (),
        }
        push_lit(&mut out, "\n---\n\n");
        let body = match &it.content {
            Option::Some(c) => format_article(Option::Some(c.as_str()), 80),
            Option::None => format_article(Option::None, 80),
        };
        push_lit(&mut out, body.as_str());
        push_lit(&mut out, "\n");
        if it.enclosures.len() > 0 {
            push_lit(&mut out, "\n---\nMedia:\n");
            push_encl_lines(&mut out, &it.enclosures, 0);
            push_lit(&mut out, "\n  To open: rss-reader open-enclosure <item-id> <index>\n");
            push_lit(
                &mut out,
                "  To download: rss-reader open-enclosure <item-id> <index> --download [--output-dir <dir>]\n",
            );
            proof {
                assert(it.enclosures.deep_view().skip(0) =~= it.enclosures.deep_view());
            }
        }
        proof {
            assert(out@ =~= show_human(it.deep_view()));
        }
    }
    chars_to_string(&out)
}

/// Join failure messages from index `i` on.
fn join_msgs_from(msgs: &Vec<String>, i: usize) -> (r: String)
    requires
        i <= msgs@.len(),
    ensures
        r@ == join_semi(msgs.deep_view().skip(i as int)),
    decreases msgs@.len() - i,
{
    let ghost rest = msgs.deep_view().skip(i as int);
    if i == msgs.len() {
        proof {
            assert(rest =~= Seq::<Seq<char>>::empty());
        }
        String::new()
    } else if i + 1 == msgs.len() {
        proof {
            assert(rest.len() == 1);
            assert(rest[0] == msgs.deep_view()[i as int]);
        }
        msgs[i].clone()
    } else {
        proof {
            assert(rest[0] == msgs.deep_view()[i as int]);
            assert(rest.drop_first() =~= msgs.deep_view().skip(i + 1));
        }
        let tail_str = join_msgs_from(msgs, i + 1);
        let r = msgs[i].clone().concat("; ").concat(tail_str.as_str());
        proof {
            crate::jsontext::lemma_assoc(rest[0], "; "@, join_semi(rest.drop_first()));
        }
        r
    }
}

/// Build a one-line confirmation.
fn build_confirm(msg: &str, json: bool) -> (r: String)
    ensures
        r@ == confirm_output(msg@, json),
{
    let mut out: Vec<char> = Vec::new();
    proof {
        assert(out@ =~= Seq::<char>::empty());
    }
    if json {
        push_lit(&mut out, "{\"success\":true,\"message\":");
        push_str_value(&mut out, msg);
        push_lit(&mut out, "}");
        push_lit(&mut out, "\n");
        assert(out@ =~= confirm_output(msg@, json));
    } else {
        push_lit(&mut out, msg);
        push_lit(&mut out, "\n");
        assert(out@ =~= confirm_output(msg@, json));
    }
    chars_to_string(&out)
}

/// Run one command against the store. Fetch results for a
/// subscription or refresh come in through `fetched`; the caller
/// prints the returned text, saves when asked to, and performs any
/// enclosure action.
#[verifier::rlimit(100)]
#[verifier::spinoff_prover]
pub fn run(args: &Args, store: &mut SubscriptionList, fetched: Vec<FetchOutcome>) -> (r: Result<
    CliOutput,
    Error,
>)
    ensures
        match args.cmd {
            Command::Add { url } => {
                if fetched@.len() == 1 {
                    match fetched@[0].result {
                        Result::Ok(p) => r is Ok && final(store).deep_view() == add_feed_spec(
                            old(store).deep_view(),
                            p.0.deep_view(),
                            p.1.deep_view(),
                            DEFAULT_CAP_PER_FEED as nat,
                        ) && (r->Ok_0).save && (r->Ok_0).action is None && (r->Ok_0).stdout@
                            == add_output(fetched@[0].url@, wants_json(args.output@)),
                        Result::Err(_) => r is Err && *final(store) == *old(store),
                    }
                } else {
                    r is Err && *final(store) == *old(store)
                }
            },
            Command::Remove { url } => {
                &&& final(store).feeds.deep_view() == drop_feed(
                    old(store).feeds.deep_view(),
                    url@,
                )
                &&& final(store).items_by_feed.deep_view() == drop_lists(
                    old(store).items_by_feed.deep_view(),
                    url@,
                )
                &&& r is Ok <==> has_feed(old(store).feeds.deep_view(), url@)
                &&& r is Ok ==> (r->Ok_0).save && (r->Ok_0).action is None && (r->Ok_0).stdout@
                    == remove_output(url@, wants_json(args.output@))
                &&& r is Err ==> r->Err_0 is NotFound && (r->Err_0)->NotFound_0@
                    == "feed not found: "@ + url@
            },
            Command::ListFeeds => r is Ok && *final(store) == *old(store) && !(r->Ok_0).save && (
            r->Ok_0).action is None && (r->Ok_0).stdout@ == feeds_output(
                old(store).feeds.deep_view(),
                wants_json(args.output@),
            ),
            Command::ListItems { feed } => r is Ok && *final(store) == *old(store) && !(
            r->Ok_0).save && (r->Ok_0).action is None && (r->Ok_0).stdout@ == items_output(
                items_spec(old(store).deep_view(), feed.deep_view()),
                wants_json(args.output@),
            ),
            Command::Show { item_id } => *final(store) == *old(store) && match first_with_id(
                items_spec(old(store).deep_view(), Option::None),
                item_id@,
            ) {
                Option::Some(iv) => r is Ok && !(r->Ok_0).save && (r->Ok_0).action is None && (
                r->Ok_0).stdout@ == show_output(iv, wants_json(args.output@)),
                Option::None => r is Err && r->Err_0 is NotFound && (r->Err_0)->NotFound_0@
                    == "item not found: "@ + item_id@,
            },
            Command::Refresh { feed } => r is Ok && final(store).deep_view() == apply_fetches(
                old(store).deep_view(),
                fetched@,
                DEFAULT_CAP_PER_FEED as nat,
            ) && (r->Ok_0).save && (r->Ok_0).action is None && (r->Ok_0).stdout@
                == refresh_output(
                ok_count(fetched@),
                fail_msgs(fetched@),
                wants_json(args.output@),
            ),
            Command::OpenEnclosure { item_id, index, download, output_dir } => *final(store)
                == *old(store) && match first_with_id(
                items_spec(old(store).deep_view(), Option::None),
                item_id@,
            ) {
                Option::None => r is Err && r->Err_0 is NotFound && (r->Err_0)->NotFound_0@
                    == "item not found: "@ + item_id@,
                Option::Some(iv) => {
                    if index < iv.enclosures.len() {
                        r is Ok && !(r->Ok_0).save && (r->Ok_0).stdout@.len() == 0 && match (
                        r->Ok_0).action {
                            Option::Some(EnclosureAction::Download(e, d)) => download
                                && e.deep_view() == iv.enclosures[index as int] && d.deep_view()
                                == output_dir.deep_view(),
                            Option::Some(EnclosureAction::Open(e)) => !download && e.deep_view()
                                == iv.enclosures[index as int],
                            Option::None => false,
                        }
                    } else {
                        r is Err && r->Err_0 is NotFound && (r->Err_0)->NotFound_0@
                            == "enclosure index "@ + dec_digits(index as nat)
                            + " not found"@
                    }
                },
            },
        },
{
    let json = output_json(args);
    match &args.cmd {
        Command::Add { url: _ } => {
            let mut fetched = fetched;
            if fetched.len() != 1 {
                return Result::Err(
                    Error::InvalidUrl(String::from_str("expected one fetch result")),
                );
            }
            let fo = fetched.remove(0);
            match fo.result {
                Result::Err(e) => Result::Err(e),
                Result::Ok((feed, items)) => {
                    store.add_feed(feed, items);
                    let msg = String::from_str("Added feed: ").concat(fo.url.as_str());
                    let stdout = build_confirm(msg.as_str(), json);
                    Result::Ok(CliOutput { stdout, save: true, action: Option::None })
                },
            }
        },
        Command::Remove { url } => {
            let removed = store.remove_feed(url.as_str());
            if removed {
                let msg = String::from_str("Removed feed: ").concat(url.as_str());
                let stdout = build_confirm(msg.as_str(), json);
                Result::Ok(CliOutput { stdout, save: true, action: Option::None })
            } else {
                Result::Err(
                    Error::NotFound(
                        String::from_str("feed not found: ").concat(url.as_str()),
                    ),
                )
            }
        },
        Command::ListFeeds => {
            let mut out: Vec<char> = Vec::new();
            proof {
                assert(out@ =~= Seq::<char>::empty());
                assert(store.feeds.deep_view().skip(0) =~= store.feeds.deep_view());
            }
            if json {
                push_lit(&mut out, "[");
                push_feeds_json(&mut out, &store.feeds, 0);
                push_lit(&mut out, "]");
                push_lit(&mut out, "\n");
            } else {
                push_feeds_human(&mut out, &store.feeds, 0);
            }
            assert(out@ =~= feeds_output(store.feeds.deep_view(), json));
            let stdout = chars_to_string(&out);
            Result::Ok(CliOutput { stdout, save: false, action: Option::None })
        },
        Command::ListItems { feed } => {
            let filter: Option<&str> = match feed {
                Option::Some(u) => Option::Some(u.as_str()),
                Option::None => Option::None,
            };
            let list = store.items(filter);
            proof {
                assert(filter.deep_view() == feed.deep_view());
            }
            let mut out: Vec<char> = Vec::new();
            proof {
                assert(out@ =~= Seq::<char>::empty());
                assert(list.deep_view().skip(0) =~= list.deep_view());
            }
            if json {
                push_lit(&mut out, "[");
                push_items_json(&mut out, &list, 0);
                push_lit(&mut out, "]");
                push_lit(&mut out, "\n");
            } else {
                push_items_human(&mut out, &list, 0);
            }
            assert(out@ =~= items_output(
                items_spec(store.deep_view(), feed.deep_view()),
                json,
            ));
            let stdout = chars_to_string(&out);
            Result::Ok(CliOutput { stdout, save: false, action: Option::None })
        },
        Command::Show { item_id } => {
            match store.get_item(item_id.as_str(), Option::None) {
                Option::None => Result::Err(
                    Error::NotFound(
                        String::from_str("item not found: ").concat(item_id.as_str()),
                    ),
                ),
                Option::Some(it) => {
                    let stdout = build_show(&it, json);
                    Result::Ok(CliOutput { stdout, save: false, action: Option::None })
                },
            }
        },
        Command::Refresh { feed: _ } => {
            let mut fetched = fetched;
            let ghost full = fetched@;
            let n0 = fetched.len();
            proof {
                assert(full.len() == n0);
            }
            let ghost basedv = store.deep_view();
            let mut count: u64 = 0;
            let mut msgs: Vec<String> = Vec::new();
            proof {
                assert(msgs.deep_view() =~= Seq::<Seq<char>>::empty());
                assert(Seq::<Seq<char>>::empty() + fail_msgs(full) =~= fail_msgs(full));
            }
            while fetched.len() > 0
                invariant
                    full.len() <= usize::MAX,
                    count + fetched@.len() <= full.len(),
                    apply_fetches(basedv, full, DEFAULT_CAP_PER_FEED as nat) == apply_fetches(
                        store.deep_view(),
                        fetched@,
                        DEFAULT_CAP_PER_FEED as nat,
                    ),
                    ok_count(full) == count + ok_count(fetched@),
                    fail_msgs(full) == msgs.deep_view() + fail_msgs(fetched@),
                decreases fetched@.len(),
            {
                let ghost pre = fetched@;
                let fo = fetched.remove(0);
                proof {
                    assert(fetched@ =~= pre.drop_first());
                    assert(fo == pre[0]);
                }
                match fo.result {
                    Result::Ok((f, is)) => {
                        store.add_feed(f, is);
                        count = count + 1;
                    },
                    Result::Err(e) => {
                        let m = e.message();
                        let ghost gm = m;
                        let ghost mpre = msgs;
                        msgs.push(m);
                        proof {
                            crate::feed::lemma_deep_view_push(mpre, msgs, gm);
                            assert(msgs.deep_view() + fail_msgs(pre.drop_first())
                                =~= mpre.deep_view() + (seq![e.message_spec()] + fail_msgs(
                                pre.drop_first(),
                            )));
                        }
                    },
                }
            }
            proof {
                assert(fetched@.len() == 0);
                assert(apply_fetches(store.deep_view(), fetched@, DEFAULT_CAP_PER_FEED as nat)
                    == store.deep_view());
                assert(msgs.deep_view() + fail_msgs(fetched@) =~= msgs.deep_view());
            }
            let mut out: Vec<char> = Vec::new();
            proof {
                assert(out@ =~= Seq::<char>::empty());
                assert(msgs.deep_view().skip(0) =~= msgs.deep_view());
            }
            let joined = join_msgs_from(&msgs, 0);
            if json {
                push_lit(&mut out, "{\"success\":true,\"updated_count\":");
                push_u64(&mut out, count);
                if msgs.len() == 0 {
                    push_lit(&mut out, "}");
                } else {
                    push_lit(&mut out, ",\"errors\":");
                    push_str_value(&mut out, joined.as_str());
                    push_lit(&mut out, "}");
                }
                push_lit(&mut out, "\n");
            } else {
                push_lit(&mut out, "Refreshed ");
                push_u64(&mut out, count);
                push_lit(&mut out, " feed(s)\n");
                if msgs.len() > 0 {
                    push_lit(&mut out, "Failures: ");
                    push_lit(&mut out, joined.as_str());
                    push_lit(&mut out, "\n");
                }
            }
            assert(out@ =~= refresh_output(ok_count(full), fail_msgs(full), json));
            let stdout = chars_to_string(&out);
            Result::Ok(CliOutput { stdout, save: true, action: Option::None })
        },
        Command::OpenEnclosure { item_id, index, download, output_dir } => {
            match store.get_item(item_id.as_str(), Option::None) {
                Option::None => Result::Err(
                    Error::NotFound(
                        String::from_str("item not found: ").concat(item_id.as_str()),
                    ),
                ),
                Option::Some(it) => {
                    if *index < it.enclosures.len() {
                        let e = it.enclosures[*index].clone();
                        let action = if *download {
                            EnclosureAction::Download(
                                e,
                                crate::feed::clone_opt_string(output_dir),
                            )
                        } else {
                            EnclosureAction::Open(e)
                        };
                        Result::Ok(
                            CliOutput {
                                stdout: String::new(),
                                save: false,
                                action: Option::Some(action),
                            },
                        )
                    } else {
                        let mut buf: Vec<char> = Vec::new();
                        push_lit(&mut buf, "enclosure index ");
                        push_u64(&mut buf, *index as u64);
                        push_lit(&mut buf, " not found");
                        Result::Err(Error::NotFound(chars_to_string(&buf)))
                    }
                },
            }
        },
    }
}

} // verus!
