//! The snapshot codec: the durable text form of a subscription list.
//! One fixed JSON shape — a `feeds` array and an `items_by_feed`
//! object — with every field always present and absence written as
//! `null`. The parser is the ground truth; the encoder's contract says
//! its output parses back to exactly the encoded store.

use vstd::prelude::*;
use vstd::string::StrSliceExecFns;
use vstd::string::StringExecFns;

use crate::error::Error;
use crate::feed::{
    lemma_deep_view_concat, Feed, FeedItem, FeedItemV, FeedV,
    MediaEnclosure, MediaEnclosureV,
};
use crate::format::{chars_to_string, str_chars_vec};
use crate::jsontext::{
    dec_digits, expect, json_escaped, json_plain, lemma_expect, lemma_json_escaped_plain,
    lemma_parse_escaped, lemma_parse_nat, p_lit, p_string, p_u64, parse_nat, parse_string_body,
    push_json_string, push_u64,
};
use crate::store::{FeedItemList, FeedItemListV, SubscriptionList, SubscriptionListV};
use crate::timefmt::{fmt_rfc3339, parse_rfc3339, rfc3339_of, rfc3339_parse, ts_in_range};

verus! {

// ---------------------------------------------------------------- encoding

/// A string value: quoted and escaped.
pub open spec fn enc_str(s: Seq<char>) -> Seq<char> {
    crate::jsontext::enc_str_view(s)
}

/// An optional string value: `null` or a string.
pub open spec fn enc_opt_str(o: Option<Seq<char>>) -> Seq<char> {
    match o {
        Option::None => "null"@,
        Option::Some(s) => enc_str(s),
    }
}

/// An optional timestamp value: `null` or the quoted RFC 3339 text.
pub open spec fn enc_opt_ts(o: Option<i64>) -> Seq<char> {
    match o {
        Option::None => "null"@,
        Option::Some(t) => seq!['"'] + rfc3339_of(t) + seq!['"'],
    }
}

/// An optional byte count: `null` or decimal digits.
pub open spec fn enc_opt_len(o: Option<u64>) -> Seq<char> {
    match o {
        Option::None => "null"@,
        Option::Some(n) => dec_digits(n as nat),
    }
}

/// One enclosure object.
pub open spec fn enc_encl(e: MediaEnclosureV) -> Seq<char> {
    "{\"url\":"@ + enc_str(e.url) + ",\"media_type\":"@ + enc_opt_str(e.media_type)
        + ",\"length\":"@ + enc_opt_len(e.length) + ",\"title\":"@ + enc_opt_str(e.title) + "}"@
}

/// A comma-separated run of enclosures (without the closing bracket).
pub open spec fn enc_encls(s: Seq<MediaEnclosureV>) -> Seq<char>
    decreases s.len(),
{
    if s.len() == 0 {
        Seq::<char>::empty()
    } else if s.len() == 1 {
        enc_encl(s[0])
    } else {
        enc_encl(s[0]) + ","@ + enc_encls(s.drop_first())
    }
}

/// One item object.
pub open spec fn enc_item(i: FeedItemV) -> Seq<char> {
    "{\"id\":"@ + enc_str(i.id) + ",\"feed_url\":"@ + enc_str(i.feed_url) + ",\"title\":"@
        + enc_str(i.title) + ",\"link\":"@ + enc_opt_str(i.link) + ",\"published\":"@
        + enc_opt_ts(i.published) + ",\"summary\":"@ + enc_opt_str(i.summary) + ",\"content\":"@
        + enc_opt_str(i.content) + ",\"enclosures\":["@ + enc_encls(i.enclosures) + "]"@ + "}"@
}

/// A comma-separated run of items.
pub open spec fn enc_items(s: Seq<FeedItemV>) -> Seq<char>
    decreases s.len(),
{
    if s.len() == 0 {
        Seq::<char>::empty()
    } else if s.len() == 1 {
        enc_item(s[0])
    } else {
        enc_item(s[0]) + ","@ + enc_items(s.drop_first())
    }
}

/// One feed object.
pub open spec fn enc_feed(f: FeedV) -> Seq<char> {
    "{\"url\":"@ + enc_str(f.url) + ",\"title\":"@ + enc_opt_str(f.title) + ",\"description\":"@
        + enc_opt_str(f.description) + ",\"last_fetched\":"@ + enc_opt_ts(f.last_fetched)
        + ",\"created_at\":"@ + enc_opt_ts(f.created_at) + "}"@
}

/// A comma-separated run of feeds.
pub open spec fn enc_feeds(s: Seq<FeedV>) -> Seq<char>
    decreases s.len(),
{
    if s.len() == 0 {
        Seq::<char>::empty()
    } else if s.len() == 1 {
        enc_feed(s[0])
    } else {
        enc_feed(s[0]) + ","@ + enc_feeds(s.drop_first())
    }
}

/// One mapping entry: the feed URL key and its item array.
pub open spec fn enc_entry(e: FeedItemListV) -> Seq<char> {
    enc_str(e.feed_url) + ":["@ + enc_items(e.items) + "]"@
}

/// A comma-separated run of mapping entries.
pub open spec fn enc_entries(s: Seq<FeedItemListV>) -> Seq<char>
    decreases s.len(),
{
    if s.len() == 0 {
        Seq::<char>::empty()
    } else if s.len() == 1 {
        enc_entry(s[0])
    } else {
        enc_entry(s[0]) + ","@ + enc_entries(s.drop_first())
    }
}

/// The whole snapshot text of a subscription list.
pub open spec fn snapshot_of(v: SubscriptionListV) -> Seq<char> {
    "{\"feeds\":["@ + enc_feeds(v.feeds) + "]"@ + ",\"items_by_feed\":{"@ + enc_entries(
        v.items_by_feed,
    ) + "}"@ + "}"@
}

// ------------------------------------------------------------- validity

/// The time formatter's stated behaviour on this timestamp: its text
/// parses back to it and needs no escaping.
pub open spec fn ts_ok(t: i64) -> bool {
    rfc3339_parse(rfc3339_of(t)) == Option::<i64>::Some(t) && json_plain(rfc3339_of(t))
}

/// `ts_ok` for a present timestamp.
pub open spec fn opt_ts_ok(o: Option<i64>) -> bool {
    match o {
        Option::None => true,
        Option::Some(t) => ts_ok(t),
    }
}

/// Every timestamp of the feed behaves as stated.
pub open spec fn feed_ok(f: FeedV) -> bool {
    opt_ts_ok(f.last_fetched) && opt_ts_ok(f.created_at)
}

/// Every timestamp of the item behaves as stated.
pub open spec fn item_ok(i: FeedItemV) -> bool {
    opt_ts_ok(i.published)
}

/// See `feed_ok` and `item_ok`, over the whole store.
pub open spec fn store_ok(v: SubscriptionListV) -> bool {
    &&& forall|k: int| 0 <= k < v.feeds.len() ==> feed_ok(#[trigger] v.feeds[k])
    &&& forall|k: int, j: int|
        0 <= k < v.items_by_feed.len() && 0 <= j < v.items_by_feed[k].items.len() ==> item_ok(
            #[trigger] v.items_by_feed[k].items[j],
        )
}

/// Every timestamp of the store lies in the renderable range.
pub open spec fn wf_ts(v: SubscriptionListV) -> bool {
    &&& forall|k: int|
        0 <= k < v.feeds.len() ==> opt_ts_in_range((#[trigger] v.feeds[k]).last_fetched)
            && opt_ts_in_range(v.feeds[k].created_at)
    &&& forall|k: int, j: int|
        0 <= k < v.items_by_feed.len() && 0 <= j < v.items_by_feed[k].items.len()
            ==> opt_ts_in_range((#[trigger] v.items_by_feed[k].items[j]).published)
}

/// A present timestamp lies in the renderable range.
pub open spec fn opt_ts_in_range(o: Option<i64>) -> bool {
    match o {
        Option::None => true,
        Option::Some(t) => ts_in_range(t),
    }
}

// ------------------------------------------------------------- parsing

/// A quoted string value.
pub open spec fn parse_str(s: Seq<char>) -> Option<(Seq<char>, Seq<char>)> {
    match expect(s, "\""@) {
        Option::None => Option::None,
        Option::Some(r) => parse_string_body(r),
    }
}

/// `null` or a string.
pub open spec fn parse_opt_str(s: Seq<char>) -> Option<(Option<Seq<char>>, Seq<char>)> {
    match expect(s, "null"@) {
        Option::Some(r) => Option::Some((Option::None, r)),
        Option::None => match parse_str(s) {
            Option::None => Option::None,
            Option::Some((x, r)) => Option::Some((Option::Some(x), r)),
        },
    }
}

/// `null` or a quoted RFC 3339 timestamp.
pub open spec fn parse_opt_ts(s: Seq<char>) -> Option<(Option<i64>, Seq<char>)> {
    match expect(s, "null"@) {
        Option::Some(r) => Option::Some((Option::None, r)),
        Option::None => match parse_str(s) {
            Option::None => Option::None,
            Option::Some((cs, r)) => match rfc3339_parse(cs) {
                Option::None => Option::None,
                Option::Some(t) => Option::Some((Option::Some(t), r)),
            },
        },
    }
}

/// `null` or a byte count that fits a `u64`.
pub open spec fn parse_opt_len(s: Seq<char>) -> Option<(Option<u64>, Seq<char>)> {
    match expect(s, "null"@) {
        Option::Some(r) => Option::Some((Option::None, r)),
        Option::None => match parse_nat(s) {
            Option::None => Option::None,
            Option::Some((n, r)) => if n <= u64::MAX {
                Option::Some((Option::Some(n as u64), r))
            } else {
                Option::None
            },
        },
    }
}

/// One enclosure object.
pub open spec fn parse_encl(s: Seq<char>) -> Option<(MediaEnclosureV, Seq<char>)> {
    match expect(s, "{\"url\":"@) {
        Option::None => Option::None,
        Option::Some(s1) => match parse_str(s1) {
            Option::None => Option::None,
            Option::Some((url, s2)) => match expect(s2, ",\"media_type\":"@) {
                Option::None => Option::None,
                Option::Some(s3) => match parse_opt_str(s3) {
                    Option::None => Option::None,
                    Option::Some((mt, s4)) => match expect(s4, ",\"length\":"@) {
                        Option::None => Option::None,
                        Option::Some(s5) => match parse_opt_len(s5) {
                            Option::None => Option::None,
                            Option::Some((ln, s6)) => match expect(s6, ",\"title\":"@) {
                                Option::None => Option::None,
                                Option::Some(s7) => match parse_opt_str(s7) {
                                    Option::None => Option::None,
                                    Option::Some((ti, s8)) => match expect(s8, "}"@) {
                                        Option::None => Option::None,
                                        Option::Some(s9) => Option::Some(
                                            (
                                                MediaEnclosureV {
                                                    url,
                                                    media_type: mt,
                                                    length: ln,
                                                    title: ti,
                                                },
                                                s9,
                                            ),
                                        ),
                                    },
                                },
                            },
                        },
                    },
                },
            },
        },
    }
}

/// A run of enclosures up to and over the closing bracket.
pub open spec fn parse_encls(s: Seq<char>) -> Option<(Seq<MediaEnclosureV>, Seq<char>)>
    decreases s.len(),
{
    match expect(s, "]"@) {
        Option::Some(r) => Option::Some((Seq::<MediaEnclosureV>::empty(), r)),
        Option::None => match parse_encl(s) {
            Option::None => Option::None,
            Option::Some((e, r)) => match expect(r, ","@) {
                Option::Some(r2) => if r2.len() < s.len() {
                    match parse_encls(r2) {
                        Option::None => Option::None,
                        Option::Some((es, r3)) => Option::Some((seq![e] + es, r3)),
                    }
                } else {
                    Option::None
                },
                Option::None => match expect(r, "]"@) {
                    Option::Some(r2) => Option::Some((seq![e], r2)),
                    Option::None => Option::None,
                },
            },
        },
    }
}

/// One item object.
pub open spec fn parse_item(s: Seq<char>) -> Option<(FeedItemV, Seq<char>)> {
    match expect(s, "{\"id\":"@) {
        Option::None => Option::None,
        Option::Some(s1) => match parse_str(s1) {
            Option::None => Option::None,
            Option::Some((id, s2)) => match expect(s2, ",\"feed_url\":"@) {
                Option::None => Option::None,
                Option::Some(s3) => match parse_str(s3) {
                    Option::None => Option::None,
                    Option::Some((fu, s4)) => match expect(s4, ",\"title\":"@) {
                        Option::None => Option::None,
                        Option::Some(s5) => match parse_str(s5) {
                            Option::None => Option::None,
                            Option::Some((ti, s6)) => match expect(s6, ",\"link\":"@) {
                                Option::None => Option::None,
                                Option::Some(s7) => match parse_opt_str(s7) {
                                    Option::None => Option::None,
                                    Option::Some((li, s8)) => match expect(
                                        s8,
                                        ",\"published\":"@,
                                    ) {
                                        Option::None => Option::None,
                                        Option::Some(s9) => match parse_opt_ts(s9) {
                                            Option::None => Option::None,
                                            Option::Some((pu, s10)) => match expect(
                                                s10,
                                                ",\"summary\":"@,
                                            ) {
                                                Option::None => Option::None,
                                                Option::Some(s11) => match parse_opt_str(s11) {
                                                    Option::None => Option::None,
                                                    Option::Some((su, s12)) => match expect(
                                                        s12,
                                                        ",\"content\":"@,
                                                    ) {
                                                        Option::None => Option::None,
                                                        Option::Some(s13) => match parse_opt_str(
                                                            s13,
                                                        ) {
                                                            Option::None => Option::None,
                                                            Option::Some((co, s14)) => match expect(
                                                                s14,
                                                                ",\"enclosures\":["@,
                                                            ) {
                                                                Option::None => Option::None,
                                                                Option::Some(s15) => match parse_encls(
                                                                    s15,
                                                                ) {
                                                                    Option::None => Option::None,
                                                                    Option::Some(
                                                                        (es, s16),
                                                                    ) => match expect(s16, "}"@) {
                                                                        Option::None
                                                                            => Option::None,
                                                                        Option::Some(
                                                                            s17,
                                                                        ) => Option::Some(
                                                                            (
                                                                                FeedItemV {
                                                                                    id,
                                                                                    feed_url: fu,
                                                                                    title: ti,
                                                                                    link: li,
                                                                                    published: pu,
                                                                                    summary: su,
                                                                                    content: co,
                                                                                    enclosures: es,
                                                                                },
                                                                                s17,
                                                                            ),
                                                                        ),
                                                                    },
                                                                },
                                                            },
                                                        },
                                                    },
                                                },
                                            },
                                        },
                                    },
                                },
                            },
                        },
                    },
                },
            },
        },
    }
}

/// A run of items up to and over the closing bracket.
pub open spec fn parse_items(s: Seq<char>) -> Option<(Seq<FeedItemV>, Seq<char>)>
    decreases s.len(),
{
    match expect(s, "]"@) {
        Option::Some(r) => Option::Some((Seq::<FeedItemV>::empty(), r)),
        Option::None => match parse_item(s) {
            Option::None => Option::None,
            Option::Some((e, r)) => match expect(r, ","@) {
                Option::Some(r2) => if r2.len() < s.len() {
                    match parse_items(r2) {
                        Option::None => Option::None,
                        Option::Some((es, r3)) => Option::Some((seq![e] + es, r3)),
                    }
                } else {
                    Option::None
                },
                Option::None => match expect(r, "]"@) {
                    Option::Some(r2) => Option::Some((seq![e], r2)),
                    Option::None => Option::None,
                },
            },
        },
    }
}

/// One feed object.
pub open spec fn parse_feed(s: Seq<char>) -> Option<(FeedV, Seq<char>)> {
    match expect(s, "{\"url\":"@) {
        Option::None => Option::None,
        Option::Some(s1) => match parse_str(s1) {
            Option::None => Option::None,
            Option::Some((url, s2)) => match expect(s2, ",\"title\":"@) {
                Option::None => Option::None,
                Option::Some(s3) => match parse_opt_str(s3) {
                    Option::None => Option::None,
                    Option::Some((ti, s4)) => match expect(s4, ",\"description\":"@) {
                        Option::None => Option::None,
                        Option::Some(s5) => match parse_opt_str(s5) {
                            Option::None => Option::None,
                            Option::Some((de, s6)) => match expect(s6, ",\"last_fetched\":"@) {
                                Option::None => Option::None,
                                Option::Some(s7) => match parse_opt_ts(s7) {
                                    Option::None => Option::None,
                                    Option::Some((lf, s8)) => match expect(
                                        s8,
                                        ",\"created_at\":"@,
                                    ) {
                                        Option::None => Option::None,
                                        Option::Some(s9) => match parse_opt_ts(s9) {
                                            Option::None => Option::None,
                                            Option::Some((ca, s10)) => match expect(s10, "}"@) {
                                                Option::None => Option::None,
                                                Option::Some(s11) => Option::Some(
                                                    (
                                                        FeedV {
                                                            url,
                                                            title: ti,
                                                            description: de,
                                                            last_fetched: lf,
                                                            created_at: ca,
                                                        },
                                                        s11,
                                                    ),
                                                ),
                                            },
                                        },
                                    },
                                },
                            },
                        },
                    },
                },
            },
        },
    }
}

/// A run of feeds up to and over the closing bracket.
pub open spec fn parse_feeds(s: Seq<char>) -> Option<(Seq<FeedV>, Seq<char>)>
    decreases s.len(),
{
    match expect(s, "]"@) {
        Option::Some(r) => Option::Some((Seq::<FeedV>::empty(), r)),
        Option::None => match parse_feed(s) {
            Option::None => Option::None,
            Option::Some((e, r)) => match expect(r, ","@) {
                Option::Some(r2) => if r2.len() < s.len() {
                    match parse_feeds(r2) {
                        Option::None => Option::None,
                        Option::Some((es, r3)) => Option::Some((seq![e] + es, r3)),
                    }
                } else {
                    Option::None
                },
                Option::None => match expect(r, "]"@) {
                    Option::Some(r2) => Option::Some((seq![e], r2)),
                    Option::None => Option::None,
                },
            },
        },
    }
}

/// One mapping entry: key, colon, item array.
pub open spec fn parse_entry(s: Seq<char>) -> Option<(FeedItemListV, Seq<char>)> {
    match parse_str(s) {
        Option::None => Option::None,
        Option::Some((url, s1)) => match expect(s1, ":["@) {
            Option::None => Option::None,
            Option::Some(s2) => match parse_items(s2) {
                Option::None => Option::None,
                Option::Some((items, s3)) => Option::Some(
                    (FeedItemListV { feed_url: url, items }, s3),
                ),
            },
        },
    }
}

/// A run of mapping entries up to and over the closing brace.
pub open spec fn parse_entries(s: Seq<char>) -> Option<(Seq<FeedItemListV>, Seq<char>)>
    decreases s.len(),
{
    match expect(s, "}"@) {
        Option::Some(r) => Option::Some((Seq::<FeedItemListV>::empty(), r)),
        Option::None => match parse_entry(s) {
            Option::None => Option::None,
            Option::Some((e, r)) => match expect(r, ","@) {
                Option::Some(r2) => if r2.len() < s.len() {
                    match parse_entries(r2) {
                        Option::None => Option::None,
                        Option::Some((es, r3)) => Option::Some((seq![e] + es, r3)),
                    }
                } else {
                    Option::None
                },
                Option::None => match expect(r, "}"@) {
                    Option::Some(r2) => Option::Some((seq![e], r2)),
                    Option::None => Option::None,
                },
            },
        },
    }
}

/// The whole snapshot: what a text means, if anything.
pub open spec fn parse_snapshot(s: Seq<char>) -> Option<SubscriptionListV> {
    match expect(s, "{\"feeds\":["@) {
        Option::None => Option::None,
        Option::Some(s1) => match parse_feeds(s1) {
            Option::None => Option::None,
            Option::Some((feeds, s2)) => match expect(s2, ",\"items_by_feed\":{"@) {
                Option::None => Option::None,
                Option::Some(s3) => match parse_entries(s3) {
                    Option::None => Option::None,
                    Option::Some((entries, s4)) => match expect(s4, "}"@) {
                        Option::None => Option::None,
                        Option::Some(s5) => if s5.len() == 0 {
                            Option::Some(SubscriptionListV { feeds, items_by_feed: entries })
                        } else {
                            Option::None
                        },
                    },
                },
            },
        },
    }
}

// ------------------------------------------------- parsing undoes writing

/// A literal cannot match where the first characters differ.
proof fn lemma_expect_mismatch(s: Seq<char>, lit: Seq<char>)
    requires
        lit.len() > 0,
        s.len() == 0 || s[0] != lit[0],
    ensures
        expect(s, lit) is None,
{
    if expect(s, lit) is Some {
        assert(s.take(lit.len() as int) == lit);
        assert(s.take(lit.len() as int)[0] == s[0]);
    }
}

/// A written string parses back.
proof fn lemma_rt_str(x: Seq<char>, rest: Seq<char>)
    ensures
        parse_str(enc_str(x) + rest) == Option::Some((x, rest)),
{
    let s = enc_str(x) + rest;
    reveal_strlit("\"");
    assert("\""@ =~= seq!['"']);
    assert(s =~= "\""@ + (json_escaped(x) + seq!['"'] + rest));
    lemma_expect("\""@, json_escaped(x) + seq!['"'] + rest);
    lemma_parse_escaped(x, rest);
}

/// A written string never reads as `null`.
proof fn lemma_str_not_null(x: Seq<char>, rest: Seq<char>)
    ensures
        expect(enc_str(x) + rest, "null"@) is None,
{
    let s = enc_str(x) + rest;
    reveal_strlit("null");
    assert(s[0] == '"');
    lemma_expect_mismatch(s, "null"@);
}

/// A written optional string parses back.
proof fn lemma_rt_opt_str(o: Option<Seq<char>>, rest: Seq<char>)
    ensures
        parse_opt_str(enc_opt_str(o) + rest) == Option::Some((o, rest)),
{
    match o {
        Option::None => {
            lemma_expect("null"@, rest);
        },
        Option::Some(x) => {
            lemma_str_not_null(x, rest);
            lemma_rt_str(x, rest);
        },
    }
}

/// A written optional timestamp parses back, given the formatter's
/// stated behaviour on it.
proof fn lemma_rt_opt_ts(o: Option<i64>, rest: Seq<char>)
    requires
        opt_ts_ok(o),
    ensures
        parse_opt_ts(enc_opt_ts(o) + rest) == Option::Some((o, rest)),
{
    match o {
        Option::None => {
            lemma_expect("null"@, rest);
        },
        Option::Some(t) => {
            let rfc = rfc3339_of(t);
            let s = enc_opt_ts(o) + rest;
            reveal_strlit("null");
            reveal_strlit("\"");
            assert(s[0] == '"');
            lemma_expect_mismatch(s, "null"@);
            assert("\""@ =~= seq!['"']);
            assert(s =~= "\""@ + (rfc + seq!['"'] + rest));
            lemma_expect("\""@, rfc + seq!['"'] + rest);
            lemma_json_escaped_plain(rfc);
            lemma_parse_escaped(rfc, rest);
            assert(json_escaped(rfc) + seq!['"'] + rest =~= rfc + seq!['"'] + rest);
        },
    }
}

/// A written optional byte count parses back, when what follows is not
/// a digit.
proof fn lemma_rt_opt_len(o: Option<u64>, rest: Seq<char>)
    requires
        rest.len() > 0,
        crate::jsontext::dec_val(rest[0]) < 0,
    ensures
        parse_opt_len(enc_opt_len(o) + rest) == Option::Some((o, rest)),
{
    match o {
        Option::None => {
            lemma_expect("null"@, rest);
        },
        Option::Some(n) => {
            let s = enc_opt_len(o) + rest;
            crate::jsontext::lemma_dec_digits_first(n as nat);
            reveal_strlit("null");
            assert(s[0] == dec_digits(n as nat)[0]);
            lemma_expect_mismatch(s, "null"@);
            lemma_parse_nat(n as nat, rest);
        },
    }
}

/// A written enclosure parses back.
#[verifier::rlimit(100)]
#[verifier::spinoff_prover]
proof fn lemma_rt_encl(e: MediaEnclosureV, rest: Seq<char>)
    ensures
        parse_encl(enc_encl(e) + rest) == Option::Some((e, rest)),
{
    let r4 = "}"@ + rest;
    let r3 = ",\"title\":"@ + (enc_opt_str(e.title) + r4);
    let r2 = ",\"length\":"@ + (enc_opt_len(e.length) + r3);
    let r1 = ",\"media_type\":"@ + (enc_opt_str(e.media_type) + r2);
    let s = enc_encl(e) + rest;
    assert(s =~= "{\"url\":"@ + (enc_str(e.url) + r1));
    lemma_expect("{\"url\":"@, enc_str(e.url) + r1);
    lemma_rt_str(e.url, r1);
    lemma_expect(",\"media_type\":"@, enc_opt_str(e.media_type) + r2);
    lemma_rt_opt_str(e.media_type, r2);
    lemma_expect(",\"length\":"@, enc_opt_len(e.length) + r3);
    reveal_strlit(",\"title\":");
    assert(r3[0] == ',');
    lemma_rt_opt_len(e.length, r3);
    lemma_expect(",\"title\":"@, enc_opt_str(e.title) + r4);
    lemma_rt_opt_str(e.title, r4);
    lemma_expect("}"@, rest);
    assert(e == MediaEnclosureV {
        url: e.url,
        media_type: e.media_type,
        length: e.length,
        title: e.title,
    });
}

/// A written enclosure run parses back.
#[verifier::rlimit(100)]
#[verifier::spinoff_prover]
proof fn lemma_rt_encls(s: Seq<MediaEnclosureV>, rest: Seq<char>)
    ensures
        parse_encls(enc_encls(s) + ("]"@ + rest)) == Option::Some((s, rest)),
    decreases s.len(),
{
    let text = enc_encls(s) + ("]"@ + rest);
    reveal_strlit("]");
    reveal_strlit(",");
    reveal_strlit("{\"url\":");
    if s.len() == 0 {
        assert(text =~= "]"@ + rest);
        lemma_expect("]"@, rest);
        assert(parse_encls(text) == Option::Some((Seq::<MediaEnclosureV>::empty(), rest)));
    } else if s.len() == 1 {
        assert(text =~= enc_encl(s[0]) + ("]"@ + rest));
        assert(text[0] == '{');
        lemma_expect_mismatch(text, "]"@);
        lemma_rt_encl(s[0], "]"@ + rest);
        let r = "]"@ + rest;
        assert(r[0] == ']');
        lemma_expect_mismatch(r, ","@);
        lemma_expect("]"@, rest);
        assert(seq![s[0]] =~= s);
    } else {
        let s1 = s.drop_first();
        let t = enc_encls(s1) + ("]"@ + rest);
        assert(text =~= enc_encl(s[0]) + (","@ + t));
        assert(text[0] == '{');
        lemma_expect_mismatch(text, "]"@);
        lemma_rt_encl(s[0], ","@ + t);
        lemma_expect(","@, t);
        assert(enc_encl(s[0]).len() >= 1);
        assert(t.len() < text.len());
        lemma_rt_encls(s1, rest);
        assert(seq![s[0]] + s1 =~= s);
    }
}

/// The written item text, regrouped for the parser's walk.
#[verifier::rlimit(100)]
#[verifier::spinoff_prover]
proof fn lemma_item_shape(i: FeedItemV, rest: Seq<char>)
    ensures
        enc_item(i) + rest == "{\"id\":"@ + (enc_str(i.id) + (",\"feed_url\":"@ + (enc_str(
            i.feed_url,
        ) + (",\"title\":"@ + (enc_str(i.title) + (",\"link\":"@ + (enc_opt_str(i.link)
            + (",\"published\":"@ + (enc_opt_ts(i.published) + (",\"summary\":"@
            + (enc_opt_str(i.summary) + (",\"content\":"@ + (enc_opt_str(i.content)
            + (",\"enclosures\":["@ + (enc_encls(i.enclosures) + ("]"@ + ("}"@
            + rest))))))))))))))))),
{
    let p1 = "{\"id\":"@ + enc_str(i.id);
    let p2 = p1 + ",\"feed_url\":"@;
    let p3 = p2 + enc_str(i.feed_url);
    let p4 = p3 + ",\"title\":"@;
    let p5 = p4 + enc_str(i.title);
    let p6 = p5 + ",\"link\":"@;
    let p7 = p6 + enc_opt_str(i.link);
    let p8 = p7 + ",\"published\":"@;
    let p9 = p8 + enc_opt_ts(i.published);
    let p10 = p9 + ",\"summary\":"@;
    let p11 = p10 + enc_opt_str(i.summary);
    let p12 = p11 + ",\"content\":"@;
    let p13 = p12 + enc_opt_str(i.content);
    let p14 = p13 + ",\"enclosures\":["@;
    let p15 = p14 + enc_encls(i.enclosures);
    let p16 = p15 + "]"@;
    let t17 = "}"@ + rest;
    let t16 = "]"@ + t17;
    let t15 = enc_encls(i.enclosures) + t16;
    let t14 = ",\"enclosures\":["@ + t15;
    let t13 = enc_opt_str(i.content) + t14;
    let t12 = ",\"content\":"@ + t13;
    let t11 = enc_opt_str(i.summary) + t12;
    let t10 = ",\"summary\":"@ + t11;
    let t9 = enc_opt_ts(i.published) + t10;
    let t8 = ",\"published\":"@ + t9;
    let t7 = enc_opt_str(i.link) + t8;
    let t6 = ",\"link\":"@ + t7;
    let t5 = enc_str(i.title) + t6;
    let t4 = ",\"title\":"@ + t5;
    let t3 = enc_str(i.feed_url) + t4;
    let t2 = ",\"feed_url\":"@ + t3;
    let t1 = enc_str(i.id) + t2;
    assert(enc_item(i) == p16 + "}"@);
    crate::jsontext::lemma_assoc(p16, "}"@, rest);
    crate::jsontext::lemma_assoc(p15, "]"@, t17);
    crate::jsontext::lemma_assoc(p14, enc_encls(i.enclosures), t16);
    crate::jsontext::lemma_assoc(p13, ",\"enclosures\":["@, t15);
    crate::jsontext::lemma_assoc(p12, enc_opt_str(i.content), t14);
    crate::jsontext::lemma_assoc(p11, ",\"content\":"@, t13);
    crate::jsontext::lemma_assoc(p10, enc_opt_str(i.summary), t12);
    crate::jsontext::lemma_assoc(p9, ",\"summary\":"@, t11);
    crate::jsontext::lemma_assoc(p8, enc_opt_ts(i.published), t10);
    crate::jsontext::lemma_assoc(p7, ",\"published\":"@, t9);
    crate::jsontext::lemma_assoc(p6, enc_opt_str(i.link), t8);
    crate::jsontext::lemma_assoc(p5, ",\"link\":"@, t7);
    crate::jsontext::lemma_assoc(p4, enc_str(i.title), t6);
    crate::jsontext::lemma_assoc(p3, ",\"title\":"@, t5);
    crate::jsontext::lemma_assoc(p2, enc_str(i.feed_url), t4);
    crate::jsontext::lemma_assoc(p1, ",\"feed_url\":"@, t3);
    crate::jsontext::lemma_assoc("{\"id\":"@, enc_str(i.id), t2);
    assert(enc_item(i) + rest == "{\"id\":"@ + t1);
}

/// A written item parses back, given the formatter's stated behaviour
/// on its timestamp.
#[verifier::rlimit(100)]
#[verifier::spinoff_prover]
proof fn lemma_rt_item(i: FeedItemV, rest: Seq<char>)
    requires
        item_ok(i),
    ensures
        parse_item(enc_item(i) + rest) == Option::Some((i, rest)),
{
    let r9 = "}"@ + rest;
    let r8 = "]"@ + r9;
    let r7 = ",\"enclosures\":["@ + (enc_encls(i.enclosures) + r8);
    let r6 = ",\"content\":"@ + (enc_opt_str(i.content) + r7);
    let r5 = ",\"summary\":"@ + (enc_opt_str(i.summary) + r6);
    let r4 = ",\"published\":"@ + (enc_opt_ts(i.published) + r5);
    let r3 = ",\"link\":"@ + (enc_opt_str(i.link) + r4);
    let r2 = ",\"title\":"@ + (enc_str(i.title) + r3);
    let r1 = ",\"feed_url\":"@ + (enc_str(i.feed_url) + r2);
    let s = enc_item(i) + rest;
    lemma_item_shape(i, rest);
    assert(s == "{\"id\":"@ + (enc_str(i.id) + r1));
    lemma_expect("{\"id\":"@, enc_str(i.id) + r1);
    lemma_rt_str(i.id, r1);
    lemma_expect(",\"feed_url\":"@, enc_str(i.feed_url) + r2);
    lemma_rt_str(i.feed_url, r2);
    lemma_expect(",\"title\":"@, enc_str(i.title) + r3);
    lemma_rt_str(i.title, r3);
    lemma_expect(",\"link\":"@, enc_opt_str(i.link) + r4);
    lemma_rt_opt_str(i.link, r4);
    lemma_expect(",\"published\":"@, enc_opt_ts(i.published) + r5);
    lemma_rt_opt_ts(i.published, r5);
    lemma_expect(",\"summary\":"@, enc_opt_str(i.summary) + r6);
    lemma_rt_opt_str(i.summary, r6);
    lemma_expect(",\"content\":"@, enc_opt_str(i.content) + r7);
    lemma_rt_opt_str(i.content, r7);
    lemma_expect(",\"enclosures\":["@, enc_encls(i.enclosures) + r8);
    assert(enc_encls(i.enclosures) + r8 =~= enc_encls(i.enclosures) + ("]"@ + r9));
    lemma_rt_encls(i.enclosures, r9);
    lemma_expect("}"@, rest);
    assert(i == FeedItemV {
        id: i.id,
        feed_url: i.feed_url,
        title: i.title,
        link: i.link,
        published: i.published,
        summary: i.summary,
        content: i.content,
        enclosures: i.enclosures,
    });
}

/// A written item run parses back.
#[verifier::rlimit(100)]
#[verifier::spinoff_prover]
proof fn lemma_rt_items(s: Seq<FeedItemV>, rest: Seq<char>)
    requires
        forall|k: int| 0 <= k < s.len() ==> item_ok(#[trigger] s[k]),
    ensures
        parse_items(enc_items(s) + ("]"@ + rest)) == Option::Some((s, rest)),
    decreases s.len(),
{
    let text = enc_items(s) + ("]"@ + rest);
    reveal_strlit("]");
    reveal_strlit(",");
    reveal_strlit("{\"id\":");
    if s.len() == 0 {
        assert(text =~= "]"@ + rest);
        lemma_expect("]"@, rest);
        assert(parse_items(text) == Option::Some((Seq::<FeedItemV>::empty(), rest)));
    } else if s.len() == 1 {
        assert(text =~= enc_item(s[0]) + ("]"@ + rest));
        assert(text[0] == '{');
        lemma_expect_mismatch(text, "]"@);
        lemma_rt_item(s[0], "]"@ + rest);
        let r = "]"@ + rest;
        assert(r[0] == ']');
        lemma_expect_mismatch(r, ","@);
        lemma_expect("]"@, rest);
        assert(seq![s[0]] =~= s);
    } else {
        let s1 = s.drop_first();
        assert(forall|k: int| 0 <= k < s1.len() ==> #[trigger] s1[k] == s[k + 1]);
        let t = enc_items(s1) + ("]"@ + rest);
        assert(text =~= enc_item(s[0]) + (","@ + t));
        assert(text[0] == '{');
        lemma_expect_mismatch(text, "]"@);
        lemma_rt_item(s[0], ","@ + t);
        lemma_expect(","@, t);
        assert(enc_item(s[0]).len() >= 1);
        assert(t.len() < text.len());
        lemma_rt_items(s1, rest);
        assert(seq![s[0]] + s1 =~= s);
    }
}

/// A written feed parses back, given the formatter's stated behaviour
/// on its timestamps.
#[verifier::rlimit(100)]
#[verifier::spinoff_prover]
proof fn lemma_rt_feed(f: FeedV, rest: Seq<char>)
    requires
        feed_ok(f),
    ensures
        parse_feed(enc_feed(f) + rest) == Option::Some((f, rest)),
{
    let r5 = "}"@ + rest;
    let r4 = ",\"created_at\":"@ + (enc_opt_ts(f.created_at) + r5);
    let r3 = ",\"last_fetched\":"@ + (enc_opt_ts(f.last_fetched) + r4);
    let r2 = ",\"description\":"@ + (enc_opt_str(f.description) + r3);
    let r1 = ",\"title\":"@ + (enc_opt_str(f.title) + r2);
    let s = enc_feed(f) + rest;
    assert(s =~= "{\"url\":"@ + (enc_str(f.url) + r1));
    lemma_expect("{\"url\":"@, enc_str(f.url) + r1);
    lemma_rt_str(f.url, r1);
    lemma_expect(",\"title\":"@, enc_opt_str(f.title) + r2);
    lemma_rt_opt_str(f.title, r2);
    lemma_expect(",\"description\":"@, enc_opt_str(f.description) + r3);
    lemma_rt_opt_str(f.description, r3);
    lemma_expect(",\"last_fetched\":"@, enc_opt_ts(f.last_fetched) + r4);
    lemma_rt_opt_ts(f.last_fetched, r4);
    lemma_expect(",\"created_at\":"@, enc_opt_ts(f.created_at) + r5);
    lemma_rt_opt_ts(f.created_at, r5);
    lemma_expect("}"@, rest);
    assert(f == FeedV {
        url: f.url,
        title: f.title,
        description: f.description,
        last_fetched: f.last_fetched,
        created_at: f.created_at,
    });
}

/// A written feed run parses back.
#[verifier::rlimit(100)]
#[verifier::spinoff_prover]
proof fn lemma_rt_feeds(s: Seq<FeedV>, rest: Seq<char>)
    requires
        forall|k: int| 0 <= k < s.len() ==> feed_ok(#[trigger] s[k]),
    ensures
        parse_feeds(enc_feeds(s) + ("]"@ + rest)) == Option::Some((s, rest)),
    decreases s.len(),
{
    let text = enc_feeds(s) + ("]"@ + rest);
    reveal_strlit("]");
    reveal_strlit(",");
    reveal_strlit("{\"url\":");
    if s.len() == 0 {
        assert(text =~= "]"@ + rest);
        lemma_expect("]"@, rest);
        assert(parse_feeds(text) == Option::Some((Seq::<FeedV>::empty(), rest)));
    } else if s.len() == 1 {
        assert(text =~= enc_feed(s[0]) + ("]"@ + rest));
        assert(text[0] == '{');
        lemma_expect_mismatch(text, "]"@);
        lemma_rt_feed(s[0], "]"@ + rest);
        let r = "]"@ + rest;
        assert(r[0] == ']');
        lemma_expect_mismatch(r, ","@);
        lemma_expect("]"@, rest);
        assert(seq![s[0]] =~= s);
    } else {
        let s1 = s.drop_first();
        assert(forall|k: int| 0 <= k < s1.len() ==> #[trigger] s1[k] == s[k + 1]);
        let t = enc_feeds(s1) + ("]"@ + rest);
        assert(text =~= enc_feed(s[0]) + (","@ + t));
        assert(text[0] == '{');
        lemma_expect_mismatch(text, "]"@);
        lemma_rt_feed(s[0], ","@ + t);
        lemma_expect(","@, t);
        assert(enc_feed(s[0]).len() >= 1);
        assert(t.len() < text.len());
        lemma_rt_feeds(s1, rest);
        assert(seq![s[0]] + s1 =~= s);
    }
}

/// A written mapping entry parses back.
#[verifier::rlimit(100)]
#[verifier::spinoff_prover]
proof fn lemma_rt_entry(e: FeedItemListV, rest: Seq<char>)
    requires
        forall|j: int| 0 <= j < e.items.len() ==> item_ok(#[trigger] e.items[j]),
    ensures
        parse_entry(enc_entry(e) + rest) == Option::Some((e, rest)),
{
    let r2 = "]"@ + rest;
    let r1 = ":["@ + (enc_items(e.items) + r2);
    let s = enc_entry(e) + rest;
    assert(s =~= enc_str(e.feed_url) + r1);
    lemma_rt_str(e.feed_url, r1);
    lemma_expect(":["@, enc_items(e.items) + r2);
    assert(enc_items(e.items) + r2 =~= enc_items(e.items) + ("]"@ + rest));
    lemma_rt_items(e.items, rest);
    assert(e == FeedItemListV { feed_url: e.feed_url, items: e.items });
}

/// The written mapping text, regrouped for the parser's walk.
#[verifier::rlimit(100)]
#[verifier::spinoff_prover]
proof fn lemma_entries_shape(s: Seq<FeedItemListV>, rest: Seq<char>)
    requires
        s.len() >= 1,
    ensures
        s.len() == 1 ==> enc_entries(s) + ("}"@ + rest) == enc_entry(s[0]) + ("}"@ + rest),
        s.len() > 1 ==> enc_entries(s) + ("}"@ + rest) == enc_entry(s[0]) + (","@ + (enc_entries(
            s.drop_first(),
        ) + ("}"@ + rest))),
{
    if s.len() == 1 {
        assert(enc_entries(s) + ("}"@ + rest) =~= enc_entry(s[0]) + ("}"@ + rest));
    } else {
        assert(enc_entries(s) + ("}"@ + rest) =~= enc_entry(s[0]) + (","@ + (enc_entries(
            s.drop_first(),
        ) + ("}"@ + rest))));
    }
}

/// A written mapping parses back.
#[verifier::rlimit(100)]
#[verifier::spinoff_prover]
proof fn lemma_rt_entries(s: Seq<FeedItemListV>, rest: Seq<char>)
    requires
        forall|k: int, j: int|
            0 <= k < s.len() && 0 <= j < s[k].items.len() ==> item_ok(#[trigger] s[k].items[j]),
    ensures
        parse_entries(enc_entries(s) + ("}"@ + rest)) == Option::Some((s, rest)),
    decreases s.len(),
{
    let text = enc_entries(s) + ("}"@ + rest);
    reveal_strlit("}");
    reveal_strlit(",");
    reveal_strlit("\"");
    if s.len() == 0 {
        assert(text =~= "}"@ + rest);
        lemma_expect("}"@, rest);
        assert(parse_entries(text) == Option::Some((Seq::<FeedItemListV>::empty(), rest)));
    } else if s.len() == 1 {
        lemma_entries_shape(s, rest);
        assert(text[0] == '"');
        lemma_expect_mismatch(text, "}"@);
        lemma_rt_entry(s[0], "}"@ + rest);
        let r = "}"@ + rest;
        assert(r[0] == '}');
        lemma_expect_mismatch(r, ","@);
        lemma_expect("}"@, rest);
        assert(seq![s[0]] =~= s);
    } else {
        let s1 = s.drop_first();
        assert(forall|k: int| 0 <= k < s1.len() ==> #[trigger] s1[k] == s[k + 1]);
        let t = enc_entries(s1) + ("}"@ + rest);
        lemma_entries_shape(s, rest);
        assert(text[0] == '"');
        lemma_expect_mismatch(text, "}"@);
        lemma_rt_entry(s[0], ","@ + t);
        lemma_expect(","@, t);
        assert(enc_entry(s[0]).len() >= 1);
        assert(t.len() < text.len());
        lemma_rt_entries(s1, rest);
        assert(seq![s[0]] + s1 =~= s);
    }
}

/// Round trip: a snapshot written for any subscription list parses
/// back to exactly that list, field for field. The premise is the time
/// formatter's stated behaviour on every timestamp the list holds,
/// which holds of everything the writer renders.
#[verifier::rlimit(100)]
pub proof fn lemma_snapshot_round_trip(v: SubscriptionListV)
    requires
        store_ok(v),
    ensures
        parse_snapshot(snapshot_of(v)) == Option::Some(v),
{
    let text = snapshot_of(v);
    let r3 = "}"@ + "}"@;
    let r2 = ",\"items_by_feed\":{"@ + (enc_entries(v.items_by_feed) + ("}"@ + "}"@));
    let r1 = enc_feeds(v.feeds) + ("]"@ + r2);
    assert(text =~= "{\"feeds\":["@ + r1);
    lemma_expect("{\"feeds\":["@, r1);
    lemma_rt_feeds(v.feeds, r2);
    lemma_expect(",\"items_by_feed\":{"@, enc_entries(v.items_by_feed) + ("}"@ + "}"@));
    lemma_rt_entries(v.items_by_feed, "}"@);
    lemma_expect("}"@, Seq::<char>::empty());
    assert("}"@ + Seq::<char>::empty() =~= "}"@);
    assert(v == SubscriptionListV { feeds: v.feeds, items_by_feed: v.items_by_feed });
}

// ------------------------------------------------------------ exec parser

/// A quoted string value at `pos`.
fn e_str(v: &Vec<char>, pos: usize) -> (r: Option<(String, usize)>)
    requires
        pos <= v@.len(),
    ensures
        match r {
            Option::Some(t) => pos <= t.1 <= v@.len() && parse_str(v@.skip(pos as int))
                == Option::Some((t.0@, v@.skip(t.1 as int))),
            Option::None => parse_str(v@.skip(pos as int)) is None,
        },
{
    match p_lit(v, pos, "\"") {
        Option::None => Option::None,
        Option::Some(p1) => match p_string(v, p1) {
            Option::None => Option::None,
            Option::Some((cs, p2)) => Option::Some((chars_to_string(&cs), p2)),
        },
    }
}

/// `null` or a string, at `pos`.
fn e_opt_str(v: &Vec<char>, pos: usize) -> (r: Option<(Option<String>, usize)>)
    requires
        pos <= v@.len(),
    ensures
        match r {
            Option::Some(t) => pos <= t.1 <= v@.len() && parse_opt_str(v@.skip(pos as int))
                == Option::Some((t.0.deep_view(), v@.skip(t.1 as int))),
            Option::None => parse_opt_str(v@.skip(pos as int)) is None,
        },
{
    match p_lit(v, pos, "null") {
        Option::Some(p1) => Option::Some((Option::None, p1)),
        Option::None => match e_str(v, pos) {
            Option::None => Option::None,
            Option::Some((x, p1)) => Option::Some((Option::Some(x), p1)),
        },
    }
}

/// `null` or a quoted timestamp, at `pos`.
fn e_opt_ts(v: &Vec<char>, pos: usize) -> (r: Option<(Option<i64>, usize)>)
    requires
        pos <= v@.len(),
    ensures
        match r {
            Option::Some(t) => pos <= t.1 <= v@.len() && parse_opt_ts(v@.skip(pos as int))
                == Option::Some((t.0, v@.skip(t.1 as int))),
            Option::None => parse_opt_ts(v@.skip(pos as int)) is None,
        },
{
    match p_lit(v, pos, "null") {
        Option::Some(p1) => Option::Some((Option::None, p1)),
        Option::None => match e_str(v, pos) {
            Option::None => Option::None,
            Option::Some((cs, p1)) => match parse_rfc3339(cs.as_str()) {
                Option::None => Option::None,
                Option::Some(t) => Option::Some((Option::Some(t), p1)),
            },
        },
    }
}

/// `null` or a byte count, at `pos`.
fn e_opt_len(v: &Vec<char>, pos: usize) -> (r: Option<(Option<u64>, usize)>)
    requires
        pos <= v@.len(),
    ensures
        match r {
            Option::Some(t) => pos <= t.1 <= v@.len() && parse_opt_len(v@.skip(pos as int))
                == Option::Some((t.0, v@.skip(t.1 as int))),
            Option::None => parse_opt_len(v@.skip(pos as int)) is None,
        },
{
    match p_lit(v, pos, "null") {
        Option::Some(p1) => Option::Some((Option::None, p1)),
        Option::None => match p_u64(v, pos) {
            Option::None => Option::None,
            Option::Some((n, p1)) => Option::Some((Option::Some(n), p1)),
        },
    }
}

/// One enclosure object at `pos`.
fn e_encl(v: &Vec<char>, pos: usize) -> (r: Option<(MediaEnclosure, usize)>)
    requires
        pos <= v@.len(),
    ensures
        match r {
            Option::Some(t) => pos <= t.1 <= v@.len() && parse_encl(v@.skip(pos as int))
                == Option::Some((t.0.deep_view(), v@.skip(t.1 as int))),
            Option::None => parse_encl(v@.skip(pos as int)) is None,
        },
{
    match p_lit(v, pos, "{\"url\":") {
        Option::None => Option::None,
        Option::Some(s1) => match e_str(v, s1) {
            Option::None => Option::None,
            Option::Some((url, s2)) => match p_lit(v, s2, ",\"media_type\":") {
                Option::None => Option::None,
                Option::Some(s3) => match e_opt_str(v, s3) {
                    Option::None => Option::None,
                    Option::Some((mt, s4)) => match p_lit(v, s4, ",\"length\":") {
                        Option::None => Option::None,
                        Option::Some(s5) => match e_opt_len(v, s5) {
                            Option::None => Option::None,
                            Option::Some((ln, s6)) => match p_lit(v, s6, ",\"title\":") {
                                Option::None => Option::None,
                                Option::Some(s7) => match e_opt_str(v, s7) {
                                    Option::None => Option::None,
                                    Option::Some((ti, s8)) => match p_lit(v, s8, "}") {
                                        Option::None => Option::None,
                                        Option::Some(s9) => Option::Some(
                                            (
                                                MediaEnclosure {
                                                    url,
                                                    media_type: mt,
                                                    length: ln,
                                                    title: ti,
                                                },
                                                s9,
                                            ),
                                        ),
                                    },
                                },
                            },
                        },
                    },
                },
            },
        },
    }
}

/// A run of enclosures at `pos`, over the closing bracket.
fn e_encls(v: &Vec<char>, pos: usize) -> (r: Option<(Vec<MediaEnclosure>, usize)>)
    requires
        pos <= v@.len(),
    ensures
        match r {
            Option::Some(t) => pos <= t.1 <= v@.len() && parse_encls(v@.skip(pos as int))
                == Option::Some((t.0.deep_view(), v@.skip(t.1 as int))),
            Option::None => parse_encls(v@.skip(pos as int)) is None,
        },
    decreases v@.len() - pos,
{
    match p_lit(v, pos, "]") {
        Option::Some(p1) => {
            let es: Vec<MediaEnclosure> = Vec::new();
            assert(es.deep_view() =~= Seq::<MediaEnclosureV>::empty());
            Option::Some((es, p1))
        },
        Option::None => match e_encl(v, pos) {
            Option::None => Option::None,
            Option::Some((e, p1)) => match p_lit(v, p1, ",") {
                Option::Some(p2) => {
                    if p2 > pos {
                        match e_encls(v, p2) {
                            Option::None => Option::None,
                            Option::Some((es, p3)) => {
                                let mut out: Vec<MediaEnclosure> = Vec::new();
                                let ghost edv = e.deep_view();
                                out.push(e);
                                let mut es2 = es;
                                let ghost esdv = es2.deep_view();
                                let ghost pre = out;
                                let ghost es_snap = es2;
                                out.append(&mut es2);
                                proof {
                                    lemma_deep_view_concat(pre, es_snap, out);
                                    assert(pre.deep_view() =~= seq![edv]);
                                    assert(out.deep_view() =~= seq![edv] + esdv);
                                }
                                Option::Some((out, p3))
                            },
                        }
                    } else {
                        Option::None
                    }
                },
                Option::None => match p_lit(v, p1, "]") {
                    Option::Some(p2) => {
                        let mut out: Vec<MediaEnclosure> = Vec::new();
                        let ghost edv = e.deep_view();
                        out.push(e);
                        proof {
                            assert(out.deep_view() =~= seq![edv]);
                        }
                        Option::Some((out, p2))
                    },
                    Option::None => Option::None,
                },
            },
        },
    }
}

/// One item object at `pos`.
fn e_item(v: &Vec<char>, pos: usize) -> (r: Option<(FeedItem, usize)>)
    requires
        pos <= v@.len(),
    ensures
        match r {
            Option::Some(t) => pos <= t.1 <= v@.len() && parse_item(v@.skip(pos as int))
                == Option::Some((t.0.deep_view(), v@.skip(t.1 as int))),
            Option::None => parse_item(v@.skip(pos as int)) is None,
        },
{
    match p_lit(v, pos, "{\"id\":") {
        Option::None => Option::None,
        Option::Some(s1) => match e_str(v, s1) {
            Option::None => Option::None,
            Option::Some((id, s2)) => match p_lit(v, s2, ",\"feed_url\":") {
                Option::None => Option::None,
                Option::Some(s3) => match e_str(v, s3) {
                    Option::None => Option::None,
                    Option::Some((fu, s4)) => match p_lit(v, s4, ",\"title\":") {
                        Option::None => Option::None,
                        Option::Some(s5) => match e_str(v, s5) {
                            Option::None => Option::None,
                            Option::Some((ti, s6)) => match p_lit(v, s6, ",\"link\":") {
                                Option::None => Option::None,
                                Option::Some(s7) => match e_opt_str(v, s7) {
                                    Option::None => Option::None,
                                    Option::Some((li, s8)) => match p_lit(
                                        v,
                                        s8,
                                        ",\"published\":",
                                    ) {
                                        Option::None => Option::None,
                                        Option::Some(s9) => match e_opt_ts(v, s9) {
                                            Option::None => Option::None,
                                            Option::Some((pu, s10)) => match p_lit(
                                                v,
                                                s10,
                                                ",\"summary\":",
                                            ) {
                                                Option::None => Option::None,
                                                Option::Some(s11) => match e_opt_str(v, s11) {
                                                    Option::None => Option::None,
                                                    Option::Some((su, s12)) => match p_lit(
                                                        v,
                                                        s12,
                                                        ",\"content\":",
                                                    ) {
                                                        Option::None => Option::None,
                                                        Option::Some(s13) => match e_opt_str(
                                                            v,
                                                            s13,
                                                        ) {
                                                            Option::None => Option::None,
                                                            Option::Some((co, s14)) => match p_lit(
                                                                v,
                                                                s14,
                                                                ",\"enclosures\":[",
                                                            ) {
                                                                Option::None => Option::None,
                                                                Option::Some(s15) => match e_encls(
                                                                    v,
                                                                    s15,
                                                                ) {
                                                                    Option::None => Option::None,
                                                                    Option::Some(
                                                                        (es, s16),
                                                                    ) => match p_lit(v, s16, "}") {
                                                                        Option::None
                                                                            => Option::None,
                                                                        Option::Some(
                                                                            s17,
                                                                        ) => Option::Some(
                                                                            (
                                                                                FeedItem {
                                                                                    id,
                                                                                    feed_url: fu,
                                                                                    title: ti,
                                                                                    link: li,
                                                                                    published: pu,
                                                                                    summary: su,
                                                                                    content: co,
                                                                                    enclosures: es,
                                                                                },
                                                                                s17,
                                                                            ),
                                                                        ),
                                                                    },
                                                                },
                                                            },
                                                        },
                                                    },
                                                },
                                            },
                                        },
                                    },
                                },
                            },
                        },
                    },
                },
            },
        },
    }
}

/// A run of items at `pos`, over the closing bracket.
fn e_items(v: &Vec<char>, pos: usize) -> (r: Option<(Vec<FeedItem>, usize)>)
    requires
        pos <= v@.len(),
    ensures
        match r {
            Option::Some(t) => pos <= t.1 <= v@.len() && parse_items(v@.skip(pos as int))
                == Option::Some((t.0.deep_view(), v@.skip(t.1 as int))),
            Option::None => parse_items(v@.skip(pos as int)) is None,
        },
    decreases v@.len() - pos,
{
    match p_lit(v, pos, "]") {
        Option::Some(p1) => {
            let es: Vec<FeedItem> = Vec::new();
            assert(es.deep_view() =~= Seq::<FeedItemV>::empty());
            Option::Some((es, p1))
        },
        Option::None => match e_item(v, pos) {
            Option::None => Option::None,
            Option::Some((e, p1)) => match p_lit(v, p1, ",") {
                Option::Some(p2) => {
                    if p2 > pos {
                        match e_items(v, p2) {
                            Option::None => Option::None,
                            Option::Some((es, p3)) => {
                                let mut out: Vec<FeedItem> = Vec::new();
                                let ghost edv = e.deep_view();
                                out.push(e);
                                let mut es2 = es;
                                let ghost esdv = es2.deep_view();
                                let ghost pre = out;
                                let ghost es_snap = es2;
                                out.append(&mut es2);
                                proof {
                                    lemma_deep_view_concat(pre, es_snap, out);
                                    assert(pre.deep_view() =~= seq![edv]);
                                    assert(out.deep_view() =~= seq![edv] + esdv);
                                }
                                Option::Some((out, p3))
                            },
                        }
                    } else {
                        Option::None
                    }
                },
                Option::None => match p_lit(v, p1, "]") {
                    Option::Some(p2) => {
                        let mut out: Vec<FeedItem> = Vec::new();
                        let ghost edv = e.deep_view();
                        out.push(e);
                        proof {
                            assert(out.deep_view() =~= seq![edv]);
                        }
                        Option::Some((out, p2))
                    },
                    Option::None => Option::None,
                },
            },
        },
    }
}

/// One feed object at `pos`.
fn e_feed(v: &Vec<char>, pos: usize) -> (r: Option<(Feed, usize)>)
    requires
        pos <= v@.len(),
    ensures
        match r {
            Option::Some(t) => pos <= t.1 <= v@.len() && parse_feed(v@.skip(pos as int))
                == Option::Some((t.0.deep_view(), v@.skip(t.1 as int))),
            Option::None => parse_feed(v@.skip(pos as int)) is None,
        },
{
    match p_lit(v, pos, "{\"url\":") {
        Option::None => Option::None,
        Option::Some(s1) => match e_str(v, s1) {
            Option::None => Option::None,
            Option::Some((url, s2)) => match p_lit(v, s2, ",\"title\":") {
                Option::None => Option::None,
                Option::Some(s3) => match e_opt_str(v, s3) {
                    Option::None => Option::None,
                    Option::Some((ti, s4)) => match p_lit(v, s4, ",\"description\":") {
                        Option::None => Option::None,
                        Option::Some(s5) => match e_opt_str(v, s5) {
                            Option::None => Option::None,
                            Option::Some((de, s6)) => match p_lit(v, s6, ",\"last_fetched\":") {
                                Option::None => Option::None,
                                Option::Some(s7) => match e_opt_ts(v, s7) {
                                    Option::None => Option::None,
                                    Option::Some((lf, s8)) => match p_lit(
                                        v,
                                        s8,
                                        ",\"created_at\":",
                                    ) {
                                        Option::None => Option::None,
                                        Option::Some(s9) => match e_opt_ts(v, s9) {
                                            Option::None => Option::None,
                                            Option::Some((ca, s10)) => match p_lit(v, s10, "}") {
                                                Option::None => Option::None,
                                                Option::Some(s11) => Option::Some(
                                                    (
                                                        Feed {
                                                            url,
                                                            title: ti,
                                                            description: de,
                                                            last_fetched: lf,
                                                            created_at: ca,
                                                        },
                                                        s11,
                                                    ),
                                                ),
                                            },
                                        },
                                    },
                                },
                            },
                        },
                    },
                },
            },
        },
    }
}

/// A run of feeds at `pos`, over the closing bracket.
fn e_feeds(v: &Vec<char>, pos: usize) -> (r: Option<(Vec<Feed>, usize)>)
    requires
        pos <= v@.len(),
    ensures
        match r {
            Option::Some(t) => pos <= t.1 <= v@.len() && parse_feeds(v@.skip(pos as int))
                == Option::Some((t.0.deep_view(), v@.skip(t.1 as int))),
            Option::None => parse_feeds(v@.skip(pos as int)) is None,
        },
    decreases v@.len() - pos,
{
    match p_lit(v, pos, "]") {
        Option::Some(p1) => {
            let es: Vec<Feed> = Vec::new();
            assert(es.deep_view() =~= Seq::<FeedV>::empty());
            Option::Some((es, p1))
        },
        Option::None => match e_feed(v, pos) {
            Option::None => Option::None,
            Option::Some((e, p1)) => match p_lit(v, p1, ",") {
                Option::Some(p2) => {
                    if p2 > pos {
                        match e_feeds(v, p2) {
                            Option::None => Option::None,
                            Option::Some((es, p3)) => {
                                let mut out: Vec<Feed> = Vec::new();
                                let ghost edv = e.deep_view();
                                out.push(e);
                                let mut es2 = es;
                                let ghost esdv = es2.deep_view();
                                let ghost pre = out;
                                let ghost es_snap = es2;
                                out.append(&mut es2);
                                proof {
                                    lemma_deep_view_concat(pre, es_snap, out);
                                    assert(pre.deep_view() =~= seq![edv]);
                                    assert(out.deep_view() =~= seq![edv] + esdv);
                                }
                                Option::Some((out, p3))
                            },
                        }
                    } else {
                        Option::None
                    }
                },
                Option::None => match p_lit(v, p1, "]") {
                    Option::Some(p2) => {
                        let mut out: Vec<Feed> = Vec::new();
                        let ghost edv = e.deep_view();
                        out.push(e);
                        proof {
                            assert(out.deep_view() =~= seq![edv]);
                        }
                        Option::Some((out, p2))
                    },
                    Option::None => Option::None,
                },
            },
        },
    }
}

/// One mapping entry at `pos`.
fn e_entry(v: &Vec<char>, pos: usize) -> (r: Option<(FeedItemList, usize)>)
    requires
        pos <= v@.len(),
    ensures
        match r {
            Option::Some(t) => pos <= t.1 <= v@.len() && parse_entry(v@.skip(pos as int))
                == Option::Some((t.0.deep_view(), v@.skip(t.1 as int))),
            Option::None => parse_entry(v@.skip(pos as int)) is None,
        },
{
    match e_str(v, pos) {
        Option::None => Option::None,
        Option::Some((url, s1)) => match p_lit(v, s1, ":[") {
            Option::None => Option::None,
            Option::Some(s2) => match e_items(v, s2) {
                Option::None => Option::None,
                Option::Some((items, s3)) => Option::Some(
                    (FeedItemList { feed_url: url, items }, s3),
                ),
            },
        },
    }
}

/// A run of mapping entries at `pos`, over the closing brace.
fn e_entries(v: &Vec<char>, pos: usize) -> (r: Option<(Vec<FeedItemList>, usize)>)
    requires
        pos <= v@.len(),
    ensures
        match r {
            Option::Some(t) => pos <= t.1 <= v@.len() && parse_entries(v@.skip(pos as int))
                == Option::Some((t.0.deep_view(), v@.skip(t.1 as int))),
            Option::None => parse_entries(v@.skip(pos as int)) is None,
        },
    decreases v@.len() - pos,
{
    match p_lit(v, pos, "}") {
        Option::Some(p1) => {
            let es: Vec<FeedItemList> = Vec::new();
            assert(es.deep_view() =~= Seq::<FeedItemListV>::empty());
            Option::Some((es, p1))
        },
        Option::None => match e_entry(v, pos) {
            Option::None => Option::None,
            Option::Some((e, p1)) => match p_lit(v, p1, ",") {
                Option::Some(p2) => {
                    if p2 > pos {
                        match e_entries(v, p2) {
                            Option::None => Option::None,
                            Option::Some((es, p3)) => {
                                let mut out: Vec<FeedItemList> = Vec::new();
                                let ghost edv = e.deep_view();
                                out.push(e);
                                let mut es2 = es;
                                let ghost esdv = es2.deep_view();
                                let ghost pre = out;
                                let ghost es_snap = es2;
                                out.append(&mut es2);
                                proof {
                                    lemma_deep_view_concat(pre, es_snap, out);
                                    assert(pre.deep_view() =~= seq![edv]);
                                    assert(out.deep_view() =~= seq![edv] + esdv);
                                }
                                Option::Some((out, p3))
                            },
                        }
                    } else {
                        Option::None
                    }
                },
                Option::None => match p_lit(v, p1, "}") {
                    Option::Some(p2) => {
                        let mut out: Vec<FeedItemList> = Vec::new();
                        let ghost edv = e.deep_view();
                        out.push(e);
                        proof {
                            assert(out.deep_view() =~= seq![edv]);
                        }
                        Option::Some((out, p2))
                    },
                    Option::None => Option::None,
                },
            },
        },
    }
}

/// Which construct a refused snapshot text fails at: the cause its
/// snapshot error names, following the parser's walk.
pub open spec fn snapshot_fail_msg(s: Seq<char>) -> Seq<char> {
    match expect(s, "{\"feeds\":["@) {
        Option::None => "snapshot does not open with a feeds list"@,
        Option::Some(s1) => match parse_feeds(s1) {
            Option::None => "unreadable feed record in the feeds list"@,
            Option::Some((_feeds, s2)) => match expect(s2, ",\"items_by_feed\":{"@) {
                Option::None => "items_by_feed mapping is missing after the feeds list"@,
                Option::Some(s3) => match parse_entries(s3) {
                    Option::None => "unreadable entry in the items_by_feed mapping"@,
                    Option::Some((_entries, s4)) => match expect(s4, "}"@) {
                        Option::None => "snapshot does not close after the mapping"@,
                        Option::Some(_s5) => "text after the end of the snapshot"@,
                    },
                },
            },
        },
    }
}

/// Decode a snapshot text. A text the grammar refuses gives a snapshot
/// error naming the construct at which the parser stopped; an absent
/// snapshot is the caller's case, not this one.
pub fn from_snapshot(s: &str) -> (r: Result<SubscriptionList, Error>)
    ensures
        match r {
            Result::Ok(l) => parse_snapshot(s@) == Option::Some(l.deep_view()),
            Result::Err(e) => parse_snapshot(s@) is None && e is Store && e->Store_0@
                == snapshot_fail_msg(s@),
        },
{
    let v = str_chars_vec(s);
    proof {
        assert(v@.skip(0) =~= s@);
    }
    match p_lit(&v, 0, "{\"feeds\":[") {
        Option::None => Result::Err(
            Error::Store(String::from_str("snapshot does not open with a feeds list")),
        ),
        Option::Some(s1) => match e_feeds(&v, s1) {
            Option::None => Result::Err(
                Error::Store(String::from_str("unreadable feed record in the feeds list")),
            ),
            Option::Some((feeds, s2)) => match p_lit(&v, s2, ",\"items_by_feed\":{") {
                Option::None => Result::Err(
                    Error::Store(
                        String::from_str("items_by_feed mapping is missing after the feeds list"),
                    ),
                ),
                Option::Some(s3) => match e_entries(&v, s3) {
                    Option::None => Result::Err(
                        Error::Store(
                            String::from_str("unreadable entry in the items_by_feed mapping"),
                        ),
                    ),
                    Option::Some((entries, s4)) => match p_lit(&v, s4, "}") {
                        Option::None => Result::Err(
                            Error::Store(
                                String::from_str("snapshot does not close after the mapping"),
                            ),
                        ),
                        Option::Some(s5) => {
                            if s5 == v.len() {
                                proof {
                                    assert(v@.skip(s5 as int).len() == 0);
                                }
                                Result::Ok(SubscriptionList { feeds, items_by_feed: entries })
                            } else {
                                proof {
                                    assert(v@.skip(s5 as int).len() > 0);
                                }
                                Result::Err(
                                    Error::Store(
                                        String::from_str("text after the end of the snapshot"),
                                    ),
                                )
                            }
                        },
                    },
                },
            },
        },
    }
}

/// Writing one more element appends a separator and its text.
#[verifier::rlimit(100)]
#[verifier::spinoff_prover]
proof fn lemma_enc_encls_snoc(s: Seq<MediaEnclosureV>, x: MediaEnclosureV)
    ensures
        enc_encls(s.push(x)) == if s.len() == 0 {
            enc_encl(x)
        } else {
            enc_encls(s) + ","@ + enc_encl(x)
        },
    decreases s.len(),
{
    let p = s.push(x);
    if s.len() == 0 {
        assert(p[0] == x);
    } else {
        assert(p[0] == s[0]);
        assert(p.drop_first() =~= s.drop_first().push(x));
        lemma_enc_encls_snoc(s.drop_first(), x);
        if s.len() == 1 {
        } else {
            crate::jsontext::lemma_assoc(
                enc_encl(s[0]) + ","@,
                enc_encls(s.drop_first()) + ","@,
                enc_encl(x),
            );
            crate::jsontext::lemma_assoc(
                enc_encl(s[0]) + ","@,
                enc_encls(s.drop_first()),
                ","@,
            );
        }
    }
}

/// Writing one more element appends a separator and its text.
#[verifier::rlimit(100)]
#[verifier::spinoff_prover]
proof fn lemma_enc_items_snoc(s: Seq<FeedItemV>, x: FeedItemV)
    ensures
        enc_items(s.push(x)) == if s.len() == 0 {
            enc_item(x)
        } else {
            enc_items(s) + ","@ + enc_item(x)
        },
    decreases s.len(),
{
    let p = s.push(x);
    if s.len() == 0 {
        assert(p[0] == x);
    } else {
        assert(p[0] == s[0]);
        assert(p.drop_first() =~= s.drop_first().push(x));
        lemma_enc_items_snoc(s.drop_first(), x);
        if s.len() == 1 {
        } else {
            crate::jsontext::lemma_assoc(
                enc_item(s[0]) + ","@,
                enc_items(s.drop_first()) + ","@,
                enc_item(x),
            );
            crate::jsontext::lemma_assoc(
                enc_item(s[0]) + ","@,
                enc_items(s.drop_first()),
                ","@,
            );
        }
    }
}

/// Writing one more element appends a separator and its text.
#[verifier::rlimit(100)]
#[verifier::spinoff_prover]
proof fn lemma_enc_feeds_snoc(s: Seq<FeedV>, x: FeedV)
    ensures
        enc_feeds(s.push(x)) == if s.len() == 0 {
            enc_feed(x)
        } else {
            enc_feeds(s) + ","@ + enc_feed(x)
        },
    decreases s.len(),
{
    let p = s.push(x);
    if s.len() == 0 {
        assert(p[0] == x);
    } else {
        assert(p[0] == s[0]);
        assert(p.drop_first() =~= s.drop_first().push(x));
        lemma_enc_feeds_snoc(s.drop_first(), x);
        if s.len() == 1 {
        } else {
            crate::jsontext::lemma_assoc(
                enc_feed(s[0]) + ","@,
                enc_feeds(s.drop_first()) + ","@,
                enc_feed(x),
            );
            crate::jsontext::lemma_assoc(
                enc_feed(s[0]) + ","@,
                enc_feeds(s.drop_first()),
                ","@,
            );
        }
    }
}

/// Writing one more element appends a separator and its text.
#[verifier::rlimit(100)]
#[verifier::spinoff_prover]
proof fn lemma_enc_entries_snoc(s: Seq<FeedItemListV>, x: FeedItemListV)
    ensures
        enc_entries(s.push(x)) == if s.len() == 0 {
            enc_entry(x)
        } else {
            enc_entries(s) + ","@ + enc_entry(x)
        },
    decreases s.len(),
{
    let p = s.push(x);
    if s.len() == 0 {
        assert(p[0] == x);
    } else {
        assert(p[0] == s[0]);
        assert(p.drop_first() =~= s.drop_first().push(x));
        lemma_enc_entries_snoc(s.drop_first(), x);
        if s.len() == 1 {
        } else {
            crate::jsontext::lemma_assoc(
                enc_entry(s[0]) + ","@,
                enc_entries(s.drop_first()) + ","@,
                enc_entry(x),
            );
            crate::jsontext::lemma_assoc(
                enc_entry(s[0]) + ","@,
                enc_entries(s.drop_first()),
                ","@,
            );
        }
    }
}

// ------------------------------------------------------------ exec writer

/// Append a literal's characters.
pub(crate) fn push_lit(out: &mut Vec<char>, lit: &str)
    ensures
        final(out)@ == old(out)@ + lit@,
{
    let n = lit.unicode_len();
    let ghost base = out@;
    proof {
        assert(base + lit@.take(0) =~= base);
    }
    let mut i: usize = 0;
    while i < n
        invariant
            0 <= i <= n,
            n == lit@.len(),
            out@ == base + lit@.take(i as int),
        decreases n - i,
    {
        let c = lit.get_char(i);
        out.push(c);
        proof {
            assert(out@ =~= base + lit@.take(i + 1 as int));
        }
        i = i + 1;
    }
    proof {
        assert(lit@.take(n as int) =~= lit@);
    }
}

/// Append an optional string value.
fn push_opt_str(out: &mut Vec<char>, o: &Option<String>)
    ensures
        final(out)@ == old(out)@ + enc_opt_str(o.deep_view()),
{
    match o {
        Option::None => {
            push_lit(out, "null");
        },
        Option::Some(x) => {
            push_json_string(out, x.as_str());
            assert(out@ =~= old(out)@ + enc_str(x@));
        },
    }
}

/// Append an optional timestamp value; fails only when the timestamp
/// cannot be rendered.
fn push_opt_ts(out: &mut Vec<char>, o: Option<i64>) -> (ok: bool)
    ensures
        ok ==> final(out)@ == old(out)@ + enc_opt_ts(o) && opt_ts_ok(o),
        opt_ts_in_range(o) ==> ok,
{
    match o {
        Option::None => {
            push_lit(out, "null");
            true
        },
        Option::Some(t) => {
            if crate::timefmt::TS_MIN <= t && t <= crate::timefmt::TS_MAX {
                match fmt_rfc3339(t) {
                    Option::Some(st) => {
                        out.push('"');
                        push_lit(out, st.as_str());
                        out.push('"');
                        assert(out@ =~= old(out)@ + enc_opt_ts(o));
                        true
                    },
                    Option::None => {
                        proof {
                            assert(false);
                        }
                        false
                    },
                }
            } else {
                false
            }
        },
    }
}

/// Append an optional byte count value.
fn push_opt_len(out: &mut Vec<char>, o: Option<u64>)
    ensures
        final(out)@ == old(out)@ + enc_opt_len(o),
{
    match o {
        Option::None => {
            push_lit(out, "null");
        },
        Option::Some(n) => {
            push_u64(out, n);
        },
    }
}

/// Append one enclosure object.
#[verifier::rlimit(100)]
#[verifier::spinoff_prover]
fn push_encl(out: &mut Vec<char>, e: &MediaEnclosure)
    ensures
        final(out)@ == old(out)@ + enc_encl(e.deep_view()),
{
    push_lit(out, "{\"url\":");
    push_json_string(out, e.url.as_str());
    push_lit(out, ",\"media_type\":");
    push_opt_str(out, &e.media_type);
    push_lit(out, ",\"length\":");
    push_opt_len(out, e.length);
    push_lit(out, ",\"title\":");
    push_opt_str(out, &e.title);
    push_lit(out, "}");
    assert(out@ =~= old(out)@ + enc_encl(e.deep_view()));
}

/// Append a run of enclosures.
#[verifier::rlimit(100)]
#[verifier::spinoff_prover]
fn push_encls(out: &mut Vec<char>, v: &Vec<MediaEnclosure>)
    ensures
        final(out)@ == old(out)@ + enc_encls(v.deep_view()),
{
    let ghost base = out@;
    let ghost dv = v.deep_view();
    proof {
        assert(dv.take(0) =~= Seq::<MediaEnclosureV>::empty());
        assert(base + enc_encls(dv.take(0)) =~= base);
    }
    let mut i: usize = 0;
    while i < v.len()
        invariant
            0 <= i <= v@.len(),
            dv == v.deep_view(),
            dv.len() == v@.len(),
            out@ == base + enc_encls(dv.take(i as int)),
        decreases v@.len() - i,
    {
        if i > 0 {
            push_lit(out, ",");
        }
        push_encl(out, &v[i]);
        proof {
            assert(dv.take(i + 1 as int) =~= dv.take(i as int).push(dv[i as int]));
            lemma_enc_encls_snoc(dv.take(i as int), dv[i as int]);
            if i > 0 {
                crate::jsontext::lemma_assoc(base, enc_encls(dv.take(i as int)), ","@);
                crate::jsontext::lemma_assoc(base, enc_encls(dv.take(i as int)) + ","@, enc_encl(
                    dv[i as int],
                ));
            }
            assert(out@ == base + enc_encls(dv.take(i + 1 as int)));
        }
        i = i + 1;
    }
    proof {
        assert(dv.take(v@.len() as int) =~= dv);
    }
}

/// Append one item object; fails only on an unrenderable timestamp.
#[verifier::rlimit(100)]
#[verifier::spinoff_prover]
fn push_item(out: &mut Vec<char>, it: &FeedItem) -> (ok: bool)
    ensures
        ok ==> final(out)@ == old(out)@ + enc_item(it.deep_view()) && item_ok(it.deep_view()),
        opt_ts_in_range(it.published) ==> ok,
{
    push_lit(out, "{\"id\":");
    push_json_string(out, it.id.as_str());
    push_lit(out, ",\"feed_url\":");
    push_json_string(out, it.feed_url.as_str());
    push_lit(out, ",\"title\":");
    push_json_string(out, it.title.as_str());
    push_lit(out, ",\"link\":");
    push_opt_str(out, &it.link);
    push_lit(out, ",\"published\":");
    if !push_opt_ts(out, it.published) {
        return false;
    }
    push_lit(out, ",\"summary\":");
    push_opt_str(out, &it.summary);
    push_lit(out, ",\"content\":");
    push_opt_str(out, &it.content);
    push_lit(out, ",\"enclosures\":[");
    push_encls(out, &it.enclosures);
    push_lit(out, "]");
    push_lit(out, "}");
    assert(out@ =~= old(out)@ + enc_item(it.deep_view()));
    true
}

/// Append a run of items; fails only on an unrenderable timestamp.
#[verifier::rlimit(100)]
#[verifier::spinoff_prover]
fn push_items(out: &mut Vec<char>, v: &Vec<FeedItem>) -> (ok: bool)
    ensures
        ok ==> final(out)@ == old(out)@ + enc_items(v.deep_view()) && forall|k: int|
            0 <= k < v.deep_view().len() ==> item_ok(#[trigger] v.deep_view()[k]),
        (forall|k: int|
            0 <= k < v.deep_view().len() ==> opt_ts_in_range(
                (#[trigger] v.deep_view()[k]).published,
            )) ==> ok,
{
    let ghost base = out@;
    let ghost dv = v.deep_view();
    proof {
        assert(dv.take(0) =~= Seq::<FeedItemV>::empty());
        assert(base + enc_items(dv.take(0)) =~= base);
    }
    let mut i: usize = 0;
    while i < v.len()
        invariant
            0 <= i <= v@.len(),
            dv == v.deep_view(),
            dv.len() == v@.len(),
            out@ == base + enc_items(dv.take(i as int)),
            forall|k: int| 0 <= k < i ==> item_ok(#[trigger] dv[k]),
        decreases v@.len() - i,
    {
        if i > 0 {
            push_lit(out, ",");
        }
        if !push_item(out, &v[i]) {
            proof {
                assert(v@[i as int].published == dv[i as int].published);
                assert(!opt_ts_in_range(dv[i as int].published));
            }
            return false;
        }
        proof {
            assert(dv.take(i + 1 as int) =~= dv.take(i as int).push(dv[i as int]));
            lemma_enc_items_snoc(dv.take(i as int), dv[i as int]);
            if i > 0 {
                crate::jsontext::lemma_assoc(base, enc_items(dv.take(i as int)), ","@);
                crate::jsontext::lemma_assoc(base, enc_items(dv.take(i as int)) + ","@, enc_item(
                    dv[i as int],
                ));
            }
            assert(out@ == base + enc_items(dv.take(i + 1 as int)));
        }
        i = i + 1;
    }
    proof {
        assert(dv.take(v@.len() as int) =~= dv);
    }
    true
}

/// Append one feed object; fails only on an unrenderable timestamp.
#[verifier::rlimit(100)]
#[verifier::spinoff_prover]
fn push_feed(out: &mut Vec<char>, f: &Feed) -> (ok: bool)
    ensures
        ok ==> final(out)@ == old(out)@ + enc_feed(f.deep_view()) && feed_ok(f.deep_view()),
        opt_ts_in_range(f.last_fetched) && opt_ts_in_range(f.created_at) ==> ok,
{
    push_lit(out, "{\"url\":");
    push_json_string(out, f.url.as_str());
    push_lit(out, ",\"title\":");
    push_opt_str(out, &f.title);
    push_lit(out, ",\"description\":");
    push_opt_str(out, &f.description);
    push_lit(out, ",\"last_fetched\":");
    if !push_opt_ts(out, f.last_fetched) {
        return false;
    }
    push_lit(out, ",\"created_at\":");
    if !push_opt_ts(out, f.created_at) {
        return false;
    }
    push_lit(out, "}");
    assert(out@ =~= old(out)@ + enc_feed(f.deep_view()));
    true
}

/// Append a run of feeds; fails only on an unrenderable timestamp.
#[verifier::rlimit(100)]
#[verifier::spinoff_prover]
fn push_feeds(out: &mut Vec<char>, v: &Vec<Feed>) -> (ok: bool)
    ensures
        ok ==> final(out)@ == old(out)@ + enc_feeds(v.deep_view()) && forall|k: int|
            0 <= k < v.deep_view().len() ==> feed_ok(#[trigger] v.deep_view()[k]),
        (forall|k: int|
            0 <= k < v.deep_view().len() ==> opt_ts_in_range(
                (#[trigger] v.deep_view()[k]).last_fetched,
            ) && opt_ts_in_range(v.deep_view()[k].created_at)) ==> ok,
{
    let ghost base = out@;
    let ghost dv = v.deep_view();
    proof {
        assert(dv.take(0) =~= Seq::<FeedV>::empty());
        assert(base + enc_feeds(dv.take(0)) =~= base);
    }
    let mut i: usize = 0;
    while i < v.len()
        invariant
            0 <= i <= v@.len(),
            dv == v.deep_view(),
            dv.len() == v@.len(),
            out@ == base + enc_feeds(dv.take(i as int)),
            forall|k: int| 0 <= k < i ==> feed_ok(#[trigger] dv[k]),
        decreases v@.len() - i,
    {
        if i > 0 {
            push_lit(out, ",");
        }
        if !push_feed(out, &v[i]) {
            proof {
                assert(v@[i as int].last_fetched == dv[i as int].last_fetched);
                assert(v@[i as int].created_at == dv[i as int].created_at);
            }
            return false;
        }
        proof {
            assert(dv.take(i + 1 as int) =~= dv.take(i as int).push(dv[i as int]));
            lemma_enc_feeds_snoc(dv.take(i as int), dv[i as int]);
            if i > 0 {
                crate::jsontext::lemma_assoc(base, enc_feeds(dv.take(i as int)), ","@);
                crate::jsontext::lemma_assoc(base, enc_feeds(dv.take(i as int)) + ","@, enc_feed(
                    dv[i as int],
                ));
            }
            assert(out@ == base + enc_feeds(dv.take(i + 1 as int)));
        }
        i = i + 1;
    }
    proof {
        assert(dv.take(v@.len() as int) =~= dv);
    }
    true
}

/// Append one mapping entry; fails only on an unrenderable timestamp.
#[verifier::rlimit(100)]
#[verifier::spinoff_prover]
fn push_entry(out: &mut Vec<char>, e: &FeedItemList) -> (ok: bool)
    ensures
        ok ==> final(out)@ == old(out)@ + enc_entry(e.deep_view()) && forall|j: int|
            0 <= j < e.deep_view().items.len() ==> item_ok(#[trigger] e.deep_view().items[j]),
        (forall|j: int|
            0 <= j < e.deep_view().items.len() ==> opt_ts_in_range(
                (#[trigger] e.deep_view().items[j]).published,
            )) ==> ok,
{
    push_json_string(out, e.feed_url.as_str());
    push_lit(out, ":[");
    if !push_items(out, &e.items) {
        proof {
            assert(e.deep_view().items == e.items.deep_view());
            if forall|j: int|
                0 <= j < e.deep_view().items.len() ==> opt_ts_in_range(
                    (#[trigger] e.deep_view().items[j]).published,
                ) {
                assert forall|k: int| 0 <= k < e.items.deep_view().len() implies opt_ts_in_range(
                    (#[trigger] e.items.deep_view()[k]).published,
                ) by {
                    assert(e.items.deep_view()[k] == e.deep_view().items[k]);
                }
                assert(false);
            }
        }
        return false;
    }
    push_lit(out, "]");
    assert(out@ =~= old(out)@ + enc_entry(e.deep_view()));
    true
}

/// Append a run of mapping entries; fails only on an unrenderable
/// timestamp.
#[verifier::rlimit(100)]
#[verifier::spinoff_prover]
fn push_entries(out: &mut Vec<char>, v: &Vec<FeedItemList>) -> (ok: bool)
    ensures
        ok ==> final(out)@ == old(out)@ + enc_entries(v.deep_view()) && forall|k: int, j: int|
            0 <= k < v.deep_view().len() && 0 <= j < v.deep_view()[k].items.len() ==> item_ok(
                #[trigger] v.deep_view()[k].items[j],
            ),
        (forall|k: int, j: int|
            0 <= k < v.deep_view().len() && 0 <= j < v.deep_view()[k].items.len()
                ==> opt_ts_in_range(
                (#[trigger] v.deep_view()[k].items[j]).published,
            )) ==> ok,
{
    let ghost base = out@;
    let ghost dv = v.deep_view();
    proof {
        assert(dv.take(0) =~= Seq::<FeedItemListV>::empty());
        assert(base + enc_entries(dv.take(0)) =~= base);
    }
    let mut i: usize = 0;
    while i < v.len()
        invariant
            0 <= i <= v@.len(),
            dv == v.deep_view(),
            dv.len() == v@.len(),
            out@ == base + enc_entries(dv.take(i as int)),
            forall|k: int, j: int|
                0 <= k < i && 0 <= j < dv[k].items.len() ==> item_ok(#[trigger] dv[k].items[j]),
        decreases v@.len() - i,
    {
        if i > 0 {
            push_lit(out, ",");
        }
        if !push_entry(out, &v[i]) {
            proof {
                assert(v@[i as int].deep_view() == dv[i as int]);
            }
            return false;
        }
        proof {
            assert(dv.take(i + 1 as int) =~= dv.take(i as int).push(dv[i as int]));
            lemma_enc_entries_snoc(dv.take(i as int), dv[i as int]);
            if i > 0 {
                crate::jsontext::lemma_assoc(base, enc_entries(dv.take(i as int)), ","@);
                crate::jsontext::lemma_assoc(base, enc_entries(dv.take(i as int)) + ","@, enc_entry(
                    dv[i as int],
                ));
            }
            assert(out@ == base + enc_entries(dv.take(i + 1 as int)));
        }
        i = i + 1;
    }
    proof {
        assert(dv.take(v@.len() as int) =~= dv);
    }
    true
}

impl SubscriptionList {
    /// Encode the whole store as one snapshot text. Success is owed
    /// whenever every timestamp lies within the renderable range; the
    /// text then parses back to exactly this store.
    pub fn to_snapshot(&self) -> (r: Result<String, Error>)
        ensures
            wf_ts(self.deep_view()) ==> r is Ok,
            r is Ok ==> (r->Ok_0)@ == snapshot_of(self.deep_view()) && parse_snapshot(
                (r->Ok_0)@,
            ) == Option::Some(self.deep_view()),
            r is Err ==> !wf_ts(self.deep_view()) && r->Err_0 is Store,
    {
        let ghost dv = self.deep_view();
        let mut out: Vec<char> = Vec::new();
        proof {
            assert(out@ =~= Seq::<char>::empty());
        }
        push_lit(&mut out, "{\"feeds\":[");
        if !push_feeds(&mut out, &self.feeds) {
            return Result::Err(
                Error::Store(String::from_str("timestamp out of storable range")),
            );
        }
        push_lit(&mut out, "]");
        push_lit(&mut out, ",\"items_by_feed\":{");
        if !push_entries(&mut out, &self.items_by_feed) {
            return Result::Err(
                Error::Store(String::from_str("timestamp out of storable range")),
            );
        }
        push_lit(&mut out, "}");
        push_lit(&mut out, "}");
        proof {
            assert(out@ =~= snapshot_of(dv));
            assert(store_ok(dv));
            lemma_snapshot_round_trip(dv);
        }
        Result::Ok(chars_to_string(&out))
    }
}

} // verus!
