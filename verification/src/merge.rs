//! The item merge engine: combine a feed's cached items with freshly
//! fetched ones into the canonical list — concatenate, stable-sort by
//! `published` descending (absent timestamps oldest), drop later items
//! with an already-seen id, and cut the list to the cap.

use vstd::prelude::*;

use crate::feed::{lemma_deep_view_push, FeedItem, FeedItemV};

verus! {

/// `a` is at least as recent as `b`; an absent timestamp is older than
/// any present one.
pub open spec fn ge_published(a: Option<i64>, b: Option<i64>) -> bool {
    match b {
        Option::None => true,
        Option::Some(y) => match a {
            Option::None => false,
            Option::Some(x) => x >= y,
        },
    }
}

/// Descending recency order, absent timestamps last.
pub open spec fn sorted_desc(s: Seq<FeedItemV>) -> bool {
    forall|i: int, j: int|
        0 <= i < j < s.len() ==> ge_published(s[i].published, s[j].published)
}

/// No two items share an id.
pub open spec fn distinct_ids(s: Seq<FeedItemV>) -> bool {
    forall|i: int, j: int| 0 <= i < j < s.len() ==> s[i].id != s[j].id
}

/// Insert `x` behind every element at least as recent: the stable
/// insertion step of the sort.
pub open spec fn insert_desc(s: Seq<FeedItemV>, x: FeedItemV) -> Seq<FeedItemV>
    decreases s.len(),
{
    if s.len() == 0 {
        seq![x]
    } else if ge_published(s[0].published, x.published) {
        seq![s[0]] + insert_desc(s.drop_first(), x)
    } else {
        seq![x] + s
    }
}

/// Stable insertion sort, descending by `published`.
pub open spec fn sort_desc(s: Seq<FeedItemV>) -> Seq<FeedItemV>
    decreases s.len(),
{
    if s.len() == 0 {
        Seq::<FeedItemV>::empty()
    } else {
        insert_desc(sort_desc(s.drop_last()), s.last())
    }
}

/// Keep each element whose id was not seen before it.
pub open spec fn dedup_rec(s: Seq<FeedItemV>, seen: Set<Seq<char>>) -> Seq<FeedItemV>
    decreases s.len(),
{
    if s.len() == 0 {
        Seq::<FeedItemV>::empty()
    } else if seen.contains(s[0].id) {
        dedup_rec(s.drop_first(), seen)
    } else {
        seq![s[0]] + dedup_rec(s.drop_first(), seen.insert(s[0].id))
    }
}

/// Keep the first occurrence of each id.
pub open spec fn dedup_by_id(s: Seq<FeedItemV>) -> Seq<FeedItemV> {
    dedup_rec(s, Set::<Seq<char>>::empty())
}

/// Cut to at most `cap` elements, dropping the tail.
pub open spec fn cap_items(s: Seq<FeedItemV>, cap: nat) -> Seq<FeedItemV> {
    if s.len() <= cap {
        s
    } else {
        s.take(cap as int)
    }
}

/// The canonical merged list for one feed.
pub open spec fn merge_spec(existing: Seq<FeedItemV>, new: Seq<FeedItemV>, cap: nat) -> Seq<
    FeedItemV,
> {
    cap_items(dedup_by_id(sort_desc(existing + new)), cap)
}

/// The ids occurring in a list.
pub open spec fn ids_of(s: Seq<FeedItemV>) -> Set<Seq<char>> {
    Set::new(|id: Seq<char>| exists|k: int| 0 <= k < s.len() && s[k].id == id)
}

/// Where `insert_desc` puts its element: behind the leading run of
/// elements at least as recent.
pub open spec fn insert_point(s: Seq<FeedItemV>, x: FeedItemV) -> int
    decreases s.len(),
{
    if s.len() == 0 {
        0
    } else if ge_published(s[0].published, x.published) {
        1 + insert_point(s.drop_first(), x)
    } else {
        0
    }
}

/// `insert_desc` splits the list at `insert_point`.
pub proof fn lemma_insert_desc_split(s: Seq<FeedItemV>, x: FeedItemV)
    ensures
        0 <= insert_point(s, x) <= s.len(),
        forall|j: int|
            0 <= j < insert_point(s, x) ==> ge_published(s[j].published, x.published),
        insert_point(s, x) < s.len() ==> !ge_published(
            s[insert_point(s, x)].published,
            x.published,
        ),
        insert_desc(s, x) == s.take(insert_point(s, x)) + seq![x] + s.skip(insert_point(s, x)),
    decreases s.len(),
{
    let p = insert_point(s, x);
    if s.len() == 0 {
        assert(insert_desc(s, x) =~= s.take(0) + seq![x] + s.skip(0));
    } else if ge_published(s[0].published, x.published) {
        let t = s.drop_first();
        lemma_insert_desc_split(t, x);
        assert forall|j: int| 0 <= j < p implies ge_published(s[j].published, x.published) by {
            if j > 0 {
                assert(t[j - 1] == s[j]);
            }
        }
        if p < s.len() {
            assert(t[p - 1] == s[p]);
        }
        assert(insert_desc(s, x) == seq![s[0]] + (t.take(p - 1) + seq![x] + t.skip(p - 1)));
        assert(insert_desc(s, x) =~= s.take(p) + seq![x] + s.skip(p));
    } else {
        assert(insert_desc(s, x) =~= s.take(0) + seq![x] + s.skip(0));
    }
}

/// Inserting into a sorted list keeps it sorted and grows it by one.
pub proof fn lemma_insert_desc_sorted(s: Seq<FeedItemV>, x: FeedItemV)
    requires
        sorted_desc(s),
    ensures
        sorted_desc(insert_desc(s, x)),
        insert_desc(s, x).len() == s.len() + 1,
{
    lemma_insert_desc_split(s, x);
    let p = insert_point(s, x);
    let r = insert_desc(s, x);
    assert forall|i: int, j: int| 0 <= i < j < r.len() implies ge_published(
        r[i].published,
        r[j].published,
    ) by {
        if p < s.len() {
            assert(ge_published(x.published, s[p].published));
        }
        if i < p {
            assert(r[i] == s[i]);
        } else if i == p {
            assert(r[i] == x);
        } else {
            assert(r[i] == s[i - 1]);
        }
        if j < p {
            assert(r[j] == s[j]);
        } else if j == p {
            assert(r[j] == x);
        } else {
            assert(r[j] == s[j - 1]);
            if i == p && j - 1 > p {
                assert(ge_published(s[p].published, s[j - 1].published));
            }
        }
    }
}

/// Every sort output is sorted and a reordering of the input length.
pub proof fn lemma_sort_desc_sorted(s: Seq<FeedItemV>)
    ensures
        sorted_desc(sort_desc(s)),
        sort_desc(s).len() == s.len(),
    decreases s.len(),
{
    if s.len() > 0 {
        lemma_sort_desc_sorted(s.drop_last());
        lemma_insert_desc_sorted(sort_desc(s.drop_last()), s.last());
    }
}

/// Dropping seen ids keeps the order sorted, never grows the list, and
/// every survivor is at most as recent as the original head.
pub proof fn lemma_dedup_sorted(s: Seq<FeedItemV>, seen: Set<Seq<char>>)
    requires
        sorted_desc(s),
    ensures
        sorted_desc(dedup_rec(s, seen)),
        dedup_rec(s, seen).len() <= s.len(),
        forall|k: int|
            0 <= k < dedup_rec(s, seen).len() ==> ge_published(
                s[0].published,
                dedup_rec(s, seen)[k].published,
            ),
    decreases s.len(),
{
    if s.len() > 0 {
        let t = s.drop_first();
        let d = dedup_rec(s, seen);
        assert(sorted_desc(t)) by {
            assert forall|i: int, j: int| 0 <= i < j < t.len() implies ge_published(
                t[i].published,
                t[j].published,
            ) by {
                assert(t[i] == s[i + 1]);
                assert(t[j] == s[j + 1]);
            }
        }
        if seen.contains(s[0].id) {
            lemma_dedup_sorted(t, seen);
            assert forall|k: int| 0 <= k < d.len() implies ge_published(
                s[0].published,
                d[k].published,
            ) by {
                if t.len() > 0 {
                    assert(ge_published(s[0].published, t[0].published));
                }
            }
        } else {
            lemma_dedup_sorted(t, seen.insert(s[0].id));
            let d2 = dedup_rec(t, seen.insert(s[0].id));
            assert forall|k: int| 0 <= k < d.len() implies ge_published(
                s[0].published,
                d[k].published,
            ) by {
                if k > 0 {
                    assert(d[k] == d2[k - 1]);
                    if t.len() > 0 {
                        assert(ge_published(s[0].published, t[0].published));
                    }
                }
            }
            assert forall|i: int, j: int| 0 <= i < j < d.len() implies ge_published(
                d[i].published,
                d[j].published,
            ) by {
                if i > 0 {
                    assert(d[i] == d2[i - 1]);
                    assert(d[j] == d2[j - 1]);
                } else {
                    assert(d[j] == d2[j - 1]);
                }
            }
        }
    }
}

/// Survivors carry pairwise distinct ids, none of them already seen.
pub proof fn lemma_dedup_distinct(s: Seq<FeedItemV>, seen: Set<Seq<char>>)
    ensures
        distinct_ids(dedup_rec(s, seen)),
        forall|k: int|
            0 <= k < dedup_rec(s, seen).len() ==> !seen.contains(dedup_rec(s, seen)[k].id),
    decreases s.len(),
{
    if s.len() > 0 {
        let t = s.drop_first();
        let d = dedup_rec(s, seen);
        if seen.contains(s[0].id) {
            lemma_dedup_distinct(t, seen);
        } else {
            lemma_dedup_distinct(t, seen.insert(s[0].id));
            let d2 = dedup_rec(t, seen.insert(s[0].id));
            assert forall|k: int| 0 <= k < d.len() implies !seen.contains(d[k].id) by {
                if k > 0 {
                    assert(d[k] == d2[k - 1]);
                    assert(!seen.insert(s[0].id).contains(d2[k - 1].id));
                }
            }
            assert forall|i: int, j: int| 0 <= i < j < d.len() implies d[i].id != d[j].id by {
                if i > 0 {
                    assert(d[i] == d2[i - 1]);
                    assert(d[j] == d2[j - 1]);
                } else {
                    assert(d[j] == d2[j - 1]);
                    assert(!seen.insert(s[0].id).contains(d2[j - 1].id));
                }
            }
        }
    }
}

/// The merged list is sorted, duplicate-free and within the cap.
pub proof fn lemma_merge_spec_props(existing: Seq<FeedItemV>, new: Seq<FeedItemV>, cap: nat)
    ensures
        sorted_desc(merge_spec(existing, new, cap)),
        distinct_ids(merge_spec(existing, new, cap)),
        merge_spec(existing, new, cap).len() <= cap,
        merge_spec(existing, new, cap).len() <= existing.len() + new.len(),
{
    let s = sort_desc(existing + new);
    lemma_sort_desc_sorted(existing + new);
    lemma_dedup_sorted(s, Set::<Seq<char>>::empty());
    lemma_dedup_distinct(s, Set::<Seq<char>>::empty());
    let d = dedup_by_id(s);
    let m = merge_spec(existing, new, cap);
    if d.len() > cap {
        assert forall|i: int, j: int| 0 <= i < j < m.len() implies ge_published(
            m[i].published,
            m[j].published,
        ) && m[i].id != m[j].id by {
            assert(m[i] == d[i]);
            assert(m[j] == d[j]);
        }
    }
}

/// `a` is at least as recent as `b`.
pub fn published_ge(a: Option<i64>, b: Option<i64>) -> (r: bool)
    ensures
        r == ge_published(a, b),
{
    match b {
        Option::None => true,
        Option::Some(y) => match a {
            Option::None => false,
            Option::Some(x) => x >= y,
        },
    }
}

/// Inserting into a vector inserts into its deep view.
pub proof fn lemma_deep_view_insert(pre: Vec<FeedItem>, post: Vec<FeedItem>, p: int, x: FeedItem)
    requires
        0 <= p <= pre@.len(),
        post@ == pre@.insert(p, x),
    ensures
        post.deep_view() == pre.deep_view().insert(p, x.deep_view()),
{
    assert forall|k: int| 0 <= k < post@.len() implies post.deep_view()[k]
        == pre.deep_view().insert(p, x.deep_view())[k] by {
        if k < p {
            assert(post@[k] == pre@[k]);
        } else if k == p {
            assert(post@[k] == x);
        } else {
            assert(post@[k] == pre@[k - 1]);
        }
    }
    assert(post.deep_view() =~= pre.deep_view().insert(p, x.deep_view()));
}

/// Insert one item into a list already built in descending order.
fn insert_sorted(out: &mut Vec<FeedItem>, x: FeedItem)
    ensures
        final(out).deep_view() == insert_desc(old(out).deep_view(), x.deep_view()),
{
    let ghost u = out.deep_view();
    let mut p: usize = 0;
    while p < out.len() && published_ge(out[p].published, x.published)
        invariant
            0 <= p <= out.len(),
            out == old(out),
            u == out.deep_view(),
            u.len() == out@.len(),
            forall|j: int| 0 <= j < p ==> ge_published(u[j].published, x.deep_view().published),
        decreases out.len() - p,
    {
        assert(u[p as int].published == out@[p as int].published);
        p = p + 1;
    }
    proof {
        lemma_insert_desc_split(u, x.deep_view());
        let ip = insert_point(u, x.deep_view());
        if ip < p {
            assert(ge_published(u[ip].published, x.deep_view().published));
        }
        if p < ip {
            assert(ge_published(u[p as int].published, x.deep_view().published));
        }
        assert(ip == p);
    }
    let ghost pre = *out;
    out.insert(p, x);
    proof {
        lemma_deep_view_insert(pre, *out, p as int, x);
        assert(out.deep_view() =~= u.take(p as int) + seq![x.deep_view()] + u.skip(p as int));
    }
}

/// Does some element of `v` carry this id?
fn contains_id(v: &Vec<FeedItem>, id: &String) -> (r: bool)
    ensures
        r == ids_of(v.deep_view()).contains(id@),
{
    let mut j: usize = 0;
    while j < v.len()
        invariant
            0 <= j <= v.len(),
            forall|k: int| 0 <= k < j ==> v.deep_view()[k].id != id@,
        decreases v.len() - j,
    {
        if v[j].id == *id {
            assert(v.deep_view()[j as int].id == id@);
            return true;
        }
        j = j + 1;
    }
    false
}

/// Stable insertion sort of a whole list, descending by recency.
pub fn sort_items(v: Vec<FeedItem>) -> (r: Vec<FeedItem>)
    ensures
        r.deep_view() == sort_desc(v.deep_view()),
        sorted_desc(r.deep_view()),
{
    let ghost cdv = v.deep_view();
    let mut sorted: Vec<FeedItem> = Vec::new();
    let mut k: usize = 0;
    while k < v.len()
        invariant
            0 <= k <= v.len(),
            v.deep_view() == cdv,
            sorted.deep_view() == sort_desc(cdv.take(k as int)),
        decreases v.len() - k,
    {
        let x = v[k].clone();
        insert_sorted(&mut sorted, x);
        proof {
            let t = cdv.take(k + 1 as int);
            assert(t.drop_last() =~= cdv.take(k as int));
            assert(t.last() == cdv[k as int]);
            assert(sorted.deep_view() == sort_desc(t));
        }
        k = k + 1;
    }
    proof {
        assert(cdv.take(v@.len() as int) =~= cdv);
        lemma_sort_desc_sorted(cdv);
    }
    sorted
}

/// Merge a feed's cached items with freshly fetched ones: concatenate,
/// stable-sort by recency (newest first, untimed last), keep the first
/// occurrence of each id, and cut to `cap` items.
pub fn merge_items(existing: Vec<FeedItem>, new_items: Vec<FeedItem>, cap: usize) -> (r: Vec<
    FeedItem,
>)
    ensures
        r.deep_view() == merge_spec(existing.deep_view(), new_items.deep_view(), cap as nat),
        sorted_desc(r.deep_view()),
        distinct_ids(r.deep_view()),
        r.deep_view().len() <= cap,
{
    let ghost edv = existing.deep_view();
    let ghost ndv = new_items.deep_view();
    let mut combined = existing;
    let mut incoming = new_items;
    let ghost pre_append = combined;
    combined.append(&mut incoming);
    proof {
        assert forall|k: int| 0 <= k < combined@.len() implies combined.deep_view()[k] == (edv
            + ndv)[k] by {
            if k < pre_append@.len() {
                assert(combined@[k] == pre_append@[k]);
            } else {
                assert(combined@[k] == new_items@[k - pre_append@.len()]);
            }
        }
        assert(combined.deep_view() =~= edv + ndv);
    }
    let sorted = sort_items(combined);

    // Keep the first occurrence of each id.
    let ghost sdv = sorted.deep_view();
    let mut out: Vec<FeedItem> = Vec::new();
    proof {
        assert(out.deep_view() =~= Seq::<FeedItemV>::empty());
        assert(ids_of(out.deep_view()) =~= Set::<Seq<char>>::empty());
        assert(sdv.skip(0) =~= sdv);
        assert(Seq::<FeedItemV>::empty() + dedup_rec(sdv, Set::<Seq<char>>::empty())
            =~= dedup_rec(sdv, Set::<Seq<char>>::empty()));
    }
    let mut k2: usize = 0;
    while k2 < sorted.len()
        invariant
            0 <= k2 <= sorted.len(),
            sorted.deep_view() == sdv,
            dedup_by_id(sdv) == out.deep_view() + dedup_rec(
                sdv.skip(k2 as int),
                ids_of(out.deep_view()),
            ),
        decreases sorted.len() - k2,
    {
        let x = sorted[k2].clone();
        let ghost rest = sdv.skip(k2 as int);
        proof {
            assert(rest[0] == sdv[k2 as int]);
            assert(rest.drop_first() =~= sdv.skip(k2 + 1 as int));
        }
        if contains_id(&out, &x.id) {
            proof {
                assert(dedup_rec(rest, ids_of(out.deep_view())) == dedup_rec(
                    sdv.skip(k2 + 1 as int),
                    ids_of(out.deep_view()),
                ));
            }
        } else {
            let ghost pre = out;
            out.push(x);
            proof {
                lemma_deep_view_push(pre, out, x);
                assert(ids_of(out.deep_view()) =~= ids_of(pre.deep_view()).insert(
                    x.deep_view().id,
                )) by {
                    assert forall|id: Seq<char>|
                        ids_of(out.deep_view()).contains(id) == ids_of(
                            pre.deep_view(),
                        ).insert(x.deep_view().id).contains(id) by {
                        let odv = out.deep_view();
                        let pdv = pre.deep_view();
                        if ids_of(odv).contains(id) {
                            let w = choose|w: int| 0 <= w < odv.len() && odv[w].id == id;
                            if w < pdv.len() {
                                assert(pdv[w].id == id);
                            }
                        }
                        if ids_of(pdv).contains(id) {
                            let w = choose|w: int| 0 <= w < pdv.len() && pdv[w].id == id;
                            assert(odv[w].id == id);
                        }
                        if id == x.deep_view().id {
                            assert(odv[pdv.len() as int].id == id);
                        }
                    }
                }
                assert(out.deep_view() + dedup_rec(
                    sdv.skip(k2 + 1 as int),
                    ids_of(out.deep_view()),
                ) =~= pre.deep_view() + (seq![rest[0]] + dedup_rec(
                    rest.drop_first(),
                    ids_of(pre.deep_view()).insert(rest[0].id),
                )));
            }
        }
        k2 = k2 + 1;
    }
    proof {
        assert(sdv.skip(sorted@.len() as int) =~= Seq::<FeedItemV>::empty());
        assert(dedup_by_id(sdv) =~= out.deep_view());
    }

    // Enforce the cap.
    let ghost ddv = out.deep_view();
    if out.len() > cap {
        let ghost pre = out;
        out.truncate(cap);
        proof {
            assert forall|j: int| 0 <= j < out@.len() implies out.deep_view()[j]
                == ddv.take(cap as int)[j] by {
                assert(out@[j] == pre@[j]);
            }
            assert(out.deep_view() =~= ddv.take(cap as int));
        }
    }
    proof {
        lemma_merge_spec_props(edv, ndv, cap as nat);
    }
    out
}

// --------------------------------------------------- idempotence law

/// Recency comparison is transitive.
proof fn lemma_ge_trans(a: Option<i64>, b: Option<i64>, c: Option<i64>)
    requires
        ge_published(a, b),
        ge_published(b, c),
    ensures
        ge_published(a, c),
{
}

/// An element no newer than anything in the list goes to the end.
proof fn lemma_insert_desc_all_ge(s: Seq<FeedItemV>, x: FeedItemV)
    requires
        forall|j: int| 0 <= j < s.len() ==> ge_published((#[trigger] s[j]).published, x.published),
    ensures
        insert_desc(s, x) == s.push(x),
    decreases s.len(),
{
    if s.len() == 0 {
        assert(insert_desc(s, x) =~= s.push(x));
    } else {
        assert(forall|j: int|
            0 <= j < s.drop_first().len() ==> ge_published(
                (#[trigger] s.drop_first()[j]).published,
                x.published,
            ));
        lemma_insert_desc_all_ge(s.drop_first(), x);
        assert(insert_desc(s, x) =~= s.push(x));
    }
}

/// Sorting an already sorted list changes nothing.
proof fn lemma_sort_desc_of_sorted(s: Seq<FeedItemV>)
    requires
        sorted_desc(s),
    ensures
        sort_desc(s) == s,
    decreases s.len(),
{
    if s.len() > 0 {
        let u = s.drop_last();
        assert(sorted_desc(u));
        lemma_sort_desc_of_sorted(u);
        assert(forall|j: int|
            0 <= j < u.len() ==> ge_published((#[trigger] u[j]).published, s.last().published));
        lemma_insert_desc_all_ge(u, s.last());
        assert(u.push(s.last()) =~= s);
    }
}

/// Inserting a run of elements one by one, left to right.
pub open spec fn insert_seq(u: Seq<FeedItemV>, ns: Seq<FeedItemV>) -> Seq<FeedItemV>
    decreases ns.len(),
{
    if ns.len() == 0 {
        u
    } else {
        insert_desc(insert_seq(u, ns.drop_last()), ns.last())
    }
}

/// Sorting a concatenation inserts the second part into the sorted
/// first part.
proof fn lemma_sort_desc_concat(a: Seq<FeedItemV>, b: Seq<FeedItemV>)
    ensures
        sort_desc(a + b) == insert_seq(sort_desc(a), b),
    decreases b.len(),
{
    if b.len() == 0 {
        assert(a + b =~= a);
    } else {
        assert((a + b).drop_last() =~= a + b.drop_last());
        assert((a + b).last() == b.last());
        lemma_sort_desc_concat(a, b.drop_last());
    }
}

/// Insertion keeps every element and places the new one somewhere.
proof fn lemma_insert_desc_contains(s: Seq<FeedItemV>, x: FeedItemV)
    ensures
        insert_desc(s, x).len() == s.len() + 1,
        forall|q: int|
            0 <= q < s.len() ==> exists|q2: int|
                0 <= q2 < insert_desc(s, x).len() && insert_desc(s, x)[q2] == #[trigger] s[q],
        exists|p: int| 0 <= p < insert_desc(s, x).len() && insert_desc(s, x)[p] == x,
{
    lemma_insert_desc_split(s, x);
    let p = insert_point(s, x);
    let r = insert_desc(s, x);
    assert(r[p] == x);
    assert forall|q: int| 0 <= q < s.len() implies exists|q2: int|
        0 <= q2 < r.len() && r[q2] == #[trigger] s[q] by {
        if q < p {
            assert(r[q] == s[q]);
        } else {
            assert(r[q + 1] == s[q]);
        }
    }
}

/// Every element of the inserted run occurs in the result.
proof fn lemma_insert_seq_contains(u: Seq<FeedItemV>, ns: Seq<FeedItemV>, i: int)
    requires
        0 <= i < ns.len(),
    ensures
        exists|q: int|
            0 <= q < insert_seq(u, ns).len() && insert_seq(u, ns)[q] == ns[i],
    decreases ns.len(),
{
    let prev = insert_seq(u, ns.drop_last());
    let r = insert_seq(u, ns);
    lemma_insert_desc_contains(prev, ns.last());
    if i == ns.len() - 1 {
        assert(ns.last() == ns[i]);
    } else {
        assert(ns.drop_last()[i] == ns[i]);
        lemma_insert_seq_contains(u, ns.drop_last(), i);
        let q = choose|q: int| 0 <= q < prev.len() && prev[q] == ns[i];
        assert(exists|q2: int| 0 <= q2 < r.len() && r[q2] == #[trigger] prev[q]);
    }
}

/// Deduplication splits over concatenation: the second part is walked
/// with the first part's ids already seen.
proof fn lemma_dedup_split(a: Seq<FeedItemV>, b: Seq<FeedItemV>, seen: Set<Seq<char>>)
    ensures
        dedup_rec(a + b, seen) == dedup_rec(a, seen) + dedup_rec(b, seen.union(ids_of(a))),
    decreases a.len(),
{
    if a.len() == 0 {
        assert(a + b =~= b);
        assert(ids_of(a) =~= Set::<Seq<char>>::empty());
        assert(seen.union(ids_of(a)) =~= seen);
        assert(dedup_rec(a, seen) + dedup_rec(b, seen) =~= dedup_rec(b, seen));
    } else {
        let t = a.drop_first();
        assert((a + b)[0] == a[0]);
        assert((a + b).drop_first() =~= t + b);
        assert(ids_of(a).contains(a[0].id));
        assert forall|id: Seq<char>|
            seen.insert(a[0].id).union(ids_of(t)).contains(id) == seen.union(
                ids_of(a),
            ).contains(id) by {
            if ids_of(t).contains(id) {
                let w = choose|w: int| 0 <= w < t.len() && t[w].id == id;
                assert(a[w + 1].id == id);
                assert(ids_of(a).contains(id));
            }
            if ids_of(a).contains(id) && id != a[0].id {
                let w = choose|w: int| 0 <= w < a.len() && a[w].id == id;
                assert(w != 0);
                assert(t[w - 1].id == id);
                assert(ids_of(t).contains(id));
            }
        }
        assert(seen.insert(a[0].id).union(ids_of(t)) =~= seen.union(ids_of(a)));
        if seen.contains(a[0].id) {
            lemma_dedup_split(t, b, seen);
            assert forall|id: Seq<char>|
                seen.union(ids_of(t)).contains(id) == seen.union(ids_of(a)).contains(id) by {
                if ids_of(t).contains(id) {
                    let w = choose|w: int| 0 <= w < t.len() && t[w].id == id;
                    assert(a[w + 1].id == id);
                }
                if ids_of(a).contains(id) && !seen.contains(id) {
                    let w = choose|w: int| 0 <= w < a.len() && a[w].id == id;
                    assert(w != 0);
                    assert(t[w - 1].id == id);
                }
            }
            assert(seen.union(ids_of(t)) =~= seen.union(ids_of(a)));
        } else {
            lemma_dedup_split(t, b, seen.insert(a[0].id));
            assert(seq![a[0]] + (dedup_rec(t, seen.insert(a[0].id)) + dedup_rec(
                b,
                seen.insert(a[0].id).union(ids_of(t)),
            )) =~= (seq![a[0]] + dedup_rec(t, seen.insert(a[0].id))) + dedup_rec(
                b,
                seen.insert(a[0].id).union(ids_of(t)),
            ));
        }
    }
}

/// Every survivor of deduplication is an element of the input.
proof fn lemma_dedup_elements(s: Seq<FeedItemV>, seen: Set<Seq<char>>)
    ensures
        forall|k: int|
            0 <= k < dedup_rec(s, seen).len() ==> exists|i: int|
                0 <= i < s.len() && s[i] == #[trigger] dedup_rec(s, seen)[k],
    decreases s.len(),
{
    if s.len() > 0 {
        let t = s.drop_first();
        let d = dedup_rec(s, seen);
        if seen.contains(s[0].id) {
            lemma_dedup_elements(t, seen);
            assert forall|k: int| 0 <= k < d.len() implies exists|i: int|
                0 <= i < s.len() && s[i] == #[trigger] d[k] by {
                assert(d[k] == dedup_rec(t, seen)[k]);
                assert(exists|i: int| 0 <= i < t.len() && t[i] == dedup_rec(t, seen)[k]);
                let i0 = choose|i0: int| 0 <= i0 < t.len() && t[i0] == dedup_rec(t, seen)[k];
                assert(s[i0 + 1] == d[k]);
            }
        } else {
            lemma_dedup_elements(t, seen.insert(s[0].id));
            let d2 = dedup_rec(t, seen.insert(s[0].id));
            assert forall|k: int| 0 <= k < d.len() implies exists|i: int|
                0 <= i < s.len() && s[i] == #[trigger] d[k] by {
                if k == 0 {
                    assert(s[0] == d[0]);
                } else {
                    assert(d[k] == d2[k - 1]);
                    assert(exists|i: int| 0 <= i < t.len() && t[i] == d2[k - 1]);
                    let i0 = choose|i0: int| 0 <= i0 < t.len() && t[i0] == d2[k - 1];
                    assert(s[i0 + 1] == d[k]);
                }
            }
        }
    }
}

/// Deduplicating a list of fresh, pairwise distinct ids keeps it whole.
proof fn lemma_dedup_of_distinct(s: Seq<FeedItemV>, seen: Set<Seq<char>>)
    requires
        distinct_ids(s),
        forall|k: int| 0 <= k < s.len() ==> !seen.contains((#[trigger] s[k]).id),
    ensures
        dedup_rec(s, seen) == s,
    decreases s.len(),
{
    if s.len() > 0 {
        let t = s.drop_first();
        assert(forall|k: int| 0 <= k < t.len() ==> #[trigger] t[k] == s[k + 1]);
        lemma_dedup_of_distinct(t, seen.insert(s[0].id));
        assert(dedup_rec(s, seen) =~= s);
    }
}

/// In a sorted list, every element's id survives deduplication on an
/// element at least as recent.
proof fn lemma_dedup_covers(s: Seq<FeedItemV>, seen: Set<Seq<char>>)
    requires
        sorted_desc(s),
    ensures
        forall|q: int|
            0 <= q < s.len() && !seen.contains((#[trigger] s[q]).id) ==> exists|k: int|
                0 <= k < dedup_rec(s, seen).len() && dedup_rec(s, seen)[k].id == s[q].id
                    && ge_published(
                    #[trigger] dedup_rec(s, seen)[k].published,
                    s[q].published,
                ),
    decreases s.len(),
{
    if s.len() > 0 {
        let t = s.drop_first();
        let d = dedup_rec(s, seen);
        assert(sorted_desc(t)) by {
            assert forall|i: int, j: int| 0 <= i < j < t.len() implies ge_published(
                t[i].published,
                t[j].published,
            ) by {
                assert(t[i] == s[i + 1]);
                assert(t[j] == s[j + 1]);
            }
        }
        if seen.contains(s[0].id) {
            lemma_dedup_covers(t, seen);
            assert forall|q: int|
                0 <= q < s.len() && !seen.contains((#[trigger] s[q]).id) implies exists|k: int|
                0 <= k < d.len() && d[k].id == s[q].id && ge_published(
                    #[trigger] d[k].published,
                    s[q].published,
                ) by {
                assert(q != 0);
                assert(t[q - 1] == s[q]);
            }
        } else {
            lemma_dedup_covers(t, seen.insert(s[0].id));
            let d2 = dedup_rec(t, seen.insert(s[0].id));
            assert forall|q: int|
                0 <= q < s.len() && !seen.contains((#[trigger] s[q]).id) implies exists|k: int|
                0 <= k < d.len() && d[k].id == s[q].id && ge_published(
                    #[trigger] d[k].published,
                    s[q].published,
                ) by {
                if q == 0 {
                    assert(d[0] == s[0]);
                    assert(ge_published(d[0].published, s[0].published));
                } else {
                    assert(t[q - 1] == s[q]);
                    if s[q].id == s[0].id {
                        assert(d[0] == s[0]);
                        assert(ge_published(s[0].published, s[q].published));
                        assert(ge_published(d[0].published, s[q].published));
                    } else {
                        let k0 = choose|k0: int|
                            0 <= k0 < d2.len() && d2[k0].id == t[q - 1].id && ge_published(
                                #[trigger] d2[k0].published,
                                t[q - 1].published,
                            );
                        assert(d[k0 + 1] == d2[k0]);
                    }
                }
            }
        }
    }
}

/// Some element of `L` carries this id and is at least as recent.
pub open spec fn covered_by(L: Seq<FeedItemV>, x: FeedItemV) -> bool {
    exists|j: int|
        0 <= j < L.len() && L[j].id == x.id && ge_published(
            (#[trigger] L[j]).published,
            x.published,
        )
}

/// `x` is at most as recent as everything in `L`.
pub open spec fn below_all(L: Seq<FeedItemV>, x: FeedItemV) -> bool {
    forall|j: int| 0 <= j < L.len() ==> ge_published((#[trigger] L[j]).published, x.published)
}

/// A merged list absorbs `x`: either an entry of the same id at least
/// as recent covers it, or the list is full and `x` is older than all
/// of it.
pub open spec fn absorbs(L: Seq<FeedItemV>, x: FeedItemV, cap: nat) -> bool {
    covered_by(L, x) || (L.len() == cap && below_all(L, x))
}

/// Inserting absorbed elements into a full or covering list leaves the
/// list as the deduplicated prefix; only older leftovers can trail it,
/// and only when the list is full.
#[verifier::rlimit(100)]
#[verifier::spinoff_prover]
proof fn lemma_insert_all_absorbed(L: Seq<FeedItemV>, ns: Seq<FeedItemV>, cap: nat) -> (w: Seq<
    FeedItemV,
>)
    requires
        sorted_desc(L),
        distinct_ids(L),
        L.len() <= cap,
        forall|i: int| 0 <= i < ns.len() ==> absorbs(L, #[trigger] ns[i], cap),
    ensures
        sorted_desc(insert_seq(L, ns)),
        dedup_by_id(insert_seq(L, ns)) == L + w,
        w.len() == 0 || L.len() == cap,
    decreases ns.len(),
{
    let empty_seen = Set::<Seq<char>>::empty();
    if ns.len() == 0 {
        lemma_dedup_of_distinct(L, empty_seen);
        let w = Seq::<FeedItemV>::empty();
        assert(L + w =~= L);
        w
    } else {
        let ns1 = ns.drop_last();
        let x = ns.last();
        assert(forall|i: int| 0 <= i < ns1.len() ==> #[trigger] ns1[i] == ns[i]);
        assert(absorbs(L, x, cap));
        let w1 = lemma_insert_all_absorbed(L, ns1, cap);
        let m1 = insert_seq(L, ns1);
        let m2 = insert_seq(L, ns);
        assert(m2 == insert_desc(m1, x));
        lemma_insert_desc_sorted(m1, x);
        lemma_insert_desc_split(m1, x);
        let p = insert_point(m1, x);
        let a = m1.take(p);
        let b = m1.skip(p);
        assert(m1 =~= a + b);
        assert(m2 =~= a + (seq![x] + b));
        lemma_dedup_split(a, b, empty_seen);
        lemma_dedup_split(a, seq![x] + b, empty_seen);
        let seen_a = empty_seen.union(ids_of(a));
        let da = dedup_rec(a, empty_seen);
        let db = dedup_rec(b, seen_a);
        assert(dedup_by_id(m1) == da + db);
        assert(dedup_by_id(m2) == da + dedup_rec(seq![x] + b, seen_a));
        assert((seq![x] + b)[0] == x);
        assert((seq![x] + b).drop_first() =~= b);
        if seen_a.contains(x.id) {
            assert(dedup_rec(seq![x] + b, seen_a) == db);
            assert(dedup_by_id(m2) == L + w1);
            w1
        } else {
            // No covering entry exists: one would put x's id into the prefix.
            assert(!covered_by(L, x)) by {
                if covered_by(L, x) {
                    let j = choose|j: int|
                        0 <= j < L.len() && L[j].id == x.id && ge_published(
                            (#[trigger] L[j]).published,
                            x.published,
                        );
                    assert((L + w1)[j] == L[j]);
                    lemma_dedup_elements(m1, empty_seen);
                    assert(exists|i: int|
                        0 <= i < m1.len() && m1[i] == #[trigger] dedup_by_id(m1)[j]);
                    let i1 = choose|i1: int| 0 <= i1 < m1.len() && m1[i1] == dedup_by_id(m1)[j];
                    assert(m1[i1] == L[j]);
                    if i1 >= p {
                        assert(!ge_published(m1[p].published, x.published));
                        if i1 > p {
                            assert(ge_published(m1[p].published, m1[i1].published));
                            lemma_ge_trans(m1[p].published, m1[i1].published, x.published);
                        }
                        assert(false);
                    }
                    assert(a[i1] == m1[i1]);
                    assert(ids_of(a).contains(x.id));
                    assert(false);
                }
            }
            assert(L.len() == cap && below_all(L, x));
            // Everything of L surfaces before the insertion point.
            assert(da.len() >= L.len()) by {
                if da.len() < L.len() {
                    let k = da.len() as int;
                    assert((da + db)[k] == db[0]);
                    assert((L + w1)[k] == L[k]);
                    assert(db[0] == L[k]);
                    lemma_dedup_elements(b, seen_a);
                    assert(exists|i: int| 0 <= i < b.len() && b[i] == #[trigger] db[0]);
                    let i2 = choose|i2: int| 0 <= i2 < b.len() && b[i2] == db[0];
                    assert(b[i2] == m1[p + i2]);
                    assert(p < m1.len());
                    assert(!ge_published(m1[p].published, x.published));
                    assert(ge_published(L[k].published, x.published));
                    if p + i2 > p {
                        assert(ge_published(m1[p].published, m1[p + i2].published));
                        lemma_ge_trans(m1[p].published, m1[p + i2].published, x.published);
                    }
                    assert(false);
                }
            }
            // L is the prefix of the deduplicated prefix.
            let u = da.skip(L.len() as int);
            assert(da =~= L + u) by {
                assert forall|k: int| 0 <= k < da.len() implies da[k] == (L + u)[k] by {
                    if k < L.len() {
                        assert((da + db)[k] == da[k]);
                        assert((L + w1)[k] == L[k]);
                    } else {
                        assert(u[k - L.len()] == da[k]);
                    }
                }
            }
            let db2 = dedup_rec(b, seen_a.insert(x.id));
            assert(dedup_rec(seq![x] + b, seen_a) == seq![x] + db2);
            let w2 = u + (seq![x] + db2);
            assert(dedup_by_id(m2) =~= L + w2);
            assert(w2.len() > 0);
            w2
        }
    }
}

/// Idempotence law: merging the same batch again changes nothing —
/// the deduplication by id is stable under repetition.
#[verifier::rlimit(100)]
#[verifier::spinoff_prover]
pub proof fn lemma_merge_idempotent(e: Seq<FeedItemV>, n: Seq<FeedItemV>, cap: nat)
    ensures
        merge_spec(merge_spec(e, n, cap), n, cap) == merge_spec(e, n, cap),
{
    let empty_seen = Set::<Seq<char>>::empty();
    let s1 = sort_desc(e + n);
    lemma_sort_desc_sorted(e + n);
    let d = dedup_by_id(s1);
    lemma_dedup_sorted(s1, empty_seen);
    lemma_dedup_distinct(s1, empty_seen);
    let L = merge_spec(e, n, cap);
    assert(L == cap_items(d, cap));
    assert(sorted_desc(L) && distinct_ids(L) && L.len() <= cap) by {
        if d.len() > cap {
            assert forall|i: int, j: int| 0 <= i < j < L.len() implies ge_published(
                L[i].published,
                L[j].published,
            ) && L[i].id != L[j].id by {
                assert(L[i] == d[i]);
                assert(L[j] == d[j]);
            }
        }
    }
    assert forall|i: int| 0 <= i < n.len() implies absorbs(L, #[trigger] n[i], cap) by {
        lemma_sort_desc_concat(e, n);
        lemma_insert_seq_contains(sort_desc(e), n, i);
        let q = choose|q: int| 0 <= q < s1.len() && s1[q] == n[i];
        lemma_dedup_covers(s1, empty_seen);
        assert(exists|k: int|
            0 <= k < d.len() && d[k].id == s1[q].id && ge_published(
                #[trigger] d[k].published,
                s1[q].published,
            ));
        let k = choose|k: int|
            0 <= k < d.len() && d[k].id == s1[q].id && ge_published(
                #[trigger] d[k].published,
                s1[q].published,
            );
        if d.len() <= cap {
            assert(L == d);
            assert(L[k].id == n[i].id && ge_published(L[k].published, n[i].published));
            assert(covered_by(L, n[i]));
        } else if k < cap {
            assert(L[k] == d[k]);
            assert(covered_by(L, n[i]));
        } else {
            assert(L.len() == cap);
            assert forall|j: int| 0 <= j < L.len() implies ge_published(
                (#[trigger] L[j]).published,
                n[i].published,
            ) by {
                assert(L[j] == d[j]);
                assert(ge_published(d[j].published, d[k].published));
                lemma_ge_trans(d[j].published, d[k].published, n[i].published);
            }
            assert(below_all(L, n[i]));
        }
    }
    let w = lemma_insert_all_absorbed(L, n, cap);
    lemma_sort_desc_concat(L, n);
    lemma_sort_desc_of_sorted(L);
    assert(sort_desc(L + n) == insert_seq(L, n));
    assert(merge_spec(L, n, cap) == cap_items(L + w, cap));
    if w.len() == 0 {
        assert(L + w =~= L);
    } else {
        assert(L.len() == cap);
        assert((L + w).take(cap as int) =~= L);
    }
}

} // verus!
