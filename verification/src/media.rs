//! What the library decides about media enclosures: the file name a
//! download is stored under, derived from the enclosure's URL. The
//! opening and downloading themselves are the caller's I/O.

use vstd::prelude::*;

use crate::format::{chars_to_string, str_chars_vec};

verus! {

/// The text after the last slash; the whole text when there is none.
pub open spec fn after_last_slash(s: Seq<char>) -> Seq<char>
    decreases s.len(),
{
    if s.len() == 0 {
        Seq::<char>::empty()
    } else if s.last() == '/' {
        Seq::<char>::empty()
    } else {
        after_last_slash(s.drop_last()).push(s.last())
    }
}

/// The text before the first question mark; the whole text when there
/// is none.
pub open spec fn before_first_q(s: Seq<char>) -> Seq<char>
    decreases s.len(),
{
    if s.len() == 0 {
        Seq::<char>::empty()
    } else if s[0] == '?' {
        Seq::<char>::empty()
    } else {
        seq![s[0]] + before_first_q(s.drop_first())
    }
}

/// The file name a downloaded enclosure is stored under: the URL's
/// last path segment, cut at its query string.
pub open spec fn download_filename_spec(url: Seq<char>) -> Seq<char> {
    before_first_q(after_last_slash(url))
}

/// With no slash at or after `c` and a slash just before it, the text
/// after the last slash starts at `c`.
proof fn lemma_after_last_slash_at(s: Seq<char>, c: int)
    requires
        0 <= c <= s.len(),
        c == 0 || s[c - 1] == '/',
        forall|j: int| c <= j < s.len() ==> s[j] != '/',
    ensures
        after_last_slash(s) == s.skip(c),
    decreases s.len(),
{
    if s.len() == 0 {
        assert(after_last_slash(s) =~= s.skip(0));
    } else if s.last() == '/' {
        assert(c == s.len());
        assert(after_last_slash(s) =~= s.skip(c));
    } else {
        assert(c < s.len());
        let t = s.drop_last();
        assert(forall|j: int| c <= j < t.len() ==> #[trigger] t[j] == s[j]);
        if c > 0 {
            assert(t[c - 1] == s[c - 1]);
        }
        lemma_after_last_slash_at(t, c);
        assert(after_last_slash(s) =~= s.skip(c));
    }
}

/// With no question mark before `q` and one at it (or the end), the
/// text before the first question mark is the prefix up to `q`.
proof fn lemma_before_first_q_at(s: Seq<char>, q: int)
    requires
        0 <= q <= s.len(),
        q == s.len() || s[q] == '?',
        forall|j: int| 0 <= j < q ==> s[j] != '?',
    ensures
        before_first_q(s) == s.take(q),
    decreases s.len(),
{
    if s.len() == 0 {
        assert(before_first_q(s) =~= s.take(0));
    } else if s[0] == '?' {
        assert(q == 0);
        assert(before_first_q(s) =~= s.take(0));
    } else {
        assert(q >= 1);
        let t = s.drop_first();
        assert(forall|j: int| 0 <= j < t.len() ==> #[trigger] t[j] == s[j + 1]);
        lemma_before_first_q_at(t, q - 1);
        assert(seq![s[0]] + t.take(q - 1) =~= s.take(q));
    }
}

/// Derive the file name a downloaded enclosure is stored under.
pub fn download_filename(url: &str) -> (r: String)
    ensures
        r@ == download_filename_spec(url@),
{
    let v = str_chars_vec(url);
    let n = v.len();

    let mut cut: usize = 0;
    let mut i: usize = 0;
    while i < n
        invariant
            0 <= cut <= i <= n,
            n == v@.len(),
            v@ == url@,
            cut == 0 || v@[cut - 1] == '/',
            forall|j: int| cut <= j < i ==> v@[j] != '/',
        decreases n - i,
    {
        if v[i] == '/' {
            cut = i + 1;
        }
        i = i + 1;
    }
    proof {
        lemma_after_last_slash_at(url@, cut as int);
    }

    let mut q: usize = cut;
    while q < n && v[q] != '?'
        invariant
            cut <= q <= n,
            n == v@.len(),
            v@ == url@,
            forall|j: int| cut <= j < q ==> v@[j] != '?',
        decreases n - q,
    {
        q = q + 1;
    }
    let ghost seg = url@.skip(cut as int);
    proof {
        assert(forall|j: int| 0 <= j < q - cut ==> #[trigger] seg[j] == url@[j + cut]);
        if (q as int) < n {
            assert(seg[q - cut] == url@[q as int]);
        }
        lemma_before_first_q_at(seg, q - cut);
    }

    let mut out: Vec<char> = Vec::new();
    let mut k: usize = cut;
    while k < q
        invariant
            cut <= k <= q <= n,
            n == v@.len(),
            v@ == url@,
            out@ == url@.subrange(cut as int, k as int),
        decreases q - k,
    {
        out.push(v[k]);
        assert(out@ =~= url@.subrange(cut as int, k + 1 as int));
        k = k + 1;
    }
    proof {
        assert(url@.subrange(cut as int, q as int) =~= seg.take(q - cut));
    }
    chars_to_string(&out)
}

} // verus!
