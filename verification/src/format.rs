//! The article content formatter: raw markup in, readable fixed-width
//! plain text out. Absent, empty or text-free content yields the fixed
//! sentinel. The rendered text is trimmed and hard-wrapped so that no
//! line exceeds the effective width, which is floored at 40 columns.

use vstd::prelude::*;
use vstd::string::StrSliceExecFns;
use vstd::string::StringExecFns;

verus! {

/// What html2text renders for these characters at this width; `None`
/// when rendering fails.
pub uninterp spec fn rendered_html(html: Seq<char>, width: nat) -> Option<Seq<char>>;

/// Relies on html2text::from_read: the rendered text is a function of
/// the input characters and the width alone; an `Err` becomes `None`.
#[verifier::external_body]
fn render_html(html: &str, width: usize) -> (r: Option<String>)
    ensures
        r.deep_view() == rendered_html(html@, width as nat),
{
    html2text::from_read(html.as_bytes(), width).ok()
}

/// The sentinel shown when there is nothing to format.
pub open spec fn no_content() -> Seq<char> {
    "No content."@
}

/// A whitespace character, as the trimming step understands it.
pub open spec fn is_space_char(c: char) -> bool {
    c == ' ' || c == '\t' || c == '\n' || c == '\r' || c == '\u{000b}' || c == '\u{000c}'
        || c == '\u{0085}' || c == '\u{00a0}' || c == '\u{1680}' || c == '\u{2000}'
        || c == '\u{2001}' || c == '\u{2002}' || c == '\u{2003}' || c == '\u{2004}'
        || c == '\u{2005}' || c == '\u{2006}' || c == '\u{2007}' || c == '\u{2008}'
        || c == '\u{2009}' || c == '\u{200a}' || c == '\u{2028}' || c == '\u{2029}'
        || c == '\u{202f}' || c == '\u{205f}' || c == '\u{3000}'
}

/// How many whitespace characters lead the text.
pub open spec fn lead_ws(s: Seq<char>) -> int
    decreases s.len(),
{
    if s.len() == 0 {
        0
    } else if is_space_char(s[0]) {
        1 + lead_ws(s.drop_first())
    } else {
        0
    }
}

/// How many whitespace characters trail the text.
pub open spec fn tail_ws(s: Seq<char>) -> int
    decreases s.len(),
{
    if s.len() == 0 {
        0
    } else if is_space_char(s.last()) {
        1 + tail_ws(s.drop_last())
    } else {
        0
    }
}

/// The text without leading and trailing whitespace.
pub open spec fn trim_spec(s: Seq<char>) -> Seq<char> {
    if lead_ws(s) == s.len() {
        Seq::<char>::empty()
    } else {
        s.subrange(lead_ws(s), s.len() - tail_ws(s))
    }
}

/// Wrap text to `w` columns: emit characters, break at newlines, and
/// force a break whenever a line reaches `w` characters.
pub open spec fn hard_wrap(s: Seq<char>, w: nat, col: nat) -> Seq<char>
    decreases s.len(), col,
{
    if s.len() == 0 {
        Seq::<char>::empty()
    } else if s[0] == '\n' {
        seq!['\n'] + hard_wrap(s.drop_first(), w, 0)
    } else if col >= w && w >= 1 {
        seq!['\n'] + hard_wrap(s, w, 0)
    } else {
        seq![s[0]] + hard_wrap(s.drop_first(), w, (col + 1) as nat)
    }
}

/// The length of the first line: characters before the first newline.
pub open spec fn head_run(s: Seq<char>) -> nat
    decreases s.len(),
{
    if s.len() == 0 {
        0
    } else if s[0] == '\n' {
        0
    } else {
        (1 + head_run(s.drop_first())) as nat
    }
}

/// Every line of the text is at most `w` characters long.
pub open spec fn lines_within(s: Seq<char>, w: nat) -> bool
    decreases s.len(),
{
    head_run(s) <= w && (head_run(s) >= s.len() || lines_within(
        s.skip(head_run(s) as int + 1),
        w,
    ))
}

/// The first line is never longer than the text.
proof fn lemma_head_run_le_len(s: Seq<char>)
    ensures
        0 <= head_run(s) <= s.len(),
    decreases s.len(),
{
    if s.len() > 0 && s[0] != '\n' {
        lemma_head_run_le_len(s.drop_first());
    }
}

/// Hard wrapping keeps every line within `w`, and leaves at most
/// `w - col` characters on the line in progress.
proof fn lemma_hard_wrap_within(s: Seq<char>, w: nat, col: nat)
    requires
        1 <= w,
        col <= w,
    ensures
        head_run(hard_wrap(s, w, col)) <= w - col,
        lines_within(hard_wrap(s, w, col), w),
    decreases s.len(), col,
{
    let r = hard_wrap(s, w, col);
    lemma_head_run_le_len(r);
    if s.len() == 0 {
    } else if s[0] == '\n' {
        lemma_hard_wrap_within(s.drop_first(), w, 0);
        assert(r.skip(head_run(r) as int + 1) =~= hard_wrap(s.drop_first(), w, 0));
    } else if col >= w {
        lemma_hard_wrap_within(s, w, 0);
        assert(r.skip(head_run(r) as int + 1) =~= hard_wrap(s, w, 0));
    } else {
        lemma_hard_wrap_within(s.drop_first(), w, (col + 1) as nat);
        let r1 = hard_wrap(s.drop_first(), w, (col + 1) as nat);
        assert(r.drop_first() =~= r1);
        assert(head_run(r) == 1 + head_run(r1));
        if head_run(r) < r.len() {
            assert(r.skip(head_run(r) as int + 1) =~= r1.skip(head_run(r1) as int + 1));
            assert(head_run(r1) < r1.len());
        }
    }
}

/// What the formatter produces, as a function of the raw content and
/// the requested width.
pub open spec fn format_article_spec(content: Option<Seq<char>>, width: nat) -> Seq<char> {
    let w: nat = if width < 40 {
        40 as nat
    } else {
        width
    };
    match content {
        Option::None => no_content(),
        Option::Some(s) => if s.len() == 0 {
            no_content()
        } else {
            match rendered_html(s, w) {
                Option::None => no_content(),
                Option::Some(t) => {
                    let u = trim_spec(t);
                    if u.len() == 0 {
                        no_content()
                    } else {
                        hard_wrap(u, w, 0)
                    }
                },
            }
        },
    }
}

/// Relies on std's FromIterator for String: collecting characters
/// builds the string of exactly those characters.
#[verifier::external_body]
pub(crate) fn chars_to_string(v: &Vec<char>) -> (r: String)
    ensures
        r@ == v@,
{
    v.iter().collect()
}

/// The characters of a string slice, as a vector.
pub(crate) fn str_chars_vec(s: &str) -> (r: Vec<char>)
    ensures
        r@ == s@,
{
    let n = s.unicode_len();
    let mut r: Vec<char> = Vec::new();
    let mut i: usize = 0;
    while i < n
        invariant
            0 <= i <= n,
            n == s@.len(),
            r@ == s@.take(i as int),
        decreases n - i,
    {
        let c = s.get_char(i);
        r.push(c);
        assert(r@ =~= s@.take(i + 1 as int));
        i = i + 1;
    }
    assert(s@.take(n as int) =~= s@);
    r
}

/// Trim leading and trailing whitespace from a character vector.
pub(crate) fn trim_to_chars(v: &Vec<char>) -> (r: Vec<char>)
    ensures
        r@ == trim_spec(v@),
{
    let n = v.len();
    proof {
        assert(v@.skip(0) =~= v@);
        assert(v@.take(n as int) =~= v@);
    }
    let mut a: usize = 0;
    while a < n && is_space(v[a])
        invariant
            0 <= a <= n,
            n == v@.len(),
            lead_ws(v@) == a + lead_ws(v@.skip(a as int)),
        decreases n - a,
    {
        proof {
            let rest = v@.skip(a as int);
            assert(rest[0] == v@[a as int]);
            assert(rest.drop_first() =~= v@.skip(a + 1));
        }
        a = a + 1;
    }
    proof {
        if a < n {
            let rest = v@.skip(a as int);
            assert(rest[0] == v@[a as int]);
            assert(lead_ws(rest) == 0);
        } else {
            assert(v@.skip(n as int) =~= Seq::<char>::empty());
        }
        assert(lead_ws(v@) == a);
    }
    if a == n {
        let r: Vec<char> = Vec::new();
        assert(r@ =~= trim_spec(v@));
        return r;
    }
    proof {
        assert(v@.take(n as int) =~= v@);
    }
    let mut b: usize = n;
    while b > a && is_space(v[b - 1])
        invariant
            a < b <= n,
            n == v@.len(),
            a == lead_ws(v@),
            a < n,
            !is_space_char(v@[a as int]),
            tail_ws(v@) == (n - b) + tail_ws(v@.take(b as int)),
        decreases b,
    {
        proof {
            if b == a + 1 {
                assert(v@[b - 1] == v@[a as int]);
                assert(false);
            }
        }
        proof {
            let part = v@.take(b as int);
            assert(part.last() == v@[b - 1]);
            assert(part.drop_last() =~= v@.take(b - 1));
        }
        b = b - 1;
    }
    proof {
        let part = v@.take(b as int);
        assert(part.last() == v@[b - 1]);
        assert(tail_ws(part) == 0);
        assert(tail_ws(v@) == n - b);
    }
    let mut r: Vec<char> = Vec::new();
    let mut i: usize = a;
    while i < b
        invariant
            a <= i <= b <= n,
            n == v@.len(),
            r@ == v@.subrange(a as int, i as int),
        decreases b - i,
    {
        r.push(v[i]);
        assert(r@ =~= v@.subrange(a as int, i + 1 as int));
        i = i + 1;
    }
    proof {
        assert(r@ =~= trim_spec(v@));
    }
    r
}

/// Is this a whitespace character?
fn is_space(c: char) -> (r: bool)
    ensures
        r == is_space_char(c),
{
    c == ' ' || c == '\t' || c == '\n' || c == '\r' || c == '\u{000b}' || c == '\u{000c}'
        || c == '\u{0085}' || c == '\u{00a0}' || c == '\u{1680}' || c == '\u{2000}'
        || c == '\u{2001}' || c == '\u{2002}' || c == '\u{2003}' || c == '\u{2004}'
        || c == '\u{2005}' || c == '\u{2006}' || c == '\u{2007}' || c == '\u{2008}'
        || c == '\u{2009}' || c == '\u{200a}' || c == '\u{2028}' || c == '\u{2029}'
        || c == '\u{202f}' || c == '\u{205f}' || c == '\u{3000}'
}

/// Hard-wrap a character vector to `w` columns.
fn hard_wrap_chars(v: &Vec<char>, w: usize) -> (r: Vec<char>)
    requires
        1 <= w,
    ensures
        r@ == hard_wrap(v@, w as nat, 0),
{
    let mut r: Vec<char> = Vec::new();
    let mut i: usize = 0;
    let mut col: usize = 0;
    proof {
        assert(v@.skip(0) =~= v@);
    }
    while i < v.len()
        invariant
            0 <= i <= v@.len(),
            0 <= col <= w,
            1 <= w,
            hard_wrap(v@, w as nat, 0) == r@ + hard_wrap(v@.skip(i as int), w as nat, col as nat),
        decreases v@.len() - i, col,
    {
        let ghost rest = v@.skip(i as int);
        proof {
            assert(rest[0] == v@[i as int]);
            assert(rest.drop_first() =~= v@.skip(i + 1));
        }
        let c = v[i];
        if c == '\n' {
            r.push('\n');
            i = i + 1;
            col = 0;
            assert(r@ + hard_wrap(v@.skip(i as int), w as nat, 0) =~= hard_wrap(
                v@,
                w as nat,
                0,
            ));
        } else if col >= w {
            r.push('\n');
            col = 0;
            assert(r@ + hard_wrap(v@.skip(i as int), w as nat, 0) =~= hard_wrap(
                v@,
                w as nat,
                0,
            ));
        } else {
            r.push(c);
            i = i + 1;
            col = col + 1;
            assert(r@ + hard_wrap(v@.skip(i as int), w as nat, col as nat) =~= hard_wrap(
                v@,
                w as nat,
                0,
            ));
        }
    }
    proof {
        assert(v@.skip(v@.len() as int) =~= Seq::<char>::empty());
    }
    r
}

/// Format article content for display: markup becomes plain text
/// wrapped to `width` columns (floored at 40); absent, empty or
/// text-free content becomes the sentinel text.
pub fn format_article(html: Option<&str>, width: usize) -> (r: String)
    ensures
        r@ == format_article_spec(html.deep_view(), width as nat),
{
    let w: usize = if width < 40 {
        40
    } else {
        width
    };
    match html {
        Option::None => String::from_str("No content."),
        Option::Some(s) => {
            if s.unicode_len() == 0 {
                String::from_str("No content.")
            } else {
                match render_html(s, w) {
                    Option::None => String::from_str("No content."),
                    Option::Some(t) => {
                        let chars = str_chars_vec(t.as_str());
                        let trimmed = trim_to_chars(&chars);
                        if trimmed.len() == 0 {
                            String::from_str("No content.")
                        } else {
                            let wrapped = hard_wrap_chars(&trimmed, w);
                            chars_to_string(&wrapped)
                        }
                    },
                }
            }
        },
    }
}

/// Totality law: absent and empty content both format to the sentinel,
/// whatever the width.
pub proof fn lemma_formatter_totality(width: nat)
    ensures
        format_article_spec(Option::None, width) == no_content(),
        format_article_spec(Option::Some(Seq::<char>::empty()), width) == no_content(),
{
}

/// Width law: no line of any formatted article exceeds the effective
/// width, which is the requested width floored at 40.
pub proof fn lemma_formatter_width(content: Option<Seq<char>>, width: nat)
    ensures
        lines_within(
            format_article_spec(content, width),
            if width < 40 {
                40 as nat
            } else {
                width
            },
        ),
{
    let w: nat = if width < 40 {
        40 as nat
    } else {
        width
    };
    assert(lines_within(no_content(), w)) by {
        reveal_strlit("No content.");
        assert(no_content().len() == 11);
        lemma_head_run_le_len(no_content());
        if head_run(no_content()) < 11 {
            assert(lines_within(no_content().skip(head_run(no_content()) as int + 1), w)) by {
                lemma_lines_within_short(no_content().skip(head_run(no_content()) as int + 1), w);
            }
        }
    }
    match content {
        Option::None => {},
        Option::Some(s) => {
            if s.len() > 0 {
                match rendered_html(s, w) {
                    Option::None => {},
                    Option::Some(t) => {
                        let u = trim_spec(t);
                        if u.len() > 0 {
                            lemma_hard_wrap_within(u, w, 0);
                        }
                    },
                }
            }
        },
    }
}

/// Any text shorter than the width has all lines within it.
proof fn lemma_lines_within_short(s: Seq<char>, w: nat)
    requires
        s.len() <= w,
    ensures
        lines_within(s, w),
    decreases s.len(),
{
    lemma_head_run_le_len(s);
    if head_run(s) < s.len() {
        lemma_lines_within_short(s.skip(head_run(s) as int + 1), w);
    }
}

} // verus!
