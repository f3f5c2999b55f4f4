//! JSON text primitives for the snapshot codec: string escaping, string
//! parsing, decimal numbers and literal matching, each with the lemma
//! that parsing undoes writing.

use vstd::prelude::*;
use vstd::string::StrSliceExecFns;

verus! {

/// The hexadecimal digit character for `n` (lower case).
pub open spec fn hex_digit_char(n: int) -> char {
    if n == 0 { '0' } else if n == 1 { '1' } else if n == 2 { '2' } else if n == 3 { '3' }
    else if n == 4 { '4' } else if n == 5 { '5' } else if n == 6 { '6' } else if n == 7 { '7' }
    else if n == 8 { '8' } else if n == 9 { '9' } else if n == 10 { 'a' } else if n == 11 { 'b' }
    else if n == 12 { 'c' } else if n == 13 { 'd' } else if n == 14 { 'e' } else { 'f' }
}

/// The value of a hexadecimal digit character; -1 if it is none.
pub open spec fn hex_val(c: char) -> int {
    if c == '0' { 0 } else if c == '1' { 1 } else if c == '2' { 2 } else if c == '3' { 3 }
    else if c == '4' { 4 } else if c == '5' { 5 } else if c == '6' { 6 } else if c == '7' { 7 }
    else if c == '8' { 8 } else if c == '9' { 9 } else if c == 'a' { 10 } else if c == 'b' { 11 }
    else if c == 'c' { 12 } else if c == 'd' { 13 } else if c == 'e' { 14 } else if c == 'f' { 15 }
    else { -1 }
}

/// How one character is written inside a JSON string: quote and
/// backslash get a backslash escape, control characters a `\u00XY`
/// escape, everything else stands as itself.
pub open spec fn esc_char(c: char) -> Seq<char> {
    if c == '"' {
        seq!['\\', '"']
    } else if c == '\\' {
        seq!['\\', '\\']
    } else if (c as u32) < 32 {
        seq!['\\', 'u', '0', '0', hex_digit_char(c as u32 as int / 16), hex_digit_char(
            c as u32 as int % 16,
        )]
    } else {
        seq![c]
    }
}

/// A whole string, escaped for a JSON string literal.
pub open spec fn json_escaped(s: Seq<char>) -> Seq<char>
    decreases s.len(),
{
    if s.len() == 0 {
        Seq::<char>::empty()
    } else {
        esc_char(s[0]) + json_escaped(s.drop_first())
    }
}

/// Escaping one more character appends its escape.
pub proof fn lemma_json_escaped_snoc(s: Seq<char>, c: char)
    ensures
        json_escaped(s.push(c)) == json_escaped(s) + esc_char(c),
    decreases s.len(),
{
    if s.len() == 0 {
        assert(s.push(c)[0] == c);
        assert(s.push(c).drop_first() =~= Seq::<char>::empty());
        assert(json_escaped(Seq::<char>::empty()) == Seq::<char>::empty());
        assert(json_escaped(s.push(c)) == esc_char(c) + json_escaped(Seq::<char>::empty()));
        assert(json_escaped(s.push(c)) =~= json_escaped(s) + esc_char(c));
    } else {
        assert(s.push(c).drop_first() =~= s.drop_first().push(c));
        lemma_json_escaped_snoc(s.drop_first(), c);
        assert(s.push(c)[0] == s[0]);
        assert(json_escaped(s.push(c)) =~= json_escaped(s) + esc_char(c));
    }
}

/// The character with this code point, for codes below 32.
pub open spec fn ctrl_char_table(n: int) -> char {
    if false { '\u{0}' }
    else if n == 0 { '\u{0}' }
    else if n == 1 { '\u{1}' }
    else if n == 2 { '\u{2}' }
    else if n == 3 { '\u{3}' }
    else if n == 4 { '\u{4}' }
    else if n == 5 { '\u{5}' }
    else if n == 6 { '\u{6}' }
    else if n == 7 { '\u{7}' }
    else if n == 8 { '\u{8}' }
    else if n == 9 { '\u{9}' }
    else if n == 10 { '\u{a}' }
    else if n == 11 { '\u{b}' }
    else if n == 12 { '\u{c}' }
    else if n == 13 { '\u{d}' }
    else if n == 14 { '\u{e}' }
    else if n == 15 { '\u{f}' }
    else if n == 16 { '\u{10}' }
    else if n == 17 { '\u{11}' }
    else if n == 18 { '\u{12}' }
    else if n == 19 { '\u{13}' }
    else if n == 20 { '\u{14}' }
    else if n == 21 { '\u{15}' }
    else if n == 22 { '\u{16}' }
    else if n == 23 { '\u{17}' }
    else if n == 24 { '\u{18}' }
    else if n == 25 { '\u{19}' }
    else if n == 26 { '\u{1a}' }
    else if n == 27 { '\u{1b}' }
    else if n == 28 { '\u{1c}' }
    else if n == 29 { '\u{1d}' }
    else if n == 30 { '\u{1e}' }
    else if n == 31 { '\u{1f}' }
    else { '\u{0}' }
}

/// The control character with this hex-encoded code.
pub open spec fn ctrl_char_of(hi: char, lo: char) -> char {
    ctrl_char_table(16 * hex_val(hi) + hex_val(lo))
}

/// Parse a JSON string body (after the opening quote) up to and over
/// the closing quote, returning the contents and the remainder. Only
/// the escapes the writer emits are accepted.
pub open spec fn parse_string_body(s: Seq<char>) -> Option<(Seq<char>, Seq<char>)>
    decreases s.len(),
{
    if s.len() == 0 {
        Option::None
    } else if s[0] == '"' {
        Option::Some((Seq::<char>::empty(), s.drop_first()))
    } else if s[0] == '\\' {
        if s.len() < 2 {
            Option::None
        } else if s[1] == '"' || s[1] == '\\' {
            match parse_string_body(s.skip(2)) {
                Option::None => Option::None,
                Option::Some((t, r)) => Option::Some((seq![s[1]] + t, r)),
            }
        } else if s[1] == 'u' {
            if s.len() >= 6 && s[2] == '0' && s[3] == '0' && (s[4] == '0' || s[4] == '1')
                && hex_val(s[5]) >= 0 {
                match parse_string_body(s.skip(6)) {
                    Option::None => Option::None,
                    Option::Some((t, r)) => Option::Some((seq![ctrl_char_of(s[4], s[5])] + t, r)),
                }
            } else {
                Option::None
            }
        } else {
            Option::None
        }
    } else {
        match parse_string_body(s.drop_first()) {
            Option::None => Option::None,
            Option::Some((t, r)) => Option::Some((seq![s[0]] + t, r)),
        }
    }
}

/// A control character is recovered from its two hex digits.
proof fn lemma_ctrl_char(c: char)
    requires
        (c as u32) < 32,
    ensures
        ctrl_char_of(
            hex_digit_char(c as u32 as int / 16),
            hex_digit_char(c as u32 as int % 16),
        ) == c,
{
    let code = c as u32 as int;
    assert(0 <= code < 32);
    assert(hex_val(hex_digit_char(code / 16)) == code / 16);
    assert(hex_val(hex_digit_char(code % 16)) == code % 16);
    assert(16 * (code / 16) + code % 16 == code);
    let ch = ctrl_char_table(code);
    assert(ch as u32 as int == code);
    assert(ch == c);
}

/// Parsing a written string yields the original contents and leaves the
/// remainder untouched.
pub proof fn lemma_parse_escaped(x: Seq<char>, rest: Seq<char>)
    ensures
        parse_string_body(json_escaped(x) + seq!['"'] + rest) == Option::Some((x, rest)),
    decreases x.len(),
{
    let s = json_escaped(x) + seq!['"'] + rest;
    if x.len() == 0 {
        assert(s =~= seq!['"'] + rest);
        assert(s.drop_first() =~= rest);
    } else {
        let c = x[0];
        let x1 = x.drop_first();
        lemma_parse_escaped(x1, rest);
        let s1 = json_escaped(x1) + seq!['"'] + rest;
        assert(json_escaped(x) == esc_char(c) + json_escaped(x1));
        if c == '"' || c == '\\' {
            assert(s[0] == '\\');
            assert(s[1] == c);
            assert(s.skip(2) =~= s1);
            assert(seq![s[1]] + x1 =~= x);
        } else if (c as u32) < 32 {
            let code = c as u32 as int;
            let hi = hex_digit_char(code / 16);
            let lo = hex_digit_char(code % 16);
            assert(s[0] == '\\');
            assert(s[1] == 'u');
            assert(s[2] == '0');
            assert(s[3] == '0');
            assert(s[4] == hi);
            assert(s[5] == lo);
            assert(hi == '0' || hi == '1');
            assert(hex_val(lo) >= 0);
            assert(s.skip(6) =~= s1);
            assert(16 * hex_val(hi) + hex_val(lo) == code);
            lemma_ctrl_char(c);
            assert(ctrl_char_of(hi, lo) == c);
            assert(seq![ctrl_char_of(s[4], s[5])] + x1 =~= x);
        } else {
            assert(s[0] == c);
            assert(s[0] != '"' && s[0] != '\\');
            assert(s.drop_first() =~= s1);
            assert(seq![s[0]] + x1 =~= x);
        }
    }
}

/// The decimal digit character for `n`.
pub open spec fn dec_digit_char(n: int) -> char {
    hex_digit_char(if 0 <= n < 10 { n } else { 0 })
}

/// The value of a decimal digit character; -1 if it is none.
pub open spec fn dec_val(c: char) -> int {
    if hex_val(c) < 10 { hex_val(c) } else { -1 }
}

/// The decimal digits of `n`, most significant first.
pub open spec fn dec_digits(n: nat) -> Seq<char>
    decreases n,
{
    if n < 10 {
        seq![dec_digit_char(n as int)]
    } else {
        dec_digits(n / 10) + seq![dec_digit_char((n % 10) as int)]
    }
}

/// Powers of ten.
pub open spec fn pow10(k: nat) -> nat
    decreases k,
{
    if k == 0 {
        1
    } else {
        10 * pow10((k - 1) as nat)
    }
}

/// How many digits `n` is written with.
pub open spec fn num_digits(n: nat) -> nat
    decreases n,
{
    if n < 10 {
        1
    } else {
        1 + num_digits(n / 10)
    }
}

/// Greedily consume leading digits into an accumulator.
pub open spec fn parse_nat_rec(s: Seq<char>, acc: nat) -> (nat, Seq<char>)
    decreases s.len(),
{
    if s.len() > 0 && dec_val(s[0]) >= 0 {
        parse_nat_rec(s.drop_first(), (acc * 10 + dec_val(s[0])) as nat)
    } else {
        (acc, s)
    }
}

/// Parse a decimal number: at least one digit, consumed greedily.
pub open spec fn parse_nat(s: Seq<char>) -> Option<(nat, Seq<char>)> {
    if s.len() > 0 && dec_val(s[0]) >= 0 {
        Option::Some(parse_nat_rec(s, 0))
    } else {
        Option::None
    }
}

/// Written digits feed the accumulator exactly as the number says.
proof fn lemma_parse_nat_rec(n: nat, rest: Seq<char>, acc: nat)
    ensures
        parse_nat_rec(dec_digits(n) + rest, acc) == parse_nat_rec(
            rest,
            acc * pow10(num_digits(n)) + n,
        ),
    decreases n,
{
    let s = dec_digits(n) + rest;
    if n < 10 {
        assert(s[0] == dec_digit_char(n as int));
        assert(dec_val(s[0]) == n);
        assert(s.drop_first() =~= rest);
        assert(pow10(0) == 1);
        assert(pow10(1) == 10);
        assert(num_digits(n) == 1);
    } else {
        let d = dec_digit_char((n % 10) as int);
        assert(dec_digits(n) + rest =~= dec_digits(n / 10) + (seq![d] + rest));
        lemma_parse_nat_rec(n / 10, seq![d] + rest, acc);
        let acc1 = acc * pow10(num_digits(n / 10)) + n / 10;
        assert((seq![d] + rest)[0] == d);
        assert(dec_val(d) == n % 10);
        assert((seq![d] + rest).drop_first() =~= rest);
        assert(parse_nat_rec(seq![d] + rest, acc1) == parse_nat_rec(
            rest,
            (acc1 * 10 + n % 10) as nat,
        ));
        assert(acc1 * 10 + n % 10 == acc * pow10(num_digits(n)) + n) by {
            let k = num_digits(n / 10);
            assert(pow10(num_digits(n)) == 10 * pow10(k));
            assert((acc * pow10(k) + n / 10) * 10 == acc * (10 * pow10(k)) + (n / 10) * 10)
                by (nonlinear_arith);
            assert((n / 10) * 10 + n % 10 == n) by (nonlinear_arith);
        }
    }
}

/// Every written digit is a digit.
proof fn lemma_dec_digits_digits(n: nat)
    ensures
        dec_digits(n).len() >= 1,
        forall|k: int| 0 <= k < dec_digits(n).len() ==> dec_val(#[trigger] dec_digits(n)[k]) >= 0,
    decreases n,
{
    if n >= 10 {
        lemma_dec_digits_digits(n / 10);
        assert forall|k: int| 0 <= k < dec_digits(n).len() implies dec_val(
            #[trigger] dec_digits(n)[k],
        ) >= 0 by {
            if k < dec_digits(n / 10).len() {
                assert(dec_digits(n)[k] == dec_digits(n / 10)[k]);
            } else {
                assert(dec_digits(n)[k] == dec_digit_char((n % 10) as int));
            }
        }
    }
}

/// A written number starts with a digit.
pub proof fn lemma_dec_digits_first(n: nat)
    ensures
        dec_digits(n).len() >= 1,
        dec_val(dec_digits(n)[0]) >= 0,
{
    lemma_dec_digits_digits(n);
}

/// Parsing a written number yields it back, when what follows is not a
/// digit.
pub proof fn lemma_parse_nat(n: nat, rest: Seq<char>)
    requires
        rest.len() == 0 || dec_val(rest[0]) < 0,
    ensures
        parse_nat(dec_digits(n) + rest) == Option::Some((n, rest)),
{
    lemma_dec_digits_digits(n);
    let s = dec_digits(n) + rest;
    assert(s[0] == dec_digits(n)[0]);
    lemma_parse_nat_rec(n, rest, 0);
    assert(0 * pow10(num_digits(n)) == 0) by (nonlinear_arith);
    assert(parse_nat_rec(rest, n) == (n, rest));
}

/// A string value as JSON text: quoted and escaped.
pub open spec fn enc_str_view(s: Seq<char>) -> Seq<char> {
    seq!['"'] + json_escaped(s) + seq!['"']
}

/// Text free of quotes, backslashes and control characters: it stands
/// in a JSON string as itself.
pub open spec fn json_plain(s: Seq<char>) -> bool {
    forall|k: int|
        0 <= k < s.len() ==> s[k] != '"' && s[k] != '\\' && (#[trigger] s[k]) as u32 >= 32
}

/// Escaping plain text changes nothing.
pub proof fn lemma_json_escaped_plain(s: Seq<char>)
    requires
        json_plain(s),
    ensures
        json_escaped(s) == s,
    decreases s.len(),
{
    if s.len() > 0 {
        assert(forall|k: int|
            0 <= k < s.drop_first().len() ==> (#[trigger] s.drop_first()[k]) == s[k + 1]);
        lemma_json_escaped_plain(s.drop_first());
        assert(esc_char(s[0]) == seq![s[0]]);
        assert(json_escaped(s) =~= s);
    }
}

/// Concatenation of texts associates.
pub proof fn lemma_assoc(a: Seq<char>, b: Seq<char>, c: Seq<char>)
    ensures
        (a + b) + c == a + (b + c),
{
    assert((a + b) + c =~= a + (b + c));
}

/// Match a fixed literal at the front of the text.
pub open spec fn expect(s: Seq<char>, lit: Seq<char>) -> Option<Seq<char>> {
    if lit.len() <= s.len() && s.take(lit.len() as int) == lit {
        Option::Some(s.skip(lit.len() as int))
    } else {
        Option::None
    }
}

/// A literal at the front always matches, leaving the rest.
pub proof fn lemma_expect(lit: Seq<char>, rest: Seq<char>)
    ensures
        expect(lit + rest, lit) == Option::Some(rest),
{
    assert((lit + rest).take(lit.len() as int) =~= lit);
    assert((lit + rest).skip(lit.len() as int) =~= rest);
}

/// The hexadecimal digit character for `n`.
fn hex_char(n: u32) -> (r: char)
    requires
        n < 16,
    ensures
        r == hex_digit_char(n as int),
{
    if n == 0 { '0' } else if n == 1 { '1' } else if n == 2 { '2' } else if n == 3 { '3' }
    else if n == 4 { '4' } else if n == 5 { '5' } else if n == 6 { '6' } else if n == 7 { '7' }
    else if n == 8 { '8' } else if n == 9 { '9' } else if n == 10 { 'a' } else if n == 11 { 'b' }
    else if n == 12 { 'c' } else if n == 13 { 'd' } else if n == 14 { 'e' } else { 'f' }
}

/// The value of a hexadecimal digit character, or -1.
fn hex_val_of(c: char) -> (r: i32)
    ensures
        r as int == hex_val(c),
{
    if c == '0' { 0 } else if c == '1' { 1 } else if c == '2' { 2 } else if c == '3' { 3 }
    else if c == '4' { 4 } else if c == '5' { 5 } else if c == '6' { 6 } else if c == '7' { 7 }
    else if c == '8' { 8 } else if c == '9' { 9 } else if c == 'a' { 10 } else if c == 'b' { 11 }
    else if c == 'c' { 12 } else if c == 'd' { 13 } else if c == 'e' { 14 } else if c == 'f' { 15 }
    else { -1 }
}

/// The control character with this code, for codes below 32.
fn ctrl_char(code: u32) -> (r: char)
    requires
        code < 32,
    ensures
        r == ctrl_char_table(code as int),
{
    if code == 0 { '\u{0}' } else if code == 1 { '\u{1}' } else if code == 2 { '\u{2}' }
    else if code == 3 { '\u{3}' } else if code == 4 { '\u{4}' } else if code == 5 { '\u{5}' }
    else if code == 6 { '\u{6}' } else if code == 7 { '\u{7}' } else if code == 8 { '\u{8}' }
    else if code == 9 { '\u{9}' } else if code == 10 { '\u{a}' } else if code == 11 { '\u{b}' }
    else if code == 12 { '\u{c}' } else if code == 13 { '\u{d}' } else if code == 14 { '\u{e}' }
    else if code == 15 { '\u{f}' } else if code == 16 { '\u{10}' } else if code == 17 { '\u{11}' }
    else if code == 18 { '\u{12}' } else if code == 19 { '\u{13}' } else if code == 20 { '\u{14}' }
    else if code == 21 { '\u{15}' } else if code == 22 { '\u{16}' } else if code == 23 { '\u{17}' }
    else if code == 24 { '\u{18}' } else if code == 25 { '\u{19}' } else if code == 26 { '\u{1a}' }
    else if code == 27 { '\u{1b}' } else if code == 28 { '\u{1c}' } else if code == 29 { '\u{1d}' }
    else if code == 30 { '\u{1e}' } else { '\u{1f}' }
}

/// Append one character's JSON escape.
fn push_esc_char(out: &mut Vec<char>, c: char)
    ensures
        final(out)@ == old(out)@ + esc_char(c),
{
    if c == '"' {
        out.push('\\');
        out.push('"');
        assert(out@ =~= old(out)@ + esc_char(c));
    } else if c == '\\' {
        out.push('\\');
        out.push('\\');
        assert(out@ =~= old(out)@ + esc_char(c));
    } else {
        let code: u32 = c as u32;
        if code < 32 {
            out.push('\\');
            out.push('u');
            out.push('0');
            out.push('0');
            out.push(hex_char(code / 16));
            out.push(hex_char(code % 16));
            assert(out@ =~= old(out)@ + esc_char(c));
        } else {
            out.push(c);
            assert(out@ =~= old(out)@ + esc_char(c));
        }
    }
}

/// Append a whole JSON string literal, quotes included.
pub fn push_json_string(out: &mut Vec<char>, s: &str)
    ensures
        final(out)@ == old(out)@ + seq!['"'] + json_escaped(s@) + seq!['"'],
{
    let n = s.unicode_len();
    out.push('"');
    let ghost base = out@;
    proof {
        assert(s@.take(0) =~= Seq::<char>::empty());
        assert(base + json_escaped(s@.take(0)) =~= base);
    }
    let mut i: usize = 0;
    while i < n
        invariant
            0 <= i <= n,
            n == s@.len(),
            out@ == base + json_escaped(s@.take(i as int)),
        decreases n - i,
    {
        let c = s.get_char(i);
        push_esc_char(out, c);
        proof {
            assert(s@.take(i + 1 as int) =~= s@.take(i as int).push(c));
            lemma_json_escaped_snoc(s@.take(i as int), c);
            assert(out@ =~= base + json_escaped(s@.take(i + 1 as int)));
        }
        i = i + 1;
    }
    proof {
        assert(s@.take(n as int) =~= s@);
    }
    out.push('"');
    proof {
        assert(out@ =~= old(out)@ + seq!['"'] + json_escaped(s@) + seq!['"']);
    }
}

/// The decimal digit character for `n`.
fn dec_char(n: u64) -> (r: char)
    requires
        n < 10,
    ensures
        r == dec_digit_char(n as int),
{
    hex_char(n as u32)
}

/// Append the decimal digits of `n`.
pub fn push_u64(out: &mut Vec<char>, n: u64)
    ensures
        final(out)@ == old(out)@ + dec_digits(n as nat),
    decreases n,
{
    if n < 10 {
        out.push(dec_char(n));
        assert(out@ =~= old(out)@ + dec_digits(n as nat));
    } else {
        push_u64(out, n / 10);
        out.push(dec_char(n % 10));
        assert(dec_digits(n as nat) == dec_digits(n as nat / 10) + seq![dec_digit_char(
            (n % 10) as int,
        )]);
        assert(out@ =~= old(out)@ + dec_digits(n as nat));
    }
}

/// Match a literal at `pos`; on success the index after it.
pub fn p_lit(v: &Vec<char>, pos: usize, lit: &str) -> (r: Option<usize>)
    requires
        pos <= v@.len(),
    ensures
        match r {
            Option::Some(p2) => pos <= p2 <= v@.len() && expect(v@.skip(pos as int), lit@)
                == Option::Some(v@.skip(p2 as int)),
            Option::None => expect(v@.skip(pos as int), lit@) is None,
        },
{
    let ghost s = v@.skip(pos as int);
    let n = lit.unicode_len();
    if n > v.len() - pos {
        return Option::None;
    }
    let mut i: usize = 0;
    while i < n
        invariant
            0 <= i <= n,
            n == lit@.len(),
            pos + n <= v@.len(),
            v@.len() <= usize::MAX,
            s == v@.skip(pos as int),
            forall|k: int| 0 <= k < i ==> s[k] == lit@[k],
        decreases n - i,
    {
        let a = v[pos + i];
        let b = lit.get_char(i);
        proof {
            assert(s[i as int] == v@[pos + i]);
        }
        if a != b {
            proof {
                if expect(s, lit@) is Some {
                    assert(s.take(n as int) == lit@);
                    assert(s.take(n as int)[i as int] == lit@[i as int]);
                }
            }
            return Option::None;
        }
        i = i + 1;
    }
    proof {
        assert(s.take(n as int) =~= lit@);
        assert(s.skip(n as int) =~= v@.skip(pos + n));
    }
    Option::Some(pos + n)
}

/// Parse a JSON string at `pos` (at the opening quote's contents, i.e.
/// `pos` is just past the opening quote).
pub fn p_string(v: &Vec<char>, pos: usize) -> (r: Option<(Vec<char>, usize)>)
    requires
        pos <= v@.len(),
    ensures
        match r {
            Option::Some(t) => pos <= t.1 <= v@.len() && parse_string_body(v@.skip(pos as int))
                == Option::Some((t.0@, v@.skip(t.1 as int))),
            Option::None => parse_string_body(v@.skip(pos as int)) is None,
        },
    decreases v@.len() - pos,
{
    let ghost s = v@.skip(pos as int);
    if pos == v.len() {
        return Option::None;
    }
    let c = v[pos];
    proof {
        assert(s[0] == v@[pos as int]);
        assert(s.drop_first() =~= v@.skip(pos + 1));
    }
    if c == '"' {
        let cs: Vec<char> = Vec::new();
        assert(cs@ =~= Seq::<char>::empty());
        return Option::Some((cs, pos + 1));
    }
    if c == '\\' {
        if pos + 1 == v.len() {
            return Option::None;
        }
        let e = v[pos + 1];
        proof {
            assert(s[1] == v@[pos + 1]);
        }
        if e == '"' || e == '\\' {
            proof {
                assert(s.skip(2) =~= v@.skip(pos + 2));
            }
            match p_string(v, pos + 2) {
                Option::None => Option::None,
                Option::Some((t, p2)) => {
                    let mut cs: Vec<char> = Vec::new();
                    cs.push(e);
                    let mut t2 = t;
                    let ghost tview = t2@;
                    cs.append(&mut t2);
                    proof {
                        assert(cs@ =~= seq![s[1]] + tview);
                    }
                    Option::Some((cs, p2))
                },
            }
        } else if e == 'u' {
            if v.len() - pos < 6 {
                return Option::None;
            }
            let d2 = v[pos + 2];
            let d3 = v[pos + 3];
            let hi = v[pos + 4];
            let lo = v[pos + 5];
            proof {
                assert(s[2] == v@[pos + 2]);
                assert(s[3] == v@[pos + 3]);
                assert(s[4] == v@[pos + 4]);
                assert(s[5] == v@[pos + 5]);
            }
            if d2 != '0' || d3 != '0' || !(hi == '0' || hi == '1') {
                return Option::None;
            }
            let lv = hex_val_of(lo);
            if lv < 0 {
                return Option::None;
            }
            let hv = hex_val_of(hi);
            let code: u32 = 16 * (hv as u32) + (lv as u32);
            let ch = ctrl_char(code);
            proof {
                assert(ch == ctrl_char_of(hi, lo));
                assert(s.skip(6) =~= v@.skip(pos + 6));
            }
            match p_string(v, pos + 6) {
                Option::None => Option::None,
                Option::Some((t, p2)) => {
                    let mut cs: Vec<char> = Vec::new();
                    cs.push(ch);
                    let mut t2 = t;
                    let ghost tview = t2@;
                    cs.append(&mut t2);
                    proof {
                        assert(cs@ =~= seq![ctrl_char_of(s[4], s[5])] + tview);
                    }
                    Option::Some((cs, p2))
                },
            }
        } else {
            Option::None
        }
    } else {
        match p_string(v, pos + 1) {
            Option::None => Option::None,
            Option::Some((t, p2)) => {
                let mut cs: Vec<char> = Vec::new();
                cs.push(c);
                let mut t2 = t;
                let ghost tview = t2@;
                cs.append(&mut t2);
                proof {
                    assert(cs@ =~= seq![s[0]] + tview);
                }
                Option::Some((cs, p2))
            },
        }
    }
}

/// The accumulated value only grows as digits are consumed.
proof fn lemma_parse_nat_rec_ge(s: Seq<char>, acc: nat)
    ensures
        parse_nat_rec(s, acc).0 >= acc,
    decreases s.len(),
{
    if s.len() > 0 && dec_val(s[0]) >= 0 {
        lemma_parse_nat_rec_ge(s.drop_first(), (acc * 10 + dec_val(s[0])) as nat);
        assert(acc * 10 >= acc) by (nonlinear_arith);
    }
}

/// Parse a decimal number at `pos` into a `u64`; `None` when there is
/// no digit or the value does not fit.
pub fn p_u64(v: &Vec<char>, pos: usize) -> (r: Option<(u64, usize)>)
    requires
        pos <= v@.len(),
    ensures
        match r {
            Option::Some(t) => pos <= t.1 <= v@.len() && parse_nat(v@.skip(pos as int))
                == Option::Some((t.0 as nat, v@.skip(t.1 as int))),
            Option::None => parse_nat(v@.skip(pos as int)) is None || parse_nat(
                v@.skip(pos as int),
            ).unwrap().0 > u64::MAX,
        },
{
    let ghost s = v@.skip(pos as int);
    if pos == v.len() {
        return Option::None;
    }
    proof {
        assert(s[0] == v@[pos as int]);
    }
    if dec_val_of(v[pos]) < 0 {
        return Option::None;
    }
    let mut acc: u64 = 0;
    let mut i: usize = pos;
    while i < v.len() && dec_val_of(v[i]) >= 0
        invariant
            pos <= i <= v@.len(),
            s == v@.skip(pos as int),
            parse_nat_rec(s, 0) == parse_nat_rec(v@.skip(i as int), acc as nat),
        decreases v@.len() - i,
    {
        let ghost rest = v@.skip(i as int);
        proof {
            assert(rest[0] == v@[i as int]);
            assert(rest.drop_first() =~= v@.skip(i + 1));
        }
        let d = dec_val_of(v[i]) as u64;
        let step = match acc.checked_mul(10) {
            Option::Some(m) => m.checked_add(d),
            Option::None => Option::None,
        };
        match step {
            Option::Some(next) => {
                acc = next;
                i = i + 1;
            },
            Option::None => {
                proof {
                    lemma_parse_nat_rec_ge(rest.drop_first(), (acc as nat * 10 + d) as nat);
                    assert(parse_nat_rec(rest, acc as nat) == parse_nat_rec(
                        rest.drop_first(),
                        (acc as nat * 10 + d) as nat,
                    ));
                    assert(parse_nat_rec(s, 0).0 > u64::MAX);
                }
                return Option::None;
            },
        }
    }
    proof {
        let rest = v@.skip(i as int);
        if i < v@.len() {
            assert(rest[0] == v@[i as int]);
        }
        assert(parse_nat_rec(rest, acc as nat) == (acc as nat, rest));
    }
    Option::Some((acc, i))
}

/// The value of a decimal digit character, or -1.
fn dec_val_of(c: char) -> (r: i32)
    ensures
        r as int == dec_val(c),
{
    let h = hex_val_of(c);
    if h < 10 {
        h
    } else {
        -1
    }
}

} // verus!
