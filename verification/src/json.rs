//! The wire messages travel as JSON text. This module states that format
//! exactly: spec functions give the one canonical encoding of strings,
//! unsigned numbers and booleans, and a strict parser that accepts exactly
//! what the encoder emits. Encoding and parsing are proved to invert each
//! other, which is what lets a receiver treat "the buffer parses" as "the
//! message is complete".

use vstd::prelude::*;

verus! {

// ------------------------------------------------------------------
// Spec: canonical encoding
// ------------------------------------------------------------------
/// The lowercase hexadecimal digit for `n`.
pub open spec fn hex_digit(n: int) -> char
    recommends
        0 <= n < 16,
{
    if n == 0 {
        '0'
    } else if n == 1 {
        '1'
    } else if n == 2 {
        '2'
    } else if n == 3 {
        '3'
    } else if n == 4 {
        '4'
    } else if n == 5 {
        '5'
    } else if n == 6 {
        '6'
    } else if n == 7 {
        '7'
    } else if n == 8 {
        '8'
    } else if n == 9 {
        '9'
    } else if n == 10 {
        'a'
    } else if n == 11 {
        'b'
    } else if n == 12 {
        'c'
    } else if n == 13 {
        'd'
    } else if n == 14 {
        'e'
    } else {
        'f'
    }
}

/// How one character is written inside a JSON string: the quote, the
/// backslash and the five named control characters get two-character
/// escapes, the remaining control characters get `\u00xx`, and everything
/// else stands for itself.
pub open spec fn esc_char(c: char) -> Seq<char> {
    if c == '"' {
        seq!['\\', '"']
    } else if c == '\\' {
        seq!['\\', '\\']
    } else if c == '\u{8}' {
        seq!['\\', 'b']
    } else if c == '\t' {
        seq!['\\', 't']
    } else if c == '\n' {
        seq!['\\', 'n']
    } else if c == '\u{c}' {
        seq!['\\', 'f']
    } else if c == '\r' {
        seq!['\\', 'r']
    } else if (c as u32) < 0x20 {
        seq!['\\', 'u', '0', '0', hex_digit(c as int / 16), hex_digit(c as int % 16)]
    } else {
        seq![c]
    }
}

/// The body of a JSON string: every character escaped, in order.
pub open spec fn esc(s: Seq<char>) -> Seq<char>
    decreases s.len(),
{
    if s.len() == 0 {
        Seq::empty()
    } else {
        esc_char(s[0]) + esc(s.drop_first())
    }
}

/// A complete JSON string: the escaped body between double quotes.
pub open spec fn enc_str(s: Seq<char>) -> Seq<char> {
    seq!['"'] + esc(s) + seq!['"']
}

/// The decimal digits of `n`, most significant first, with no leading zero.
pub open spec fn enc_nat(n: nat) -> Seq<char>
    decreases n,
{
    if n < 10 {
        seq![hex_digit(n as int)]
    } else {
        enc_nat(n / 10) + seq![hex_digit(n as int % 10)]
    }
}

/// A JSON boolean.
pub open spec fn enc_bool(b: bool) -> Seq<char> {
    if b {
        seq!['t', 'r', 'u', 'e']
    } else {
        seq!['f', 'a', 'l', 's', 'e']
    }
}

/// Escaping distributes over concatenation.
pub proof fn lemma_esc_concat(a: Seq<char>, b: Seq<char>)
    ensures
        esc(a + b) == esc(a) + esc(b),
    decreases a.len(),
{
    if a.len() == 0 {
        assert(a + b =~= b);
        assert(esc(a) + esc(b) =~= esc(b));
    } else {
        lemma_esc_concat(a.drop_first(), b);
        assert((a + b).drop_first() =~= a.drop_first() + b);
        assert(esc(a + b) =~= esc_char((a + b)[0]) + esc(a.drop_first() + b));
        assert((a + b)[0] == a[0]);
        assert(esc_char(a[0]) + (esc(a.drop_first()) + esc(b)) =~= (esc_char(a[0]) + esc(
            a.drop_first(),
        )) + esc(b));
    }
}

// ------------------------------------------------------------------
// Exec: encoders
// ------------------------------------------------------------------
/// The lowercase hexadecimal digit character for `n`.
pub fn hex_digit_char(n: u32) -> (c: char)
    requires
        n < 16,
    ensures
        c == hex_digit(n as int),
{
    match n {
        0 => '0',
        1 => '1',
        2 => '2',
        3 => '3',
        4 => '4',
        5 => '5',
        6 => '6',
        7 => '7',
        8 => '8',
        9 => '9',
        10 => 'a',
        11 => 'b',
        12 => 'c',
        13 => 'd',
        14 => 'e',
        _ => 'f',
    }
}

/// Append the decimal digits of `n` to `out`.
pub fn push_u64(out: &mut Vec<char>, n: u64)
    ensures
        final(out)@ == old(out)@ + enc_nat(n as nat),
    decreases n,
{
    if n < 10 {
        out.push(hex_digit_char(n as u32));
        assert(out@ =~= old(out)@ + enc_nat(n as nat));
    } else {
        push_u64(out, n / 10);
        out.push(hex_digit_char((n % 10) as u32));
        assert(out@ =~= old(out)@ + enc_nat(n as nat));
    }
}

/// Append the escape sequence of a single character to `out`.
fn push_esc_char(out: &mut Vec<char>, c: char)
    ensures
        final(out)@ == old(out)@ + esc_char(c),
{
    if c == '"' {
        out.push('\\');
        out.push('"');
    } else if c == '\\' {
        out.push('\\');
        out.push('\\');
    } else if c == '\u{8}' {
        out.push('\\');
        out.push('b');
    } else if c == '\t' {
        out.push('\\');
        out.push('t');
    } else if c == '\n' {
        out.push('\\');
        out.push('n');
    } else if c == '\u{c}' {
        out.push('\\');
        out.push('f');
    } else if c == '\r' {
        out.push('\\');
        out.push('r');
    } else if (c as u32) < 0x20 {
        out.push('\\');
        out.push('u');
        out.push('0');
        out.push('0');
        out.push(hex_digit_char((c as u32) / 16));
        out.push(hex_digit_char((c as u32) % 16));
    } else {
        out.push(c);
    }
    assert(out@ =~= old(out)@ + esc_char(c));
}

/// Append the complete JSON string encoding of `s` (quotes included) to `out`.
pub fn push_json_str(out: &mut Vec<char>, s: &str)
    ensures
        final(out)@ == old(out)@ + enc_str(s@),
{
    let chars = crate::text::str_chars(s);
    out.push('"');
    let mut i: usize = 0;
    while i < chars.len()
        invariant
            chars@ == s@,
            i <= chars.len(),
            out@ == old(out)@ + seq!['"'] + esc(s@.subrange(0, i as int)),
        decreases chars.len() - i,
    {
        proof {
            assert(s@.subrange(0, i + 1) =~= s@.subrange(0, i as int) + seq![s@[i as int]]);
            lemma_esc_concat(s@.subrange(0, i as int), seq![s@[i as int]]);
            assert(esc(seq![s@[i as int]]) =~= esc_char(s@[i as int])) by {
                reveal_with_fuel(esc, 2);
            }
        }
        push_esc_char(out, chars[i]);
        i = i + 1;
    }
    out.push('"');
    assert(s@.subrange(0, s@.len() as int) =~= s@);
    assert(out@ =~= old(out)@ + enc_str(s@));
}

/// Append `true` or `false` to `out`.
pub fn push_bool(out: &mut Vec<char>, b: bool)
    ensures
        final(out)@ == old(out)@ + enc_bool(b),
{
    if b {
        crate::text::push_lit(out, "true");
        proof {
            reveal_strlit("true");
            assert(out@ =~= old(out)@ + enc_bool(b));
        }
    } else {
        crate::text::push_lit(out, "false");
        proof {
            reveal_strlit("false");
            assert(out@ =~= old(out)@ + enc_bool(b));
        }
    }
}

// ------------------------------------------------------------------
// Spec: strict parsing
// ------------------------------------------------------------------
pub open spec fn is_digit(c: char) -> bool {
    '0' <= c && c <= '9'
}

pub open spec fn digit_val(c: char) -> int {
    c as int - '0' as int
}

/// Lowercase hexadecimal digit.
pub open spec fn is_lhex(c: char) -> bool {
    is_digit(c) || ('a' <= c && c <= 'f')
}

pub open spec fn hex_val(c: char) -> int {
    if is_digit(c) {
        digit_val(c)
    } else {
        c as int - 'a' as int + 10
    }
}

/// The character named by a two-character escape, if the second character
/// names one.
pub open spec fn unesc_short(e: char) -> Option<char> {
    if e == '"' {
        Some('"')
    } else if e == '\\' {
        Some('\\')
    } else if e == 'b' {
        Some('\u{8}')
    } else if e == 't' {
        Some('\t')
    } else if e == 'n' {
        Some('\n')
    } else if e == 'f' {
        Some('\u{c}')
    } else if e == 'r' {
        Some('\r')
    } else {
        None
    }
}

/// A control character that has no two-character escape of its own: the
/// canonical encoding writes exactly these as `\u00xx`.
pub open spec fn is_bare_ctrl(v: int) -> bool {
    0 <= v < 0x20 && v != 8 && v != 9 && v != 10 && v != 12 && v != 13
}

/// Expect the exact characters of `lit` at position `i`; the position after
/// them on success.
pub open spec fn parse_lit(s: Seq<char>, i: int, lit: Seq<char>) -> Option<int> {
    if 0 <= i && i + lit.len() <= s.len() && s.subrange(i, i + lit.len() as int) == lit {
        Some(i + lit.len() as int)
    } else {
        None
    }
}

/// Parse the body of a JSON string starting at `i` (the opening quote is
/// already consumed), up to and including the closing quote. Accepts exactly
/// what `esc` emits: the short escapes, `\u00xx` with lowercase hex, and raw
/// non-control characters.
pub open spec fn parse_str_body(s: Seq<char>, i: int) -> Option<(Seq<char>, int)>
    decreases s.len() - i,
    when i <= s.len()
{
    if i < 0 || i >= s.len() {
        None
    } else if s[i] == '"' {
        Some((Seq::empty(), i + 1))
    } else if s[i] == '\\' {
        if i + 2 <= s.len() && unesc_short(s[i + 1]) is Some {
            match parse_str_body(s, i + 2) {
                Some(r) => Some((seq![unesc_short(s[i + 1])->0] + r.0, r.1)),
                None => None,
            }
        } else if i + 6 <= s.len() && s[i + 1] == 'u' && s[i + 2] == '0' && s[i + 3] == '0'
            && is_lhex(s[i + 4]) && is_lhex(s[i + 5]) && is_bare_ctrl(
            16 * hex_val(s[i + 4]) + hex_val(s[i + 5]),
        ) {
            match parse_str_body(s, i + 6) {
                Some(r) => Some(
                    (seq![((16 * hex_val(s[i + 4]) + hex_val(s[i + 5])) as char)] + r.0, r.1),
                ),
                None => None,
            }
        } else {
            None
        }
    } else if (s[i] as u32) < 0x20 {
        None
    } else {
        match parse_str_body(s, i + 1) {
            Some(r) => Some((seq![s[i]] + r.0, r.1)),
            None => None,
        }
    }
}

/// Parse a complete JSON string (both quotes) at position `i`.
pub open spec fn parse_str(s: Seq<char>, i: int) -> Option<(Seq<char>, int)> {
    if 0 <= i && i < s.len() && s[i] == '"' {
        parse_str_body(s, i + 1)
    } else {
        None
    }
}

/// The position of the first non-digit character at or after `i`.
pub open spec fn digits_end(s: Seq<char>, i: int) -> int
    decreases s.len() - i,
    when i <= s.len()
{
    if 0 <= i && i < s.len() && is_digit(s[i]) {
        digits_end(s, i + 1)
    } else {
        i
    }
}

/// The value of the digit run `s[i..j]`, read left to right.
pub open spec fn dv(s: Seq<char>, i: int, j: int) -> int
    decreases j - i,
{
    if j <= i {
        0
    } else {
        dv(s, i, j - 1) * 10 + digit_val(s[j - 1])
    }
}

/// Parse an unsigned decimal number at `i`: at least one digit, no leading
/// zero, value within `u64`.
pub open spec fn parse_u64(s: Seq<char>, i: int) -> Option<(u64, int)> {
    if i < 0 || i > s.len() {
        None
    } else {
        let j = digits_end(s, i);
        if j == i {
            None
        } else if s[i] == '0' && j > i + 1 {
            None
        } else if dv(s, i, j) > u64::MAX {
            None
        } else {
            Some((dv(s, i, j) as u64, j))
        }
    }
}

/// Parse `true` or `false` at `i`.
pub open spec fn parse_bool(s: Seq<char>, i: int) -> Option<(bool, int)> {
    match parse_lit(s, i, enc_bool(true)) {
        Some(j) => Some((true, j)),
        None => match parse_lit(s, i, enc_bool(false)) {
            Some(j) => Some((false, j)),
            None => None,
        },
    }
}

// ------------------------------------------------------------------
// Exec: parsers
// ------------------------------------------------------------------
pub fn is_digit_char(c: char) -> (r: bool)
    ensures
        r == is_digit(c),
{
    '0' <= c && c <= '9'
}

/// The value of a lowercase hexadecimal digit, or `None`.
fn hex_val_char(c: char) -> (r: Option<u8>)
    ensures
        r is Some <==> is_lhex(c),
        r matches Some(v) ==> v as int == hex_val(c) && v < 16,
{
    if '0' <= c && c <= '9' {
        Some(((c as u32) - ('0' as u32)) as u8)
    } else if 'a' <= c && c <= 'f' {
        Some((10 + (c as u32) - ('a' as u32)) as u8)
    } else {
        None
    }
}

fn unesc_short_char(e: char) -> (r: Option<char>)
    ensures
        r == unesc_short(e),
{
    if e == '"' {
        Some('"')
    } else if e == '\\' {
        Some('\\')
    } else if e == 'b' {
        Some('\u{8}')
    } else if e == 't' {
        Some('\t')
    } else if e == 'n' {
        Some('\n')
    } else if e == 'f' {
        Some('\u{c}')
    } else if e == 'r' {
        Some('\r')
    } else {
        None
    }
}

/// Expect the characters of `lit` at position `i`.
pub fn p_lit(s: &Vec<char>, i: usize, lit: &str) -> (r: Option<usize>)
    ensures
        r is Some <==> parse_lit(s@, i as int, lit@) is Some,
        r matches Some(j) ==> parse_lit(s@, i as int, lit@) == Some(j as int) && i <= j
            <= s.len(),
{
    let chars = crate::text::str_chars(lit);
    if i > s.len() || s.len() - i < chars.len() {
        return None;
    }
    let mut k: usize = 0;
    while k < chars.len()
        invariant
            chars@ == lit@,
            i + chars.len() <= s.len(),
            k <= chars.len(),
            s@.subrange(i as int, i + k as int) == lit@.subrange(0, k as int),
        decreases chars.len() - k,
    {
        if s[i + k] != chars[k] {
            proof {
                if parse_lit(s@, i as int, lit@) is Some {
                    assert(s@.subrange(i as int, i + lit@.len() as int)[k as int]
                        == lit@[k as int]);
                }
            }
            return None;
        }
        proof {
            assert(s@.subrange(i as int, i + k + 1 as int) =~= s@.subrange(
                i as int,
                i + k as int,
            ).push(s@[i + k]));
            assert(lit@.subrange(0, k + 1 as int) =~= lit@.subrange(0, k as int).push(
                lit@[k as int],
            ));
        }
        k = k + 1;
    }
    proof {
        assert(lit@.subrange(0, lit@.len() as int) =~= lit@);
    }
    Some(i + chars.len())
}

/// Parse a JSON string body (after the opening quote) and return the decoded
/// characters and the position after the closing quote.
fn p_str_body(s: &Vec<char>, start: usize) -> (r: Option<(Vec<char>, usize)>)
    requires
        start <= s.len(),
    ensures
        r is Some <==> parse_str_body(s@, start as int) is Some,
        r matches Some(p) ==> parse_str_body(s@, start as int) == Some((p.0@, p.1 as int))
            && p.1 <= s.len(),
{
    let mut acc: Vec<char> = Vec::new();
    let mut i: usize = start;
    loop
        invariant
            start <= i <= s.len(),
            parse_str_body(s@, start as int) == (match parse_str_body(s@, i as int) {
                Some(p) => Some::<(Seq<char>, int)>((acc@ + p.0, p.1)),
                None => None::<(Seq<char>, int)>,
            }),
        decreases s.len() - i,
    {
        if i >= s.len() {
            return None;
        }
        let c = s[i];
        if c == '"' {
            proof {
                assert(acc@ + Seq::<char>::empty() =~= acc@);
            }
            return Some((acc, i + 1));
        } else if c == '\\' {
            if s.len() - i < 2 {
                return None;
            }
            let e = s[i + 1];
            match unesc_short_char(e) {
                Some(u) => {
                    proof {
                        let p = parse_str_body(s@, i + 2);
                        if p is Some {
                            assert(acc@ + (seq![u] + (p->0).0) =~= acc@.push(u) + (p->0).0);
                        }
                    }
                    acc.push(u);
                    i = i + 2;
                },
                None => {
                    if e == 'u' && s.len() - i >= 6 {
                        if s[i + 2] != '0' || s[i + 3] != '0' {
                            return None;
                        }
                        let h1 = hex_val_char(s[i + 4]);
                        let h2 = hex_val_char(s[i + 5]);
                        match (h1, h2) {
                            (Some(v1), Some(v2)) => {
                                let v: u8 = 16 * v1 + v2;
                                if v >= 0x20 || v == 8 || v == 9 || v == 10 || v == 12 || v
                                    == 13 {
                                    return None;
                                }
                                let u = v as char;
                                proof {
                                    let p = parse_str_body(s@, i + 6);
                                    if p is Some {
                                        assert(acc@ + (seq![u] + (p->0).0) =~= acc@.push(u)
                                            + (p->0).0);
                                    }
                                }
                                acc.push(u);
                                i = i + 6;
                            },
                            _ => {
                                return None;
                            },
                        }
                    } else {
                        return None;
                    }
                },
            }
        } else if (c as u32) < 0x20 {
            return None;
        } else {
            proof {
                let p = parse_str_body(s@, i + 1);
                if p is Some {
                    assert(acc@ + (seq![c] + (p->0).0) =~= acc@.push(c) + (p->0).0);
                }
            }
            acc.push(c);
            i = i + 1;
        }
    }
}

/// Parse a complete JSON string at `i`, returning its decoded value.
pub fn p_str(s: &Vec<char>, i: usize) -> (r: Option<(String, usize)>)
    ensures
        r is Some <==> parse_str(s@, i as int) is Some,
        r matches Some(p) ==> parse_str(s@, i as int) == Some((p.0@, p.1 as int)) && p.1
            <= s.len(),
{
    if i >= s.len() {
        return None;
    }
    if s[i] != '"' {
        return None;
    }
    match p_str_body(s, i + 1) {
        Some((chars, j)) => Some((crate::text::chars_string(&chars), j)),
        None => None,
    }
}

/// Parse an unsigned decimal number at `i`.
pub fn p_u64(s: &Vec<char>, start: usize) -> (r: Option<(u64, usize)>)
    ensures
        r is Some <==> parse_u64(s@, start as int) is Some,
        r matches Some(p) ==> parse_u64(s@, start as int) == Some((p.0, p.1 as int)) && p.1
            <= s.len(),
{
    if start > s.len() {
        return None;
    }
    let mut j: usize = start;
    while j < s.len() && is_digit_char(s[j])
        invariant
            start <= j <= s.len(),
            forall|m: int| start <= m < j ==> is_digit(s@[m]),
            digits_end(s@, start as int) == digits_end(s@, j as int),
        decreases s.len() - j,
    {
        j = j + 1;
    }
    assert(digits_end(s@, start as int) == j);
    if j == start {
        return None;
    }
    if s[start] == '0' && j > start + 1 {
        return None;
    }
    let ghost jj = j as int;
    let mut val: u64 = 0;
    let mut k: usize = start;
    let mut over: bool = false;
    while k < j
        invariant
            start <= k <= j <= s.len(),
            jj == j as int,
            forall|m: int| start <= m < jj ==> is_digit(s@[m]),
            !over ==> val as int == dv(s@, start as int, k as int),
            over ==> dv(s@, start as int, jj) > u64::MAX,
        decreases j - k,
    {
        let d: u64 = ((s[k] as u32) - ('0' as u32)) as u64;
        assert(d as int == digit_val(s@[k as int]) && d <= 9);
        if !over {
            if val > (u64::MAX - d) / 10 {
                over = true;
                proof {
                    lemma_dv_overflow(s@, start as int, k as int, jj, val as int, d as int);
                }
            } else {
                proof {
                    lemma_mul_step_bound(val as int, d as int);
                }
                val = val * 10 + d;
            }
        }
        k = k + 1;
    }
    if over {
        return None;
    }
    Some((val, j))
}

/// If the next digit would push the value past `u64::MAX`, the whole digit
/// run does too.
proof fn lemma_dv_overflow(s: Seq<char>, i: int, k: int, j: int, val: int, d: int)
    requires
        i <= k < j,
        forall|m: int| i <= m < j ==> is_digit(s[m]),
        val == dv(s, i, k),
        d == digit_val(s[k]),
        val > (u64::MAX - d) / 10,
        0 <= d <= 9,
    ensures
        dv(s, i, j) > u64::MAX,
{
    vstd::arithmetic::div_mod::lemma_fundamental_div_mod(u64::MAX - d, 10);
    assert(dv(s, i, k + 1) == val * 10 + d);
    assert(val * 10 >= ((u64::MAX - d) / 10 + 1) * 10) by (nonlinear_arith)
        requires
            val > (u64::MAX - d) / 10,
    ;
    assert(dv(s, i, k + 1) > u64::MAX);
    lemma_dv_mono(s, i, k + 1, j);
}

/// Appending digits never decreases the value of a digit run.
proof fn lemma_dv_mono(s: Seq<char>, i: int, a: int, b: int)
    requires
        i <= a <= b,
        forall|m: int| i <= m < b ==> is_digit(s[m]),
    ensures
        dv(s, i, b) >= dv(s, i, a),
    decreases b - a,
{
    if a < b {
        lemma_dv_mono(s, i, a, b - 1);
        lemma_dv_nonneg(s, i, b - 1);
        assert(dv(s, i, b) == dv(s, i, b - 1) * 10 + digit_val(s[b - 1]));
        assert(dv(s, i, b - 1) * 10 >= dv(s, i, b - 1)) by (nonlinear_arith)
            requires
                dv(s, i, b - 1) >= 0,
        ;
        assert(digit_val(s[b - 1]) >= 0);
    }
}

proof fn lemma_dv_nonneg(s: Seq<char>, i: int, b: int)
    requires
        forall|m: int| i <= m < b ==> is_digit(s[m]),
    ensures
        dv(s, i, b) >= 0,
    decreases b - i,
{
    if b > i {
        lemma_dv_nonneg(s, i, b - 1);
        assert(dv(s, i, b - 1) * 10 >= 0) by (nonlinear_arith)
            requires
                dv(s, i, b - 1) >= 0,
        ;
    }
}

/// Staying at or below the scaled bound keeps the next step within `u64`.
proof fn lemma_mul_step_bound(val: int, d: int)
    requires
        0 <= val,
        0 <= d <= 9,
        val <= (u64::MAX - d) / 10,
    ensures
        val * 10 + d <= u64::MAX,
{
    vstd::arithmetic::div_mod::lemma_fundamental_div_mod(u64::MAX - d, 10);
    assert(val * 10 <= ((u64::MAX - d) / 10) * 10) by (nonlinear_arith)
        requires
            val <= (u64::MAX - d) / 10,
    ;
}

/// Parse `true` or `false` at `i`.
pub fn p_bool(s: &Vec<char>, i: usize) -> (r: Option<(bool, usize)>)
    ensures
        r is Some <==> parse_bool(s@, i as int) is Some,
        r matches Some(p) ==> parse_bool(s@, i as int) == Some((p.0, p.1 as int)) && p.1
            <= s.len(),
{
    proof {
        reveal_strlit("true");
        reveal_strlit("false");
        assert("true"@ =~= enc_bool(true));
        assert("false"@ =~= enc_bool(false));
    }
    match p_lit(s, i, "true") {
        Some(j) => Some((true, j)),
        None => match p_lit(s, i, "false") {
            Some(j) => Some((false, j)),
            None => None,
        },
    }
}

// ------------------------------------------------------------------
// Completeness: the strict parser accepts the canonical encoding
// ------------------------------------------------------------------
/// Reading back the hexadecimal digit character gives the value back.
proof fn lemma_hex_digit_val(n: int)
    requires
        0 <= n < 16,
    ensures
        is_lhex(hex_digit(n)),
        hex_val(hex_digit(n)) == n,
        n < 10 ==> is_digit(hex_digit(n)) && digit_val(hex_digit(n)) == n,
        n >= 10 ==> !is_digit(hex_digit(n)),
{
}

/// A literal that stands at `i` parses there.
pub proof fn lemma_lit_complete(s: Seq<char>, lit: Seq<char>, i: int)
    requires
        0 <= i,
        i + lit.len() <= s.len(),
        s.subrange(i, i + lit.len() as int) == lit,
    ensures
        parse_lit(s, i, lit) == Some(i + lit.len() as int),
{
}

/// The canonical string body (escaped text plus closing quote) parses back
/// to exactly the original text.
pub proof fn lemma_str_body_complete(s: Seq<char>, t: Seq<char>, i: int)
    requires
        0 <= i,
        i + esc(t).len() + 1 <= s.len(),
        s.subrange(i, i + esc(t).len() + 1) == esc(t) + seq!['"'],
    ensures
        parse_str_body(s, i) == Some((t, i + esc(t).len() + 1)),
    decreases t.len(),
{
    let e = esc(t);
    let sub = s.subrange(i, i + e.len() + 1);
    assert(forall|k: int| 0 <= k < sub.len() ==> s[i + k] == #[trigger] sub[k]);
    if t.len() == 0 {
        assert(sub[0] == (e + seq!['"'])[0]);
        assert((e + seq!['"'])[0] == '"');
        assert(s[i] == sub[0]);
        assert(t =~= Seq::<char>::empty());
    } else {
        let c = t[0];
        let t2 = t.drop_first();
        let ec = esc_char(c);
        let e2 = esc(t2);
        assert(e == ec + e2);
        assert(forall|k: int| 0 <= k < ec.len() ==> sub[k] == ec[k]);
        let i2 = i + ec.len() as int;
        assert(s.subrange(i2, i2 + e2.len() + 1) =~= e2 + seq!['"']) by {
            assert(forall|k: int|
                0 <= k < e2.len() + 1 ==> #[trigger] s.subrange(i2, i2 + e2.len() + 1)[k]
                    == sub[ec.len() + k]);
            assert(forall|k: int|
                0 <= k < e2.len() + 1 ==> (e + seq!['"'])[ec.len() + k] == #[trigger] (e2
                    + seq!['"'])[k]);
        }
        lemma_str_body_complete(s, t2, i2);
        assert(seq![c] + t2 =~= t);
        if c == '"' || c == '\\' || c == '\u{8}' || c == '\t' || c == '\n' || c == '\u{c}' || c
            == '\r' {
            assert(s[i] == '\\');
            assert(unesc_short(s[i + 1]) == Some(c));
            assert(parse_str_body(s, i) == Some((t, i + e.len() + 1)));
        } else if (c as u32) < 0x20 {
            assert(s[i] == '\\' && s[i + 1] == 'u' && s[i + 2] == '0' && s[i + 3] == '0');
            assert(s[i + 4] == hex_digit(c as int / 16) && s[i + 5] == hex_digit(c as int % 16));
            assert(unesc_short('u') is None);
            vstd::utf8::char_is_scalar(c);
            vstd::utf8::char_u32_cast(c, c as u32);
            assert(0 <= (c as int) && (c as int) < 32);
            lemma_hex_digit_val(c as int / 16);
            lemma_hex_digit_val(c as int % 16);
            vstd::arithmetic::div_mod::lemma_fundamental_div_mod(c as int, 16);
            assert(16 * hex_val(s[i + 4]) + hex_val(s[i + 5]) == c as int);
            assert(((c as int) as char) == c);
            assert(parse_str_body(s, i) == Some((t, i + e.len() + 1)));
        } else {
            assert(ec =~= seq![c]);
            assert(s[i] == c);
            assert(parse_str_body(s, i) == Some((t, i + e.len() + 1)));
        }
    }
}

/// A canonical JSON string at `i` parses back to its text.
pub proof fn lemma_str_complete(s: Seq<char>, t: Seq<char>, i: int)
    requires
        0 <= i,
        i + enc_str(t).len() <= s.len(),
        s.subrange(i, i + enc_str(t).len() as int) == enc_str(t),
    ensures
        parse_str(s, i) == Some((t, i + enc_str(t).len() as int)),
{
    let sub = s.subrange(i, i + enc_str(t).len() as int);
    assert(forall|k: int| 0 <= k < sub.len() ==> s[i + k] == #[trigger] sub[k]);
    assert(sub[0] == enc_str(t)[0]);
    assert(enc_str(t)[0] == (seq!['"'] + esc(t))[0]);
    assert(s[i] == '"');
    assert(s.subrange(i + 1, i + 1 + esc(t).len() + 1) =~= esc(t) + seq!['"']) by {
        assert(forall|k: int|
            0 <= k < esc(t).len() + 1 ==> #[trigger] s.subrange(i + 1, i + 1 + esc(t).len() + 1)[k]
                == sub[1 + k]);
        assert(forall|k: int|
            0 <= k < esc(t).len() + 1 ==> sub[1 + k] == #[trigger] (esc(t) + seq!['"'])[k]);
    }
    lemma_str_body_complete(s, t, i + 1);
}

/// Shape of the canonical digit run: nonempty, digits only, and a leading
/// zero exactly for zero itself.
proof fn lemma_enc_nat_shape(n: nat)
    ensures
        enc_nat(n).len() >= 1,
        forall|k: int| 0 <= k < enc_nat(n).len() ==> is_digit(#[trigger] enc_nat(n)[k]),
        n >= 1 ==> enc_nat(n)[0] != '0',
        n < 10 ==> enc_nat(n) == seq![hex_digit(n as int)],
    decreases n,
{
    if n < 10 {
        lemma_hex_digit_val(n as int);
    } else {
        lemma_enc_nat_shape(n / 10);
        lemma_hex_digit_val(n as int % 10);
        assert(enc_nat(n) == enc_nat(n / 10) + seq![hex_digit(n as int % 10)]);
        assert(enc_nat(n)[0] == enc_nat(n / 10)[0]);
    }
}

/// A run of digits ending at a non-digit (or the end) is scanned to exactly
/// that point.
proof fn lemma_digits_end_range(s: Seq<char>, a: int, b: int)
    requires
        0 <= a <= b <= s.len(),
        forall|k: int| a <= k < b ==> is_digit(#[trigger] s[k]),
        b == s.len() || !is_digit(s[b]),
    ensures
        digits_end(s, a) == b,
    decreases b - a,
{
    if a < b {
        lemma_digits_end_range(s, a + 1, b);
    }
}

/// The value of the canonical digit run of `n` is `n`.
proof fn lemma_dv_enc(s: Seq<char>, n: nat, i: int)
    requires
        0 <= i,
        i + enc_nat(n).len() <= s.len(),
        s.subrange(i, i + enc_nat(n).len() as int) == enc_nat(n),
    ensures
        dv(s, i, i + enc_nat(n).len() as int) == n,
    decreases n,
{
    let e = enc_nat(n);
    let sub = s.subrange(i, i + e.len() as int);
    assert(forall|k: int| 0 <= k < sub.len() ==> s[i + k] == #[trigger] sub[k]);
    if n < 10 {
        lemma_hex_digit_val(n as int);
        assert(sub[0] == e[0]);
        assert(e[0] == hex_digit(n as int));
        assert(s[i] == sub[0]);
        assert(dv(s, i, i + 1) == dv(s, i, i) * 10 + digit_val(s[i]));
    } else {
        let e1 = enc_nat(n / 10);
        assert(e == e1 + seq![hex_digit(n as int % 10)]);
        assert(s.subrange(i, i + e1.len() as int) =~= e1) by {
            assert(forall|k: int|
                0 <= k < e1.len() ==> #[trigger] s.subrange(i, i + e1.len() as int)[k] == sub[k]);
        }
        lemma_dv_enc(s, n / 10, i);
        lemma_hex_digit_val(n as int % 10);
        assert(sub[e.len() - 1] == e[e.len() - 1]);
        assert(e[e.len() - 1] == (e1 + seq![hex_digit(n as int % 10)])[e1.len() as int]);
        assert(s[i + e.len() - 1] == sub[e.len() - 1]);
        assert(dv(s, i, i + e.len() as int) == dv(s, i, i + e.len() - 1) * 10 + digit_val(
            s[i + e.len() - 1],
        ));
        assert((n / 10) * 10 + n % 10 == n) by {
            vstd::arithmetic::div_mod::lemma_fundamental_div_mod(n as int, 10);
        }
    }
}

/// The canonical decimal encoding of `n` at `i`, followed by a non-digit,
/// parses back to `n`.
pub proof fn lemma_u64_complete(s: Seq<char>, n: u64, i: int)
    requires
        0 <= i,
        i + enc_nat(n as nat).len() <= s.len(),
        s.subrange(i, i + enc_nat(n as nat).len() as int) == enc_nat(n as nat),
        i + enc_nat(n as nat).len() == s.len() || !is_digit(s[i + enc_nat(n as nat).len()]),
    ensures
        parse_u64(s, i) == Some((n, i + enc_nat(n as nat).len() as int)),
{
    let e = enc_nat(n as nat);
    let sub = s.subrange(i, i + e.len() as int);
    assert(forall|k: int| 0 <= k < sub.len() ==> s[i + k] == #[trigger] sub[k]);
    lemma_enc_nat_shape(n as nat);
    assert forall|k: int| i <= k < i + e.len() implies is_digit(#[trigger] s[k]) by {
        assert(s[k] == sub[k - i]);
        assert(sub[k - i] == e[k - i]);
    }
    lemma_digits_end_range(s, i, i + e.len() as int);
    lemma_dv_enc(s, n as nat, i);
    assert(sub[0] == e[0]);
    assert(s[i] == sub[0]);
    if n == 0 {
        assert(e == seq![hex_digit(0)]);
    } else {
        assert(e[0] != '0');
    }
}

/// The canonical boolean at `i` parses back.
pub proof fn lemma_bool_complete(s: Seq<char>, b: bool, i: int)
    requires
        0 <= i,
        i + enc_bool(b).len() <= s.len(),
        s.subrange(i, i + enc_bool(b).len() as int) == enc_bool(b),
    ensures
        parse_bool(s, i) == Some((b, i + enc_bool(b).len() as int)),
{
    let sub = s.subrange(i, i + enc_bool(b).len() as int);
    assert(forall|k: int| 0 <= k < sub.len() ==> s[i + k] == #[trigger] sub[k]);
    if b {
        lemma_lit_complete(s, enc_bool(true), i);
    } else {
        assert(s[i] == 'f');
        if parse_lit(s, i, enc_bool(true)) is Some {
            assert(s.subrange(i, i + 4) == enc_bool(true));
            assert(s.subrange(i, i + 4)[0] == 't');
            assert(false);
        }
        lemma_lit_complete(s, enc_bool(false), i);
    }
}

// ------------------------------------------------------------------
// Soundness: the strict parser accepts nothing but canonical encodings
// ------------------------------------------------------------------
/// Writing back a parsed lowercase hexadecimal digit gives the same
/// character.
proof fn lemma_hex_val_digit(c: char)
    requires
        is_lhex(c),
    ensures
        0 <= hex_val(c) < 16,
        hex_digit(hex_val(c)) == c,
{
}

/// What the string parser accepts is exactly the escaped text followed by
/// the closing quote.
pub proof fn lemma_str_body_sound(s: Seq<char>, i: int, t: Seq<char>, j: int)
    requires
        0 <= i <= s.len(),
        parse_str_body(s, i) == Some((t, j)),
    ensures
        i < j <= s.len(),
        j == i + esc(t).len() + 1,
        s.subrange(i, j) == esc(t) + seq!['"'],
    decreases s.len() - i,
{
    let c = s[i];
    if c == '"' {
        assert(esc(t) == Seq::<char>::empty());
        assert(s.subrange(i, j) =~= esc(t) + seq!['"']);
    } else if c == '\\' {
        if i + 2 <= s.len() && unesc_short(s[i + 1]) is Some {
            let e = s[i + 1];
            let u = unesc_short(e)->0;
            let r = parse_str_body(s, i + 2);
            let t2 = (r->0).0;
            let j2 = (r->0).1;
            lemma_str_body_sound(s, i + 2, t2, j2);
            assert(t == seq![u] + t2);
            assert(t.drop_first() =~= t2);
            assert(esc(t) == esc_char(u) + esc(t2));
            assert(esc_char(u) =~= seq!['\\', e]);
            assert(forall|k: int|
                0 <= k < j2 - (i + 2) ==> s[i + 2 + k] == #[trigger] (esc(t2) + seq!['"'])[k])
                by {
                assert(forall|k: int|
                    0 <= k < j2 - (i + 2) ==> s.subrange(i + 2, j2)[k] == #[trigger] (esc(t2)
                        + seq!['"'])[k]);
            }
            assert forall|k: int| 0 <= k < j - i implies s.subrange(i, j)[k] == (esc(t)
                + seq!['"'])[k] by {
                if k == 0 {
                    assert((esc(t) + seq!['"'])[0] == esc_char(u)[0]);
                } else if k == 1 {
                    assert((esc(t) + seq!['"'])[1] == esc_char(u)[1]);
                } else {
                    assert(s[i + k] == (esc(t2) + seq!['"'])[k - 2]);
                    assert((esc(t) + seq!['"'])[k] == (esc(t2) + seq!['"'])[k - 2]);
                }
            }
            assert(s.subrange(i, j) =~= esc(t) + seq!['"']);
        } else {
            let h1 = s[i + 4];
            let h2 = s[i + 5];
            let v = 16 * hex_val(h1) + hex_val(h2);
            let u = (v as char);
            let r = parse_str_body(s, i + 6);
            let t2 = (r->0).0;
            let j2 = (r->0).1;
            lemma_str_body_sound(s, i + 6, t2, j2);
            assert(t == seq![u] + t2);
            assert(t.drop_first() =~= t2);
            assert(esc(t) == esc_char(u) + esc(t2));
            lemma_hex_val_digit(h1);
            lemma_hex_val_digit(h2);
            assert(is_bare_ctrl(v));
            assert(u as int == v);
            vstd::utf8::char_is_scalar(u);
            vstd::utf8::char_u32_cast(u, u as u32);
            assert((u as u32) < 0x20);
            assert(u != '"' && u != '\\' && u != '\u{8}' && u != '\t' && u != '\n' && u
                != '\u{c}' && u != '\r');
            assert(esc_char(u) =~= seq![
                '\\',
                'u',
                '0',
                '0',
                hex_digit(u as int / 16),
                hex_digit(u as int % 16),
            ]);
            assert(v / 16 == hex_val(h1) && v % 16 == hex_val(h2)) by {
                vstd::arithmetic::div_mod::lemma_fundamental_div_mod_converse(
                    v,
                    16,
                    hex_val(h1),
                    hex_val(h2),
                );
            }
            assert(hex_digit(u as int / 16) == h1);
            assert(hex_digit(u as int % 16) == h2);
            assert(forall|k: int|
                0 <= k < j2 - (i + 6) ==> s[i + 6 + k] == #[trigger] (esc(t2) + seq!['"'])[k])
                by {
                assert(forall|k: int|
                    0 <= k < j2 - (i + 6) ==> s.subrange(i + 6, j2)[k] == #[trigger] (esc(t2)
                        + seq!['"'])[k]);
            }
            assert forall|k: int| 0 <= k < j - i implies s.subrange(i, j)[k] == (esc(t)
                + seq!['"'])[k] by {
                if k < 6 {
                    assert(esc_char(u)[0] == '\\' && esc_char(u)[1] == 'u' && esc_char(u)[2]
                        == '0' && esc_char(u)[3] == '0' && esc_char(u)[4] == h1 && esc_char(
                        u,
                    )[5] == h2);
                    assert((esc(t) + seq!['"'])[k] == esc_char(u)[k]);
                } else {
                    assert(s[i + k] == (esc(t2) + seq!['"'])[k - 6]);
                    assert((esc(t) + seq!['"'])[k] == (esc(t2) + seq!['"'])[k - 6]);
                }
            }
            assert(s.subrange(i, j) =~= esc(t) + seq!['"']);
        }
    } else {
        let r = parse_str_body(s, i + 1);
        let t2 = (r->0).0;
        let j2 = (r->0).1;
        lemma_str_body_sound(s, i + 1, t2, j2);
        assert(t == seq![c] + t2);
        assert(t.drop_first() =~= t2);
        assert(esc(t) == esc_char(c) + esc(t2));
        assert((c as u32) >= 0x20);
        assert(esc_char(c) =~= seq![c]);
        assert(forall|k: int|
            0 <= k < j2 - (i + 1) ==> s[i + 1 + k] == #[trigger] (esc(t2) + seq!['"'])[k]) by {
            assert(forall|k: int|
                0 <= k < j2 - (i + 1) ==> s.subrange(i + 1, j2)[k] == #[trigger] (esc(t2)
                    + seq!['"'])[k]);
        }
        assert forall|k: int| 0 <= k < j - i implies s.subrange(i, j)[k] == (esc(t)
            + seq!['"'])[k] by {
            if k == 0 {
                assert((esc(t) + seq!['"'])[0] == esc_char(c)[0]);
            } else {
                assert(s[i + k] == (esc(t2) + seq!['"'])[k - 1]);
                assert((esc(t) + seq!['"'])[k] == (esc(t2) + seq!['"'])[k - 1]);
            }
        }
        assert(s.subrange(i, j) =~= esc(t) + seq!['"']);
    }
}

/// What the quoted-string parser accepts is exactly a canonical JSON
/// string.
pub proof fn lemma_str_sound(s: Seq<char>, i: int, t: Seq<char>, j: int)
    requires
        0 <= i <= s.len(),
        parse_str(s, i) == Some((t, j)),
    ensures
        i < j <= s.len(),
        j == i + enc_str(t).len(),
        s.subrange(i, j) == enc_str(t),
{
    lemma_str_body_sound(s, i + 1, t, j);
    assert(forall|k: int|
        0 <= k < j - (i + 1) ==> s[i + 1 + k] == #[trigger] (esc(t) + seq!['"'])[k]) by {
        assert(forall|k: int|
            0 <= k < j - (i + 1) ==> s.subrange(i + 1, j)[k] == #[trigger] (esc(t)
                + seq!['"'])[k]);
    }
    assert forall|k: int| 0 <= k < j - i implies s.subrange(i, j)[k] == enc_str(t)[k] by {
        if k == 0 {
            assert(s[i] == '"');
            assert(enc_str(t)[0] == (seq!['"'] + esc(t))[0]);
        } else {
            assert(s[i + k] == (esc(t) + seq!['"'])[k - 1]);
            assert(enc_str(t)[k] == (esc(t) + seq!['"'])[k - 1]);
        }
    }
    assert(s.subrange(i, j) =~= enc_str(t));
}

proof fn lemma_digits_end_bounds(s: Seq<char>, i: int)
    requires
        0 <= i <= s.len(),
    ensures
        i <= digits_end(s, i) <= s.len(),
        forall|k: int| i <= k < digits_end(s, i) ==> is_digit(#[trigger] s[k]),
        digits_end(s, i) == s.len() || !is_digit(s[digits_end(s, i)]),
    decreases s.len() - i,
{
    if i < s.len() && is_digit(s[i]) {
        lemma_digits_end_bounds(s, i + 1);
    }
}

/// The canonical digits of the value of a digit run are the run itself.
proof fn lemma_enc_dv(s: Seq<char>, i: int, j: int)
    requires
        0 <= i < j <= s.len(),
        forall|k: int| i <= k < j ==> is_digit(#[trigger] s[k]),
        s[i] != '0' || j == i + 1,
    ensures
        dv(s, i, j) >= 0,
        enc_nat(dv(s, i, j) as nat) == s.subrange(i, j),
    decreases j - i,
{
    lemma_dv_nonneg(s, i, j);
    if j == i + 1 {
        let d = digit_val(s[i]);
        lemma_hex_val_digit(s[i]);
        assert(dv(s, i, i) == 0);
        assert(dv(s, i, j) == d);
        assert(enc_nat(d as nat) =~= seq![hex_digit(d)]);
        assert(s.subrange(i, j) =~= seq![s[i]]);
    } else {
        let n1 = dv(s, i, j - 1);
        let d = digit_val(s[j - 1]);
        lemma_enc_dv(s, i, j - 1);
        assert(dv(s, i, j) == n1 * 10 + d);
        assert(digit_val(s[i]) >= 1);
        assert(dv(s, i, i) == 0);
        assert(dv(s, i, i + 1) == digit_val(s[i]));
        lemma_dv_mono(s, i, i + 1, j - 1);
        assert(n1 >= 1);
        assert(n1 * 10 + d >= 10) by (nonlinear_arith)
            requires
                n1 >= 1 && d >= 0,
        ;
        assert((n1 * 10 + d) / 10 == n1 && (n1 * 10 + d) % 10 == d) by {
            vstd::arithmetic::div_mod::lemma_fundamental_div_mod_converse(
                n1 * 10 + d,
                10,
                n1,
                d,
            );
        }
        lemma_hex_val_digit(s[j - 1]);
        assert(enc_nat(dv(s, i, j) as nat) == enc_nat(n1 as nat) + seq![hex_digit(d)]);
        assert(forall|k: int|
            0 <= k < j - 1 - i ==> s[i + k] == #[trigger] s.subrange(i, j - 1)[k]);
        assert(enc_nat(dv(s, i, j) as nat) =~= s.subrange(i, j));
    }
}

/// What the number parser accepts is exactly the canonical digits of the
/// value it returns.
pub proof fn lemma_u64_sound(s: Seq<char>, i: int, n: u64, j: int)
    requires
        0 <= i <= s.len(),
        parse_u64(s, i) == Some((n, j)),
    ensures
        i < j <= s.len(),
        j == i + enc_nat(n as nat).len(),
        s.subrange(i, j) == enc_nat(n as nat),
        j == s.len() || !is_digit(s[j]),
    decreases s.len() - i,
{
    lemma_digits_end_bounds(s, i);
    lemma_enc_dv(s, i, j);
}

/// What the boolean parser accepts is exactly `true` or `false`.
pub proof fn lemma_bool_sound(s: Seq<char>, i: int, b: bool, j: int)
    requires
        parse_bool(s, i) == Some((b, j)),
    ensures
        0 <= i < j <= s.len(),
        j == i + enc_bool(b).len(),
        s.subrange(i, j) == enc_bool(b),
{
}

} // verus!
