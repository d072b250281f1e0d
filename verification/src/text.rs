//! Rendering of numbers and JSON text, the way the wire format writes them.

use vstd::prelude::*;

verus! {

/// The character of a decimal digit.
pub open spec fn digit_char(d: nat) -> char
    recommends
        d < 10,
{
    (48 + d) as char
}

/// The decimal digits of `n`, most significant first, without leading zeros.
pub open spec fn decimal(n: nat) -> Seq<char>
    decreases n,
{
    if n < 10 {
        seq![digit_char(n)]
    } else {
        decimal(n / 10).push(digit_char(n % 10))
    }
}

/// Appends one character to a string: `String::push`, whose documentation says it
/// appends the character to the end. Claimed: the new text is the old one followed by `c`.
#[verifier::external_body]
pub(crate) fn push_char(s: &mut String, c: char)
    ensures
        final(s)@ == old(s)@.push(c),
{
    s.push(c);
}

/// Appends the decimal digits of `n` to `out`.
pub fn push_decimal(out: &mut String, n: u64)
    ensures
        final(out)@ == old(out)@ + decimal(n as nat),
    decreases n,
{
    if n >= 10 {
        push_decimal(out, n / 10);
    }
    let d: u8 = (n % 10) as u8;
    push_char(out, (48u8 + d) as char);
    proof {
        assert(decimal(n as nat) == if n < 10 { seq![digit_char(n as nat)] } else {
            decimal((n / 10) as nat).push(digit_char((n % 10) as nat))
        });
    }
}

/// The text of a signed integer: a minus sign before the digits of a negative one.
pub open spec fn int_text(n: int) -> Seq<char> {
    if n < 0 {
        seq!['-'] + decimal((-n) as nat)
    } else {
        decimal(n as nat)
    }
}

/// Appends the decimal text of a signed 32-bit integer.
pub fn push_i32(out: &mut String, n: i32)
    ensures
        final(out)@ == old(out)@ + int_text(n as int),
{
    if n < 0 {
        push_char(out, '-');
        let m: i64 = n as i64;
        let magnitude: u64 = (-m) as u64;
        push_decimal(out, magnitude);
        assert(final(out)@ =~= old(out)@ + int_text(n as int));
    } else {
        push_decimal(out, n as u64);
    }
}

/// The fractional digits of a count of milliseconds below one second, as the
/// shortest decimal that gives the value back: trailing zeros dropped, and a
/// single `0` when there is no fraction.
pub open spec fn fraction_text(f: nat) -> Seq<char>
    recommends
        f < 1000,
{
    if f == 0 {
        seq!['0']
    } else if f % 100 == 0 {
        seq![digit_char(f / 100)]
    } else if f % 10 == 0 {
        seq![digit_char(f / 100), digit_char((f / 10) % 10)]
    } else {
        seq![digit_char(f / 100), digit_char((f / 10) % 10), digit_char(f % 10)]
    }
}

/// A count of milliseconds written as seconds with a decimal fraction,
/// such as `1700000000.25` for `1700000000250`.
pub open spec fn seconds_text(ms: nat) -> Seq<char> {
    decimal(ms / 1000) + seq!['.'] + fraction_text(ms % 1000)
}

fn digit(d: u64) -> (c: char)
    requires
        d < 10,
    ensures
        c == digit_char(d as nat),
{
    let b: u8 = d as u8;
    (48u8 + b) as char
}

/// Appends a count of milliseconds as seconds with a decimal fraction.
pub fn push_seconds(out: &mut String, ms: u64)
    ensures
        final(out)@ == old(out)@ + seconds_text(ms as nat),
{
    push_decimal(out, ms / 1000);
    push_char(out, '.');
    let f: u64 = ms % 1000;
    if f == 0 {
        push_char(out, '0');
    } else if f % 100 == 0 {
        push_char(out, digit(f / 100));
    } else if f % 10 == 0 {
        push_char(out, digit(f / 100));
        push_char(out, digit((f / 10) % 10));
    } else {
        push_char(out, digit(f / 100));
        push_char(out, digit((f / 10) % 10));
        push_char(out, digit(f % 10));
    }
    assert(final(out)@ =~= old(out)@ + seconds_text(ms as nat));
}

/// A lowercase hexadecimal digit.
pub open spec fn hex_char(d: nat) -> char
    recommends
        d < 16,
{
    if d < 10 {
        (48 + d) as char
    } else {
        (87 + d) as char
    }
}

/// How a JSON string writes one character: quote and backslash escaped,
/// the short escapes for backspace, form feed, newline, carriage return and
/// tab, `\u00XX` for the other control characters, and any other character as it is.
pub open spec fn json_char(c: char) -> Seq<char> {
    if c == '"' {
        seq!['\\', '"']
    } else if c == '\\' {
        seq!['\\', '\\']
    } else if c == '\x08' {
        seq!['\\', 'b']
    } else if c == '\x0c' {
        seq!['\\', 'f']
    } else if c == '\n' {
        seq!['\\', 'n']
    } else if c == '\r' {
        seq!['\\', 'r']
    } else if c == '\t' {
        seq!['\\', 't']
    } else if (c as u32) < 0x20 {
        seq!['\\', 'u', '0', '0', hex_char((c as u32) as nat / 16), hex_char((c as u32) as nat % 16)]
    } else {
        seq![c]
    }
}

/// The escaped body of a JSON string.
pub open spec fn json_escape(s: Seq<char>) -> Seq<char>
    decreases s.len(),
{
    if s.len() == 0 {
        seq![]
    } else {
        json_escape(s.drop_last()) + json_char(s.last())
    }
}

/// A JSON string literal: the escaped text between double quotes.
pub open spec fn json_string(s: Seq<char>) -> Seq<char> {
    seq!['"'] + json_escape(s) + seq!['"']
}

pub(crate) fn hex_digit(d: u32) -> (c: char)
    requires
        d < 16,
    ensures
        c == hex_char(d as nat),
{
    let b: u8 = d as u8;
    if b < 10 {
        (48u8 + b) as char
    } else {
        (87u8 + b) as char
    }
}

/// Appends one character as a JSON string writes it.
pub fn push_json_char(out: &mut String, c: char)
    ensures
        final(out)@ == old(out)@ + json_char(c),
{
    if c == '"' {
        push_char(out, '\\');
        push_char(out, '"');
    } else if c == '\\' {
        push_char(out, '\\');
        push_char(out, '\\');
    } else if c == '\x08' {
        push_char(out, '\\');
        push_char(out, 'b');
    } else if c == '\x0c' {
        push_char(out, '\\');
        push_char(out, 'f');
    } else if c == '\n' {
        push_char(out, '\\');
        push_char(out, 'n');
    } else if c == '\r' {
        push_char(out, '\\');
        push_char(out, 'r');
    } else if c == '\t' {
        push_char(out, '\\');
        push_char(out, 't');
    } else if (c as u32) < 0x20 {
        let code: u32 = c as u32;
        push_char(out, '\\');
        push_char(out, 'u');
        push_char(out, '0');
        push_char(out, '0');
        push_char(out, hex_digit(code / 16));
        push_char(out, hex_digit(code % 16));
    } else {
        push_char(out, c);
    }
    assert(final(out)@ =~= old(out)@ + json_char(c));
}

/// Appends `s` as a JSON string literal.
pub fn push_json_string(out: &mut String, s: &str)
    ensures
        final(out)@ == old(out)@ + json_string(s@),
{
    push_char(out, '"');
    let n = s.unicode_len();
    let ghost start = out@;
    let mut i: usize = 0;
    while i < n
        invariant
            n == s@.len(),
            i <= n,
            start == old(out)@.push('"'),
            out@ == start + json_escape(s@.take(i as int)),
        decreases n - i,
    {
        let c = s.get_char(i);
        push_json_char(out, c);
        proof {
            let t = s@.take(i as int + 1);
            assert(t.drop_last() =~= s@.take(i as int));
            assert(t.last() == c);
        }
        i = i + 1;
        assert(out@ =~= start + json_escape(s@.take(i as int)));
    }
    assert(s@.take(n as int) =~= s@);
    push_char(out, '"');
    assert(final(out)@ =~= old(out)@ + json_string(s@));
}

/// Whether two texts hold the same characters.
pub fn same_text(a: &str, b: &str) -> (same: bool)
    ensures
        same == (a@ == b@),
{
    let n = a.unicode_len();
    let m = b.unicode_len();
    if n != m {
        return false;
    }
    let mut i: usize = 0;
    while i < n
        invariant
            n == a@.len(),
            m == b@.len(),
            n == m,
            i <= n,
            forall|j: int| 0 <= j < i ==> a@[j] == b@[j],
        decreases n - i,
    {
        if a.get_char(i) != b.get_char(i) {
            return false;
        }
        i = i + 1;
    }
    assert(a@ =~= b@);
    true
}

/// The value of a hexadecimal digit, in either case.
pub open spec fn hex_value(c: char) -> Option<nat> {
    if '0' <= c && c <= '9' {
        Some((c as int - 48) as nat)
    } else if 'a' <= c && c <= 'f' {
        Some((c as int - 87) as nat)
    } else if 'A' <= c && c <= 'F' {
        Some((c as int - 55) as nat)
    } else {
        None
    }
}

/// The character that a two-character JSON escape `\e` stands for (RFC 8259, section 7).
pub open spec fn short_escape(e: char) -> Option<char> {
    if e == '"' {
        Some('"')
    } else if e == '\\' {
        Some('\\')
    } else if e == '/' {
        Some('/')
    } else if e == 'b' {
        Some('\x08')
    } else if e == 'f' {
        Some('\x0c')
    } else if e == 'n' {
        Some('\n')
    } else if e == 'r' {
        Some('\r')
    } else if e == 't' {
        Some('\t')
    } else {
        None
    }
}

/// `c` put before the decoded rest, when the rest decodes.
pub open spec fn then_decoded(c: char, rest: Option<Seq<char>>) -> Option<Seq<char>> {
    match rest {
        Some(r) => Some(seq![c] + r),
        None => None,
    }
}

/// Reads the body of a JSON string (RFC 8259, section 7) back into the text it stands
/// for: `\u` with four hexadecimal digits stands for the character with that code,
/// a backslash with one of `" \ / b f n r t` for the character it names, and any other
/// character except `"`, a backslash and the control characters for itself. None when the
/// body is not well formed.
pub open spec fn json_unescape(t: Seq<char>) -> Option<Seq<char>>
    decreases t.len(),
{
    if t.len() == 0 {
        Some(Seq::empty())
    } else if t[0] == '\\' {
        if t.len() >= 6 && t[1] == 'u' && hex_value(t[2]) is Some && hex_value(t[3]) is Some
            && hex_value(t[4]) is Some && hex_value(t[5]) is Some {
            let code = hex_value(t[2]).unwrap() * 4096 + hex_value(t[3]).unwrap() * 256
                + hex_value(t[4]).unwrap() * 16 + hex_value(t[5]).unwrap();
            if code < 0xD800 || 0xE000 <= code {
                then_decoded(code as char, json_unescape(t.skip(6)))
            } else {
                None
            }
        } else if t.len() >= 2 && short_escape(t[1]) is Some {
            then_decoded(short_escape(t[1]).unwrap(), json_unescape(t.skip(2)))
        } else {
            None
        }
    } else if t[0] == '"' || (t[0] as u32) < 0x20 {
        None
    } else {
        then_decoded(t[0], json_unescape(t.skip(1)))
    }
}

/// Reads a JSON string literal back into the text it stands for.
pub open spec fn json_string_value(t: Seq<char>) -> Option<Seq<char>> {
    if t.len() >= 2 && t[0] == '"' && t.last() == '"' {
        json_unescape(t.subrange(1, t.len() - 1))
    } else {
        None
    }
}

/// A hexadecimal digit reads back as its value.
proof fn lemma_hex_value(d: nat)
    requires
        d < 16,
    ensures
        hex_value(hex_char(d)) == Some(d),
{
}

/// The escaped text, read from the front: the first character's escape, then the rest.
proof fn lemma_json_escape_front(s: Seq<char>)
    requires
        s.len() > 0,
    ensures
        json_escape(s) == json_char(s[0]) + json_escape(s.drop_first()),
    decreases s.len(),
{
    if s.len() > 1 {
        lemma_json_escape_front(s.drop_last());
        assert(s.drop_last().drop_first() =~= s.drop_first().drop_last());
        assert(s.drop_first().last() == s.last());
        assert(s.drop_last()[0] == s[0]);
        assert(json_escape(s) =~= json_char(s[0]) + json_escape(s.drop_first()));
    } else {
        assert(s.drop_last() =~= Seq::<char>::empty());
        assert(s.drop_first() =~= Seq::<char>::empty());
        assert(json_escape(s) =~= json_char(s[0]) + json_escape(s.drop_first()));
    }
}

/// A character's escape reads back as the character, whatever follows it.
proof fn lemma_json_char_decodes(c: char, rest: Seq<char>)
    ensures
        json_unescape(json_char(c) + rest) == then_decoded(c, json_unescape(rest)),
{
    let e = json_char(c);
    let t = e + rest;
    assert(t.skip(e.len() as int) =~= rest);
    if c == '"' || c == '\\' || c == '\x08' || c == '\x0c' || c == '\n' || c == '\r' || c == '\t' {
        assert(t[0] == '\\' && t[1] == e[1]);
        assert(t.skip(2) =~= rest);
    } else if (c as u32) < 0x20 {
        let hi = (c as u32) as nat / 16;
        let lo = (c as u32) as nat % 16;
        lemma_hex_value(hi);
        lemma_hex_value(lo);
        assert(t[0] == '\\' && t[1] == 'u' && t[2] == '0' && t[3] == '0');
        assert(t[4] == hex_char(hi) && t[5] == hex_char(lo));
        assert(t.skip(6) =~= rest);
        let code = hex_value(t[2]).unwrap() * 4096 + hex_value(t[3]).unwrap() * 256
            + hex_value(t[4]).unwrap() * 16 + hex_value(t[5]).unwrap();
        assert(code == (c as u32) as nat);
        assert((code as char) == c);
    } else {
        assert(t[0] == c);
        assert(t.skip(1) =~= rest);
    }
}

/// Every text reads back from its JSON escaping.
pub proof fn lemma_json_escape_round_trip(s: Seq<char>)
    ensures
        json_unescape(json_escape(s)) == Some(s),
    decreases s.len(),
{
    if s.len() == 0 {
        assert(json_escape(s) =~= Seq::<char>::empty());
    } else {
        lemma_json_escape_front(s);
        lemma_json_escape_round_trip(s.drop_first());
        lemma_json_char_decodes(s[0], json_escape(s.drop_first()));
        assert(seq![s[0]] + s.drop_first() =~= s);
    }
}

/// Every text reads back from its JSON string literal.
pub proof fn lemma_json_string_round_trip(s: Seq<char>)
    ensures
        json_string_value(json_string(s)) == Some(s),
{
    let t = json_string(s);
    assert(t.subrange(1, t.len() - 1) =~= json_escape(s));
    lemma_json_escape_round_trip(s);
}

/// A character that JSON lets stand for itself (not `"`, not a backslash, not a
/// control character) is written as it is.
pub proof fn lemma_json_char_plain(c: char)
    requires
        c != '"',
        c != '\\',
        (c as u32) >= 0x20,
    ensures
        json_char(c) == seq![c],
{
}

/// The number that a sequence of decimal digits stands for.
pub open spec fn digits_value(s: Seq<char>) -> int
    decreases s.len(),
{
    if s.len() == 0 {
        0
    } else {
        digits_value(s.drop_last()) * 10 + (s.last() as int - 48)
    }
}

/// The decimal text of `n` is made of digits, stands for `n`, and starts with a
/// nonzero digit unless `n` is 0.
pub proof fn lemma_decimal_value(n: nat)
    ensures
        digits_value(decimal(n)) == n,
        decimal(n).len() > 0,
        forall|i: int| 0 <= i < decimal(n).len() ==> '0' <= #[trigger] decimal(n)[i] && decimal(n)[i] <= '9',
        n > 0 ==> decimal(n)[0] != '0',
    decreases n,
{
    if n >= 10 {
        lemma_decimal_value(n / 10);
        let d = decimal(n / 10);
        let e = decimal(n);
        assert(e.drop_last() =~= d);
        assert forall|i: int| 0 <= i < e.len() implies '0' <= #[trigger] e[i] && e[i] <= '9' by {
            if i < d.len() {
                assert(e[i] == d[i]);
            }
        }
        assert(e[0] == d[0]);
        assert(e.last() == digit_char(n % 10));
        assert((digit_char(n % 10) as int) == 48 + n % 10);
        assert(n == (n / 10) * 10 + n % 10);
        assert(digits_value(e) == digits_value(e.drop_last()) * 10 + (e.last() as int - 48));
        assert(digits_value(e) == digits_value(d) * 10 + (n % 10));
    } else {
        let e = decimal(n);
        assert(e.drop_last() =~= Seq::<char>::empty());
        assert(digits_value(e.drop_last()) == 0);
        assert((digit_char(n) as int) == 48 + n);
        assert(digits_value(e) == digits_value(e.drop_last()) * 10 + (e.last() as int - 48));
    }
}

/// The fraction of a second written by `seconds_text`, filled up with zeros to three
/// digits, stands for the milliseconds: no digit is lost and no value changes.
pub proof fn lemma_fraction_value(f: nat)
    requires
        f < 1000,
    ensures
        1 <= fraction_text(f).len() <= 3,
        digits_value(fraction_text(f) + Seq::new((3 - fraction_text(f).len()) as nat, |i: int| '0')) == f,
{
    let t = fraction_text(f);
    let padded = t + Seq::new((3 - t.len()) as nat, |i: int| '0');
    assert(padded.len() == 3);
    assert(padded.drop_last().drop_last().drop_last() =~= Seq::<char>::empty());
    assert(digits_value(padded) == digits_value(padded.drop_last()) * 10 + (padded[2] as int - 48));
    assert(digits_value(padded.drop_last()) == digits_value(padded.drop_last().drop_last()) * 10 + (padded[1] as int - 48));
    let one = padded.drop_last().drop_last();
    assert(one.drop_last() =~= Seq::<char>::empty());
    assert(one.last() == padded[0]);
    assert(digits_value(one.drop_last()) == 0);
    assert(digits_value(one) == digits_value(one.drop_last()) * 10 + (one.last() as int - 48));
    assert(digits_value(one) == (padded[0] as int - 48));
    assert(padded.drop_last().last() == padded[1]);
}

} // verus!
