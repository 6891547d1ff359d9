//! Reading the tokens of a JSON document from its bytes: string literals
//! (escapes, `\uXXXX` codes with surrogate pairs, and the bound on a
//! string's size; a byte that is not part of an escape stands for the
//! character with that code), the extent of a number, and whitespace.

use vstd::prelude::*;
use vstd::utf8::{encode_utf8, is_ascii_chars};
use crate::jsontext::{escape_char, escaped, quoted, ParseError};
use crate::text::{hex_digit, hex_text, hex_value, is_hex};
use crate::uuid::hex_char_value;

verus! {

/// The most bytes (in UTF-8) a string may reach before it is refused.
pub const MAX_STRING_LEN: usize = 10485760;

/// The number of bytes of a character in UTF-8.
pub open spec fn char_width(c: char) -> nat {
    if (c as u32) < 0x80 {
        1
    } else if (c as u32) < 0x800 {
        2
    } else if (c as u32) < 0x10000 {
        3
    } else {
        4
    }
}

/// The number of bytes of a text in UTF-8.
pub open spec fn utf8_size(s: Seq<char>) -> nat
    decreases s.len(),
{
    if s.len() == 0 {
        0
    } else {
        utf8_size(s.drop_last()) + char_width(s.last())
    }
}

/// Reading `n` hexadecimal digits from position `p`, onto the value `acc`:
/// the value and the position after them, or the error met first.
pub open spec fn hex_digits(b: Seq<u8>, p: int, n: nat, acc: int) -> Result<(int, int), ParseError>
    decreases n,
{
    if n == 0 {
        Ok((acc, p))
    } else if p >= b.len() {
        Err(ParseError::UnexpectedEof)
    } else if !is_hex(b[p] as char) {
        Err(ParseError::InvalidUnicode(p as usize))
    } else {
        hex_digits(b, p + 1, (n - 1) as nat, acc * 16 + hex_value(b[p] as char))
    }
}

/// The byte at `k` must be `x`.
pub open spec fn expect_byte(b: Seq<u8>, k: int, x: u8) -> Option<ParseError> {
    if k >= b.len() {
        Some(ParseError::UnexpectedEof)
    } else if b[k] != x {
        Some(ParseError::UnexpectedChar(k as usize, b[k] as char))
    } else {
        None
    }
}

/// A `\u` escape whose `u` is at `j`: four digits; a high surrogate must
/// be followed by `\u` and a low surrogate, the pair giving one
/// character; a lone low surrogate is refused.
pub open spec fn unicode_escape(b: Seq<u8>, j: int) -> Result<(char, int), ParseError> {
    match hex_digits(b, j + 1, 4, 0) {
        Err(e) => Err(e),
        Ok((cp, k)) => if 0xD800 <= cp <= 0xDBFF {
            if expect_byte(b, k, 0x5c) is Some {
                Err(expect_byte(b, k, 0x5c)->0)
            } else if expect_byte(b, k + 1, 0x75) is Some {
                Err(expect_byte(b, k + 1, 0x75)->0)
            } else {
                match hex_digits(b, k + 2, 4, 0) {
                    Err(e) => Err(e),
                    Ok((lo, m)) => if 0xDC00 <= lo <= 0xDFFF {
                        Ok(((0x10000 + (cp - 0xD800) * 1024 + (lo - 0xDC00)) as char, m))
                    } else {
                        Err(ParseError::InvalidUnicode(m as usize))
                    },
                }
            }
        } else if 0xDC00 <= cp <= 0xDFFF {
            Err(ParseError::InvalidUnicode(k as usize))
        } else {
            Ok((cp as char, k))
        },
    }
}

/// The escape whose letter is at `j` (just after a backslash): the
/// character it stands for and the position after it.
pub open spec fn escape_at(b: Seq<u8>, j: int) -> Result<(char, int), ParseError> {
    let e = b[j];
    if e == 0x22 {
        Ok(('"', j + 1))
    } else if e == 0x5c {
        Ok(('\\', j + 1))
    } else if e == 0x2f {
        Ok(('/', j + 1))
    } else if e == 0x6e {
        Ok(('\n', j + 1))
    } else if e == 0x72 {
        Ok(('\r', j + 1))
    } else if e == 0x74 {
        Ok(('\t', j + 1))
    } else if e == 0x62 {
        Ok(('\u{8}', j + 1))
    } else if e == 0x66 {
        Ok(('\u{c}', j + 1))
    } else if e == 0x75 {
        unicode_escape(b, j)
    } else {
        Err(ParseError::InvalidEscape(j as usize))
    }
}

pub proof fn lemma_hex_digits_advance(b: Seq<u8>, p: int, n: nat, acc: int)
    ensures
        hex_digits(b, p, n, acc) matches Ok((v, q)) ==> q == p + n && q <= b.len() || n == 0,
    decreases n,
{
    if n > 0 && p < b.len() && is_hex(b[p] as char) {
        lemma_hex_digits_advance(b, p + 1, (n - 1) as nat, acc * 16 + hex_value(b[p] as char));
    }
}

pub proof fn lemma_escape_advances(b: Seq<u8>, j: int)
    requires
        0 <= j < b.len(),
    ensures
        escape_at(b, j) matches Ok((c, next)) ==> j < next <= b.len(),
{
    lemma_hex_digits_advance(b, j + 1, 4, 0);
    if let Ok((cp, k)) = hex_digits(b, j + 1, 4, 0) {
        lemma_hex_digits_advance(b, k + 2, 4, 0);
    }
}

/// The rest of a string literal from position `i`, with `acc` read so
/// far: the text and the position after the closing quote, or the error
/// met first. The size bound is checked before each byte is read.
pub open spec fn string_from(b: Seq<u8>, i: int, acc: Seq<char>) -> Result<(Seq<char>, int), ParseError>
    decreases b.len() - i,
{
    if utf8_size(acc) > MAX_STRING_LEN {
        Err(ParseError::StringTooLong(utf8_size(acc) as usize))
    } else if i < 0 || i >= b.len() {
        Err(ParseError::UnexpectedEof)
    } else if b[i] == 0x22 {
        Ok((acc, i + 1))
    } else if b[i] == 0x5c {
        if i + 1 >= b.len() {
            Err(ParseError::UnexpectedEof)
        } else {
            proof {
                lemma_escape_advances(b, i + 1);
            }
            match escape_at(b, i + 1) {
                Err(e) => Err(e),
                Ok((c, next)) => string_from(b, next, acc.push(c)),
            }
        }
    } else {
        string_from(b, i + 1, acc.push(b[i] as char))
    }
}

/// The string literal that starts at `pos` with its opening quote.
pub open spec fn string_literal(b: Seq<u8>, pos: int) -> Result<(Seq<char>, int), ParseError> {
    if expect_byte(b, pos, 0x22) is Some {
        Err(expect_byte(b, pos, 0x22)->0)
    } else {
        string_from(b, pos + 1, Seq::empty())
    }
}

proof fn lemma_ascii_size(s: Seq<char>)
    requires
        is_ascii_chars(s),
    ensures
        utf8_size(s) == s.len(),
    decreases s.len(),
{
    if s.len() > 0 {
        assert(is_ascii_chars(s.drop_last()));
        lemma_ascii_size(s.drop_last());
        assert(s[s.len() - 1] == s.last());
    }
}

proof fn lemma_escaped_append(a: Seq<char>, b: Seq<char>)
    ensures
        escaped(a + b) == escaped(a) + escaped(b),
    decreases b.len(),
{
    if b.len() == 0 {
        assert(a + b =~= a);
        assert(escaped(a) + escaped(b) =~= escaped(a));
    } else {
        lemma_escaped_append(a, b.drop_last());
        assert((a + b).drop_last() =~= a + b.drop_last());
        assert((a + b).last() == b.last());
    }
}

proof fn lemma_escape_char_ascii(c: char)
    requires
        (c as u32) < 0x80,
    ensures
        is_ascii_chars(escape_char(c)),
        escape_char(c).len() >= 1,
{
    if (c as u32) < 0x20 && c != '"' && c != '\\' && c != '\n' && c != '\r' && c != '\t' {
        let v = c as u32 as nat;
        let h = hex_text(v, 2);
        assert(h == hex_text(v / 16, 1).push(hex_digit((v % 16) as int)));
        assert(hex_text(v / 16, 1) == hex_text(v / 16 / 16, 0).push(hex_digit(((v / 16) % 16) as int)));
        assert(escape_char(c) =~= seq!['\\', 'u', '0', '0', hex_digit(((v / 16) % 16) as int), hex_digit((v % 16) as int)]);
    }
}

proof fn lemma_escaped_ascii(s: Seq<char>)
    requires
        is_ascii_chars(s),
    ensures
        is_ascii_chars(escaped(s)),
    decreases s.len(),
{
    if s.len() > 0 {
        assert(is_ascii_chars(s.drop_last()));
        lemma_escaped_ascii(s.drop_last());
        assert(s[s.len() - 1] == s.last());
        lemma_escape_char_ascii(s.last());
        let a = escaped(s.drop_last());
        let e = escape_char(s.last());
        assert forall|i: int| 0 <= i < (a + e).len() implies '\0' <= #[trigger] (a + e)[i] <= '\u{7f}' by {
            if i < a.len() {
                assert((a + e)[i] == a[i]);
            } else {
                assert((a + e)[i] == e[i - a.len()]);
            }
        }
    }
}

proof fn lemma_quoted_ascii(s: Seq<char>)
    requires
        is_ascii_chars(s),
    ensures
        is_ascii_chars(quoted(s)),
{
    lemma_escaped_ascii(s);
    let q = quoted(s);
    assert forall|i: int| 0 <= i < q.len() implies '\0' <= #[trigger] q[i] <= '\u{7f}' by {
        if 1 <= i < q.len() - 1 {
            assert(q[i] == escaped(s)[i - 1]);
        }
    }
}

/// Reading the bytes of the escape of an ASCII character gives the
/// character back and moves past them.
proof fn lemma_read_escape_bytes(b: Seq<u8>, p: int, acc: Seq<char>, c: char)
    requires
        (c as u32) < 0x80,
        0 <= p,
        p + escape_char(c).len() < b.len(),
        utf8_size(acc) <= MAX_STRING_LEN,
        forall|t: int| 0 <= t < escape_char(c).len() ==> #[trigger] b[p + t] == escape_char(c)[t] as u8,
    ensures
        string_from(b, p, acc) == string_from(b, p + escape_char(c).len(), acc.push(c)),
{
    let ec = escape_char(c);
    lemma_escape_char_ascii(c);
    let t0: int = 0;
    assert(b[p + t0] == ec[t0] as u8);
    if c == '"' || c == '\\' || c == '\n' || c == '\r' || c == '\t' {
        assert(b[p + 1] == ec[1] as u8);
    } else if (c as u32) < 0x20 {
        let v = c as u32 as nat;
        assert(hex_text(v, 2) == hex_text(v / 16, 1).push(hex_digit((v % 16) as int)));
        assert(hex_text(v / 16, 1) == hex_text(v / 16 / 16, 0).push(hex_digit(((v / 16) % 16) as int)));
        let h1 = hex_digit(((v / 16) % 16) as int);
        let h0 = hex_digit((v % 16) as int);
        assert(ec =~= seq!['\\', 'u', '0', '0', h1, h0]);
        assert(b[p + 1] == ec[1] as u8);
        assert(b[p + 2] == ec[2] as u8);
        assert(b[p + 3] == ec[3] as u8);
        assert(b[p + 4] == ec[4] as u8);
        assert(b[p + 5] == ec[5] as u8);
        assert(is_hex(b[p + 4] as char) && hex_value(b[p + 4] as char) == (v / 16) % 16);
        assert(is_hex(b[p + 5] as char) && hex_value(b[p + 5] as char) == v % 16);
        reveal_with_fuel(hex_digits, 5);
        assert(hex_digits(b, p + 2, 4, 0) == Ok::<(int, int), ParseError>((v as int, p + 6)));
        vstd::utf8::char_u32_cast(c, c as u32);
    } else {
        assert(ec == seq![c]);
        vstd::utf8::char_u32_cast(c, c as u32);
    }
}

/// Where the escape of character `k` of a quoted ASCII text stands in
/// its bytes.
proof fn lemma_quoted_layout(s: Seq<char>, k: int)
    requires
        is_ascii_chars(s),
        0 <= k < s.len(),
    ensures
        ({
            let b = encode_utf8(quoted(s));
            let p = 1 + escaped(s.take(k)).len() as int;
            let ec = escape_char(s[k]);
            &&& p + ec.len() < b.len()
            &&& forall|t: int| 0 <= t < ec.len() ==> #[trigger] b[p + t] == ec[t] as u8
            &&& escaped(s.take(k + 1)).len() == escaped(s.take(k)).len() + ec.len()
        }),
{
    let q = quoted(s);
    lemma_quoted_ascii(s);
    let es = escaped(s);
    let b = encode_utf8(q);
    vstd::utf8::is_ascii_chars_encode_utf8(q);
    let e0 = escaped(s.take(k));
    let c = s[k];
    let ec = escape_char(c);
    assert(s.take(k + 1).drop_last() =~= s.take(k));
    assert(s.take(k + 1).last() == c);
    assert(escaped(s.take(k + 1)) == e0 + ec);
    lemma_escaped_append(s.take(k + 1), s.skip(k + 1));
    assert(s.take(k + 1) + s.skip(k + 1) =~= s);
    let p: int = 1 + e0.len() as int;
    assert(es == e0 + ec + escaped(s.skip(k + 1)));
    assert forall|t: int| 0 <= t < ec.len() implies #[trigger] b[p + t] == ec[t] as u8 by {
        assert(q[p + t] == es[p + t - 1]);
        assert(es[p + t - 1] == (e0 + ec)[e0.len() + t]);
        assert(b[p + t] == q[p + t] as u8);
    }
}

/// Reading the escape of one character of a quoted ASCII text gives the
/// character back and moves past the escape.
proof fn lemma_read_one(s: Seq<char>, k: int)
    requires
        is_ascii_chars(s),
        s.len() <= MAX_STRING_LEN,
        0 <= k < s.len(),
    ensures
        string_from(encode_utf8(quoted(s)), 1 + escaped(s.take(k)).len() as int, s.take(k))
            == string_from(encode_utf8(quoted(s)), 1 + escaped(s.take(k + 1)).len() as int, s.take(k + 1)),
{
    lemma_quoted_layout(s, k);
    let acc = s.take(k);
    assert(is_ascii_chars(acc)) by {
        assert forall|i: int| 0 <= i < acc.len() implies '\0' <= #[trigger] acc[i] <= '\u{7f}' by {
            assert(acc[i] == s[i]);
        }
    }
    lemma_ascii_size(acc);
    assert(acc.push(s[k]) =~= s.take(k + 1));
    assert('\0' <= s[k] <= '\u{7f}');
    lemma_read_escape_bytes(encode_utf8(quoted(s)), 1 + escaped(acc).len() as int, acc, s[k]);
}

proof fn lemma_read_prefix(s: Seq<char>, k: int)
    requires
        is_ascii_chars(s),
        s.len() <= MAX_STRING_LEN,
        0 <= k <= s.len(),
    ensures
        string_literal(encode_utf8(quoted(s)), 0)
            == string_from(encode_utf8(quoted(s)), 1 + escaped(s.take(k)).len() as int, s.take(k)),
    decreases k,
{
    if k == 0 {
        lemma_quoted_ascii(s);
        let q = quoted(s);
        vstd::utf8::is_ascii_chars_encode_utf8(q);
        assert(encode_utf8(q)[0] == q[0] as u8);
        assert(s.take(0) =~= Seq::<char>::empty());
    } else {
        lemma_read_prefix(s, k - 1);
        lemma_read_one(s, k - 1);
    }
}

/// Reading a quoted ASCII text gives the text back, with the position
/// just after its closing quote, when the text is within the size bound.
pub proof fn law_ascii_string_roundtrip(s: Seq<char>)
    requires
        is_ascii_chars(s),
        s.len() <= MAX_STRING_LEN,
    ensures
        string_literal(encode_utf8(quoted(s)), 0) == Ok::<(Seq<char>, int), ParseError>((s, quoted(s).len() as int)),
{
    lemma_read_prefix(s, s.len() as int);
    assert(s.take(s.len() as int) =~= s);
    lemma_ascii_size(s);
    lemma_quoted_ascii(s);
    let q = quoted(s);
    vstd::utf8::is_ascii_chars_encode_utf8(q);
    let last = q.len() - 1;
    assert(encode_utf8(q)[last] == q[last] as u8);
}

/// `char::from_u32`: the character with a code, when the code is a
/// Unicode scalar value (not above 0x10FFFF and not a surrogate).
#[verifier::external_body]
fn char_from_code(v: u32) -> (r: Option<char>)
    ensures
        r is Some <==> (v <= 0x10FFFF && !(0xD800 <= v <= 0xDFFF)),
        r matches Some(c) ==> c as u32 == v,
{
    char::from_u32(v)
}

/// The byte at `k` must be `x`.
fn expect_at(b: &[u8], k: usize, x: u8) -> (r: Option<ParseError>)
    ensures
        r == expect_byte(b@, k as int, x),
{
    if k >= b.len() {
        Some(ParseError::UnexpectedEof)
    } else if b[k] != x {
        Some(ParseError::UnexpectedChar(k, b[k] as char))
    } else {
        None
    }
}

/// Read four hexadecimal digits at `p`.
fn read_hex4(b: &[u8], p: usize) -> (r: Result<(u32, usize), ParseError>)
    ensures
        match hex_digits(b@, p as int, 4, 0) {
            Ok((v, q)) => r matches Ok((x, y)) && x == v && y == q,
            Err(e) => r == Err::<(u32, usize), ParseError>(e),
        },
        r matches Ok((x, y)) ==> x < 0x10000,
{
    let n = b.len();
    let mut val: u32 = 0;
    let mut t: usize = 0;
    let mut k: usize = p;
    proof {
        reveal_with_fuel(pow16, 5);
    }
    while t < 4
        invariant
            n == b@.len(),
            t <= 4,
            k == p + t,
            k <= n || t == 0,
            val < pow16(t as nat),
            pow16(4) == 65536,
            hex_digits(b@, p as int, 4, 0) == hex_digits(b@, k as int, (4 - t) as nat, val as int),
        decreases 4 - t,
    {
        if k >= n {
            return Err(ParseError::UnexpectedEof);
        }
        proof {
            lemma_pow16_mono(t as nat, 4);
        }
        let c = b[k] as char;
        match hex_char_value(c) {
            Some(d) => {
                assert(val * 16 + d < pow16((t + 1) as nat)) by (nonlinear_arith)
                    requires
                        val < pow16(t as nat),
                        d < 16,
                        pow16((t + 1) as nat) == pow16(t as nat) * 16,
                ;
                val = val * 16 + d as u32;
            },
            None => {
                return Err(ParseError::InvalidUnicode(k));
            },
        }
        t += 1;
        k += 1;
    }
    Ok((val, k))
}

proof fn lemma_pow16_mono(a: nat, c: nat)
    requires
        a <= c,
    ensures
        pow16(a) <= pow16(c),
    decreases c,
{
    if a < c {
        lemma_pow16_mono(a, (c - 1) as nat);
    }
}

/// 16 to the power `n`.
pub open spec fn pow16(n: nat) -> nat
    decreases n,
{
    if n == 0 {
        1
    } else {
        16 * pow16((n - 1) as nat)
    }
}

/// Read the escape whose letter is at `j`.
fn read_escape(b: &[u8], j: usize) -> (r: Result<(char, usize), ParseError>)
    requires
        j < b@.len(),
    ensures
        match escape_at(b@, j as int) {
            Ok((c, next)) => r matches Ok((x, y)) && x == c && y == next,
            Err(e) => r == Err::<(char, usize), ParseError>(e),
        },
{
    let e = b[j];
    if e == 0x22 {
        Ok(('"', j + 1))
    } else if e == 0x5c {
        Ok(('\\', j + 1))
    } else if e == 0x2f {
        Ok(('/', j + 1))
    } else if e == 0x6e {
        Ok(('\n', j + 1))
    } else if e == 0x72 {
        Ok(('\r', j + 1))
    } else if e == 0x74 {
        Ok(('\t', j + 1))
    } else if e == 0x62 {
        Ok(('\u{8}', j + 1))
    } else if e == 0x66 {
        Ok(('\u{c}', j + 1))
    } else if e == 0x75 {
        read_unicode(b, j)
    } else {
        Err(ParseError::InvalidEscape(j))
    }
}

/// Read a `\u` escape whose `u` is at `j`.
fn read_unicode(b: &[u8], j: usize) -> (r: Result<(char, usize), ParseError>)
    requires
        j < b@.len(),
    ensures
        match unicode_escape(b@, j as int) {
            Ok((c, next)) => r matches Ok((x, y)) && x == c && y == next,
            Err(e) => r == Err::<(char, usize), ParseError>(e),
        },
{
    let _n = b.len();
    proof {
        lemma_hex_digits_advance(b@, j + 1, 4, 0);
    }
    let (cp, k) = match read_hex4(b, j + 1) {
        Ok(v) => v,
        Err(e) => return Err(e),
    };
    if 0xD800 <= cp && cp <= 0xDBFF {
        if let Some(e) = expect_at(b, k, 0x5c) {
            return Err(e);
        }
        if let Some(e) = expect_at(b, k + 1, 0x75) {
            return Err(e);
        }
        proof {
            lemma_hex_digits_advance(b@, k + 2, 4, 0);
        }
        let (lo, m) = match read_hex4(b, k + 2) {
            Ok(v) => v,
            Err(e) => return Err(e),
        };
        if 0xDC00 <= lo && lo <= 0xDFFF {
            let combined: u32 = 0x10000 + (cp - 0xD800) * 1024 + (lo - 0xDC00);
            match char_from_code(combined) {
                Some(c) => {
                    proof {
                        vstd::utf8::char_u32_cast(c, combined);
                    }
                    Ok((c, m))
                },
                None => Err(ParseError::InvalidUnicode(m)),
            }
        } else {
            Err(ParseError::InvalidUnicode(m))
        }
    } else {
        match char_from_code(cp) {
            Some(c) => {
                proof {
                    vstd::utf8::char_u32_cast(c, cp);
                }
                Ok((c, k))
            },
            None => Err(ParseError::InvalidUnicode(k)),
        }
    }
}

/// The number of bytes of a character in UTF-8.
fn width_of(c: char) -> (w: usize)
    ensures
        w == char_width(c),
{
    let v = c as u32;
    if v < 0x80 {
        1
    } else if v < 0x800 {
        2
    } else if v < 0x10000 {
        3
    } else {
        4
    }
}

/// Read the string literal that starts at `pos` with its opening quote:
/// the text and the position after the closing quote.
pub fn read_string(b: &[u8], pos: usize) -> (r: Result<(String, usize), ParseError>)
    ensures
        match string_literal(b@, pos as int) {
            Ok((s, next)) => r matches Ok((x, y)) && x@ == s && y == next,
            Err(e) => r == Err::<(String, usize), ParseError>(e),
        },
{
    let _n = b.len();
    if let Some(e) = expect_at(b, pos, 0x22) {
        return Err(e);
    }
    let mut s = String::new();
    let mut size: usize = 0;
    let mut i: usize = pos + 1;
    loop
        invariant
            i <= b@.len(),
            size == utf8_size(s@),
            size <= MAX_STRING_LEN + 4,
            string_literal(b@, pos as int) == string_from(b@, i as int, s@),
        decreases b@.len() - i,
    {
        if size > MAX_STRING_LEN {
            return Err(ParseError::StringTooLong(size));
        }
        if i >= b.len() {
            return Err(ParseError::UnexpectedEof);
        }
        let x = b[i];
        if x == 0x22 {
            return Ok((s, i + 1));
        }
        if x == 0x5c {
            if i + 1 >= b.len() {
                return Err(ParseError::UnexpectedEof);
            }
            proof {
                lemma_escape_advances(b@, i + 1);
            }
            match read_escape(b, i + 1) {
                Ok((c, next)) => {
                    let ghost before = s@;
                    s.push(c);
                    assert(s@.drop_last() =~= before);
                    size = size + width_of(c);
                    i = next;
                },
                Err(e) => return Err(e),
            }
        } else {
            let c = x as char;
            let ghost before = s@;
            s.push(c);
            assert(s@.drop_last() =~= before);
            size = size + width_of(c);
            i = i + 1;
        }
    }
}

/// An ASCII decimal digit.
pub open spec fn is_digit_byte(x: u8) -> bool {
    0x30 <= x <= 0x39
}

/// The first position from `i` on that is not a digit.
pub open spec fn digits_end(b: Seq<u8>, i: int) -> int
    decreases b.len() - i,
{
    if 0 <= i < b.len() && is_digit_byte(b[i]) {
        digits_end(b, i + 1)
    } else {
        i
    }
}

/// The end of a number that starts at `start`: an optional minus sign,
/// then `0` or a run of digits, then optionally `.` and at least one
/// digit, then optionally `e` or `E`, an optional sign and at least one
/// digit. A number missing a required digit is refused at its start.
pub open spec fn number_end(b: Seq<u8>, start: int) -> Result<int, ParseError> {
    let i0 = if 0 <= start < b.len() && b[start] == 0x2d { start + 1 } else { start };
    if !(0 <= i0 < b.len() && is_digit_byte(b[i0])) {
        Err(ParseError::InvalidNumber(start as usize))
    } else {
        let i1 = if b[i0] == 0x30 { i0 + 1 } else { digits_end(b, i0) };
        let frac = i1 < b.len() && b[i1] == 0x2e;
        let i2 = if frac { digits_end(b, i1 + 1) } else { i1 };
        if frac && i2 == i1 + 1 {
            Err(ParseError::InvalidNumber(start as usize))
        } else {
            let exp = i2 < b.len() && (b[i2] == 0x65 || b[i2] == 0x45);
            let j = if exp && i2 + 1 < b.len() && (b[i2 + 1] == 0x2b || b[i2 + 1] == 0x2d) { i2 + 2 } else { i2 + 1 };
            if exp && digits_end(b, j) == j {
                Err(ParseError::InvalidNumber(start as usize))
            } else if exp {
                Ok(digits_end(b, j))
            } else {
                Ok(i2)
            }
        }
    }
}

proof fn lemma_digits_end_bounds(b: Seq<u8>, i: int)
    requires
        0 <= i <= b.len(),
    ensures
        i <= digits_end(b, i) <= b.len(),
    decreases b.len() - i,
{
    if i < b.len() && is_digit_byte(b[i]) {
        lemma_digits_end_bounds(b, i + 1);
    }
}

/// Skip the digits from `i` on.
fn skip_digits(b: &[u8], i: usize) -> (r: usize)
    requires
        i <= b@.len(),
    ensures
        r == digits_end(b@, i as int),
{
    let n = b.len();
    let mut k = i;
    while k < n && 0x30 <= b[k] && b[k] <= 0x39
        invariant
            n == b@.len(),
            i <= k <= n,
            digits_end(b@, i as int) == digits_end(b@, k as int),
        decreases n - k,
    {
        k += 1;
    }
    k
}

/// Where the number that starts at `start` ends (the text between is
/// what is converted to a value).
pub fn scan_number(b: &[u8], start: usize) -> (r: Result<usize, ParseError>)
    ensures
        match number_end(b@, start as int) {
            Ok(e) => r == Ok::<usize, ParseError>(e as usize) && start < e <= b@.len(),
            Err(x) => r == Err::<usize, ParseError>(x),
        },
{
    let n = b.len();
    if start > n {
        return Err(ParseError::InvalidNumber(start));
    }
    let i0 = if start < n && b[start] == 0x2d { start + 1 } else { start };
    if !(i0 < n && 0x30 <= b[i0] && b[i0] <= 0x39) {
        return Err(ParseError::InvalidNumber(start));
    }
    let i1 = if b[i0] == 0x30 { i0 + 1 } else { skip_digits(b, i0) };
    proof {
        lemma_digits_end_bounds(b@, i0 + 1);
    }
    let frac = i1 < n && b[i1] == 0x2e;
    let i2 = if frac { skip_digits(b, i1 + 1) } else { i1 };
    proof {
        if frac {
            lemma_digits_end_bounds(b@, i1 + 1);
        }
    }
    if frac && i2 == i1 + 1 {
        return Err(ParseError::InvalidNumber(start));
    }
    let exp = i2 < n && (b[i2] == 0x65 || b[i2] == 0x45);
    if !exp {
        return Ok(i2);
    }
    let j = if i2 + 1 < n && (b[i2 + 1] == 0x2b || b[i2 + 1] == 0x2d) { i2 + 2 } else { i2 + 1 };
    let e = skip_digits(b, j);
    proof {
        lemma_digits_end_bounds(b@, j as int);
    }
    if e == j {
        return Err(ParseError::InvalidNumber(start));
    }
    Ok(e)
}

/// Whitespace between tokens: space, tab, newline, carriage return.
pub open spec fn is_space_byte(x: u8) -> bool {
    x == 0x20 || x == 0x09 || x == 0x0a || x == 0x0d
}

/// The first position from `i` on that is not whitespace.
pub open spec fn space_end(b: Seq<u8>, i: int) -> int
    decreases b.len() - i,
{
    if 0 <= i < b.len() && is_space_byte(b[i]) {
        space_end(b, i + 1)
    } else {
        i
    }
}

/// Skip the whitespace from `i` on.
pub fn skip_space(b: &[u8], i: usize) -> (r: usize)
    ensures
        r == space_end(b@, i as int),
{
    let n = b.len();
    let mut k = i;
    while k < n && (b[k] == 0x20 || b[k] == 0x09 || b[k] == 0x0a || b[k] == 0x0d)
        invariant
            n == b@.len(),
            i <= k,
            k <= n || k == i,
            space_end(b@, i as int) == space_end(b@, k as int),
        decreases n - k,
    {
        k += 1;
    }
    k
}

} // verus!
