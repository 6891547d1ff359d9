//! JSON text for string data: quoting with escapes, and objects of string
//! members written in order of key (as the JSON serialiser writes them).

use vstd::prelude::*;
use crate::text::{dec_text, hex_text, push_decimal, push_hex};
use crate::tool::{lemma_text_lt_irreflexive, lemma_text_lt_total, lemma_text_lt_transitive, text_lt};

verus! {

/// The escaped form of one character inside a JSON string: `"` and `\`
/// are escaped, newline, carriage return and tab get their short escapes,
/// other control characters `\u00XX`, and the rest stand as they are.
pub open spec fn escape_char(c: char) -> Seq<char> {
    if c == '"' {
        seq!['\\', '"']
    } else if c == '\\' {
        seq!['\\', '\\']
    } else if c == '\n' {
        seq!['\\', 'n']
    } else if c == '\r' {
        seq!['\\', 'r']
    } else if c == '\t' {
        seq!['\\', 't']
    } else if (c as u32) < 0x20 {
        seq!['\\', 'u', '0', '0'] + hex_text(c as u32 as nat, 2)
    } else {
        seq![c]
    }
}

/// The escaped form of a text.
pub open spec fn escaped(s: Seq<char>) -> Seq<char>
    decreases s.len(),
{
    if s.len() == 0 {
        Seq::empty()
    } else {
        escaped(s.drop_last()) + escape_char(s.last())
    }
}

/// A text as a JSON string.
pub open spec fn quoted(s: Seq<char>) -> Seq<char> {
    seq!['"'] + escaped(s) + seq!['"']
}

/// Whether a text needs no escape in JSON: no control character, no `"`
/// and no `\`.
pub open spec fn plain_text(s: Seq<char>) -> bool {
    forall|i: int| 0 <= i < s.len() ==> (#[trigger] s[i] as u32) >= 0x20 && s[i] != '"' && s[i] != '\\'
}

/// Text that needs no escape is written as it is: its JSON string is the
/// text itself between quotes, whatever characters (ASCII or not) it
/// holds.
pub proof fn law_plain_text_quoted_as_is(s: Seq<char>)
    requires
        plain_text(s),
    ensures
        quoted(s) == seq!['"'] + s + seq!['"'],
        escaped(s) == s,
    decreases s.len(),
{
    if s.len() > 0 {
        let init = s.drop_last();
        assert(plain_text(init)) by {
            assert forall|i: int| 0 <= i < init.len() implies (#[trigger] init[i] as u32) >= 0x20 && init[i] != '"'
                && init[i] != '\\' by {
                assert(init[i] == s[i]);
            }
        }
        law_plain_text_quoted_as_is(init);
        let c = s.last();
        assert(s[s.len() - 1] == c);
        assert(c != '\n' && c != '\r' && c != '\t') by {
            assert(('\n' as u32) < 0x20 && ('\r' as u32) < 0x20 && ('\t' as u32) < 0x20);
        }
        assert(escape_char(c) == seq![c]);
        assert(escaped(s) =~= s);
    } else {
        assert(escaped(s) =~= s);
    }
}

/// Append the escaped form of one character.
fn push_escaped_char(out: &mut String, c: char)
    ensures
        final(out)@ == old(out)@ + escape_char(c),
{
    if c == '"' {
        out.push('\\');
        out.push('"');
    } else if c == '\\' {
        out.push('\\');
        out.push('\\');
    } else if c == '\n' {
        out.push('\\');
        out.push('n');
    } else if c == '\r' {
        out.push('\\');
        out.push('r');
    } else if c == '\t' {
        out.push('\\');
        out.push('t');
    } else if (c as u32) < 0x20 {
        out.push('\\');
        out.push('u');
        out.push('0');
        out.push('0');
        push_hex(out, c as u32 as u64, 2);
    } else {
        out.push(c);
    }
    assert(final(out)@ =~= old(out)@ + escape_char(c));
}

/// Append a text as a JSON string.
pub fn push_quoted(out: &mut String, s: &str)
    ensures
        final(out)@ == old(out)@ + quoted(s@),
{
    out.push('"');
    let ghost start = out@;
    let n = s.unicode_len();
    let mut i: usize = 0;
    while i < n
        invariant
            n == s@.len(),
            i <= n,
            out@ == start + escaped(s@.subrange(0, i as int)),
        decreases n - i,
    {
        let c = s.get_char(i);
        push_escaped_char(out, c);
        proof {
            assert(s@.subrange(0, i + 1).drop_last() =~= s@.subrange(0, i as int));
            assert(s@.subrange(0, i + 1).last() == c);
            assert(out@ =~= start + escaped(s@.subrange(0, i + 1)));
        }
        i += 1;
    }
    out.push('"');
    assert(s@.subrange(0, n as int) =~= s@);
    assert(out@ =~= old(out)@ + quoted(s@));
}

/// The members of an object, `"key":"value"` joined by commas.
pub open spec fn members_text(pairs: Seq<(Seq<char>, Seq<char>)>) -> Seq<char>
    decreases pairs.len(),
{
    if pairs.len() == 0 {
        Seq::empty()
    } else {
        let one = quoted(pairs.last().0) + seq![':'] + quoted(pairs.last().1);
        if pairs.len() == 1 {
            one
        } else {
            members_text(pairs.drop_last()) + seq![','] + one
        }
    }
}

/// An object of string members, in the order given.
pub open spec fn object_text(pairs: Seq<(Seq<char>, Seq<char>)>) -> Seq<char> {
    seq!['{'] + members_text(pairs) + seq!['}']
}

/// The texts of a sequence of string pairs.
pub open spec fn pair_texts(p: Seq<(String, String)>) -> Seq<(Seq<char>, Seq<char>)> {
    p.map_values(|x: (String, String)| (x.0@, x.1@))
}

/// Keys strictly increasing.
pub open spec fn keys_sorted(p: Seq<(String, String)>) -> bool {
    forall|a: int, b: int| 0 <= a < b < p.len() ==> text_lt(#[trigger] p[a].0@, #[trigger] p[b].0@)
}

/// The map a sequence of members denotes, later members winning.
pub open spec fn members_map(p: Seq<(String, String)>) -> Map<Seq<char>, Seq<char>>
    decreases p.len(),
{
    if p.len() == 0 {
        Map::empty()
    } else {
        members_map(p.drop_last()).insert(p.last().0@, p.last().1@)
    }
}

/// The map of a sorted member list, from its entries.
pub open spec fn sorted_map(p: Seq<(String, String)>) -> Map<Seq<char>, Seq<char>> {
    Map::new(
        |k: Seq<char>| exists|i: int| 0 <= i < p.len() && p[i].0@ == k,
        |k: Seq<char>| p[choose|i: int| 0 <= i < p.len() && p[i].0@ == k].1@,
    )
}

/// Write an object of string members in the order given.
pub fn object_of(pairs: &Vec<(String, String)>) -> (s: String)
    ensures
        s@ == object_text(pair_texts(pairs@)),
{
    let mut s = String::new();
    s.push('{');
    let mut i: usize = 0;
    while i < pairs.len()
        invariant
            i <= pairs@.len(),
            s@ == seq!['{'] + members_text(pair_texts(pairs@.take(i as int))),
        decreases pairs@.len() - i,
    {
        proof {
            assert(pair_texts(pairs@.take(i + 1)).drop_last() =~= pair_texts(pairs@.take(i as int)));
            assert(pair_texts(pairs@.take(i + 1)).last() == (pairs@[i as int].0@, pairs@[i as int].1@));
            if i == 0 {
                assert(pair_texts(pairs@.take(0)).len() == 0);
            }
        }
        let ghost before = s@;
        if i > 0 {
            s.push(',');
        }
        push_quoted(&mut s, pairs[i].0.as_str());
        s.push(':');
        push_quoted(&mut s, pairs[i].1.as_str());
        proof {
            let one = quoted(pairs@[i as int].0@) + seq![':'] + quoted(pairs@[i as int].1@);
            if i == 0 {
                assert(s@ =~= seq!['{'] + one);
            } else {
                assert(s@ =~= before + seq![','] + one);
            }
            assert(s@ =~= seq!['{'] + members_text(pair_texts(pairs@.take(i + 1))));
        }
        i += 1;
    }
    s.push('}');
    assert(pairs@.take(pairs@.len() as int) =~= pairs@);
    s
}

/// Set a member in a key-sorted list: replace the value of an equal key,
/// or insert the member where its key belongs.
pub fn set_member(p: &mut Vec<(String, String)>, key: String, value: String)
    requires
        keys_sorted(old(p)@),
    ensures
        keys_sorted(final(p)@),
        sorted_map(final(p)@) == sorted_map(old(p)@).insert(key@, value@),
{
    let mut j: usize = 0;
    while j < p.len() && str_lt_owned(&p[j].0, &key)
        invariant
            keys_sorted(p@),
            p@ == old(p)@,
            j <= p@.len(),
            forall|x: int| 0 <= x < j ==> text_lt(#[trigger] p@[x].0@, key@),
        decreases p@.len() - j,
    {
        j += 1;
    }
    let ghost p0 = p@;
    if j < p.len() && crate::replay::str_eq(p[j].0.as_str(), key.as_str()) {
        p.set(j, (key, value));
        proof {
            assert forall|a: int, b: int| 0 <= a < b < p@.len() implies text_lt(#[trigger] p@[a].0@, #[trigger] p@[b].0@) by {
                assert(p@[a].0@ == p0[a].0@);
                assert(p@[b].0@ == p0[b].0@);
            }
            assert(sorted_map(p@) =~= sorted_map(p0).insert(p0[j as int].0@, p@[j as int].1@)) by {
                assert forall|k: Seq<char>| sorted_map(p@).dom().contains(k) == sorted_map(p0).insert(p0[j as int].0@, p@[j as int].1@).dom().contains(k) by {
                    if exists|i: int| 0 <= i < p0.len() && p0[i].0@ == k {
                        let i = choose|i: int| 0 <= i < p0.len() && p0[i].0@ == k;
                        assert(p@[i].0@ == k);
                    }
                    if exists|i: int| 0 <= i < p@.len() && p@[i].0@ == k {
                        let i = choose|i: int| 0 <= i < p@.len() && p@[i].0@ == k;
                        assert(p0[i].0@ == k);
                    }
                }
                assert forall|k: Seq<char>| #[trigger] sorted_map(p@).dom().contains(k) implies sorted_map(p@)[k] == sorted_map(p0).insert(p0[j as int].0@, p@[j as int].1@)[k] by {
                    lemma_unique_index(p@, k);
                    lemma_unique_index(p0, k);
                }
            }
        }
    } else {
        proof {
            if j < p@.len() {
                lemma_text_lt_total(p@[j as int].0@, key@);
            }
        }
        p.insert(j, (key, value));
        proof {
            assert forall|a: int, b: int| 0 <= a < b < p@.len() implies text_lt(#[trigger] p@[a].0@, #[trigger] p@[b].0@) by {
                if b < j {
                    assert(p@[a] == p0[a] && p@[b] == p0[b]);
                } else if b == j {
                    assert(p@[a] == p0[a]);
                } else if a < j {
                    assert(p@[a] == p0[a] && p@[b] == p0[b - 1]);
                    assert(text_lt(key@, p0[j as int].0@));
                    if b - 1 > j {
                        assert(text_lt(p0[j as int].0@, p0[b - 1].0@));
                        lemma_text_lt_transitive(key@, p0[j as int].0@, p0[b - 1].0@);
                    }
                    lemma_text_lt_transitive(p0[a].0@, key@, p0[b - 1].0@);
                } else if a == j {
                    assert(p@[b] == p0[b - 1]);
                    assert(text_lt(key@, p0[j as int].0@));
                    if b - 1 > j {
                        assert(text_lt(p0[j as int].0@, p0[b - 1].0@));
                        lemma_text_lt_transitive(key@, p0[j as int].0@, p0[b - 1].0@);
                    }
                } else {
                    assert(p@[a] == p0[a - 1] && p@[b] == p0[b - 1]);
                }
            }
            assert forall|x: int| 0 <= x < p0.len() implies p0[x].0@ != key@ by {
                if x < j {
                    lemma_text_lt_irreflexive(key@);
                } else {
                    assert(text_lt(key@, p0[j as int].0@));
                    if x > j {
                        assert(text_lt(p0[j as int].0@, p0[x].0@));
                        lemma_text_lt_transitive(key@, p0[j as int].0@, p0[x].0@);
                    }
                    lemma_text_lt_irreflexive(key@);
                }
            }
            assert(p@[j as int].0@ == key@);
            assert(sorted_map(p@) =~= sorted_map(p0).insert(key@, value@)) by {
                assert forall|k: Seq<char>| sorted_map(p@).dom().contains(k) == sorted_map(p0).insert(key@, value@).dom().contains(k) by {
                    if exists|i: int| 0 <= i < p0.len() && p0[i].0@ == k {
                        let i = choose|i: int| 0 <= i < p0.len() && p0[i].0@ == k;
                        if i < j {
                            assert(p@[i].0@ == k);
                        } else {
                            assert(p@[i + 1].0@ == k);
                        }
                    }
                    if exists|i: int| 0 <= i < p@.len() && p@[i].0@ == k {
                        let i = choose|i: int| 0 <= i < p@.len() && p@[i].0@ == k;
                        if i < j {
                            assert(p0[i].0@ == k);
                        } else if i > j {
                            assert(p0[i - 1].0@ == k);
                        }
                    }
                }
                assert forall|k: Seq<char>| #[trigger] sorted_map(p@).dom().contains(k) implies sorted_map(p@)[k] == sorted_map(p0).insert(key@, value@)[k] by {
                    lemma_unique_index(p@, k);
                    if k != key@ {
                        lemma_unique_index(p0, k);
                        let i = choose|i: int| 0 <= i < p@.len() && p@[i].0@ == k;
                        if i < j {
                            assert(p0[i] == p@[i]);
                        } else {
                            assert(p0[i - 1] == p@[i]);
                        }
                    } else {
                        assert(p@[j as int].0@ == k);
                    }
                }
            }
        }
    }
}

/// In a key-sorted list, the entry of a key is the only one with it.
proof fn lemma_unique_index(p: Seq<(String, String)>, k: Seq<char>)
    requires
        keys_sorted(p),
    ensures
        forall|i: int, i2: int| 0 <= i < p.len() && 0 <= i2 < p.len() && p[i].0@ == k && p[i2].0@ == k ==> i == i2,
{
    assert forall|i: int, i2: int| 0 <= i < p.len() && 0 <= i2 < p.len() && p[i].0@ == k && p[i2].0@ == k implies i == i2 by {
        if i < i2 {
            assert(text_lt(p[i].0@, p[i2].0@));
            lemma_text_lt_irreflexive(k);
        } else if i2 < i {
            assert(text_lt(p[i2].0@, p[i].0@));
            lemma_text_lt_irreflexive(k);
        }
    }
}

fn str_lt_owned(a: &String, b: &String) -> (r: bool)
    ensures
        r == text_lt(a@, b@),
{
    crate::tool::str_lt(a.as_str(), b.as_str())
}

/// Why JSON text could not be parsed, with the position (or size) at fault.
#[derive(Debug, Clone, PartialEq, Eq, Structural)]
pub enum ParseError {
    UnexpectedEof,
    UnexpectedChar(usize, char),
    InvalidNumber(usize),
    InvalidEscape(usize),
    InvalidUnicode(usize),
    ExpectedColon(usize),
    ExpectedCommaOrEnd(usize),
    TrailingData(usize),
    DepthExceeded(usize),
    StringTooLong(usize),
    TooManyElements(usize),
}

/// The message of a parse error.
pub open spec fn parse_error_text(e: ParseError) -> Seq<char> {
    match e {
        ParseError::UnexpectedEof => "unexpected end of input"@,
        ParseError::UnexpectedChar(p, c) => "unexpected character '"@ + seq![c] + "' at position "@ + dec_text(p as nat),
        ParseError::InvalidNumber(p) => "invalid number at position "@ + dec_text(p as nat),
        ParseError::InvalidEscape(p) => "invalid escape at position "@ + dec_text(p as nat),
        ParseError::InvalidUnicode(p) => "invalid unicode escape at position "@ + dec_text(p as nat),
        ParseError::ExpectedColon(p) => "expected ':' at position "@ + dec_text(p as nat),
        ParseError::ExpectedCommaOrEnd(p) => "expected ',' or closing bracket at position "@ + dec_text(p as nat),
        ParseError::TrailingData(p) => "trailing data at position "@ + dec_text(p as nat),
        ParseError::DepthExceeded(d) => "nesting depth "@ + dec_text(d as nat) + " exceeds maximum"@,
        ParseError::StringTooLong(n) => "string length "@ + dec_text(n as nat) + " exceeds maximum"@,
        ParseError::TooManyElements(n) => "element count "@ + dec_text(n as nat) + " exceeds maximum"@,
    }
}

fn text_at(prefix: &str, n: usize, suffix: &str) -> (s: String)
    ensures
        s@ == prefix@ + dec_text(n as nat) + suffix@,
{
    let mut s = prefix.to_string();
    push_decimal(&mut s, n as u64);
    s.push_str(suffix);
    s
}

impl ParseError {
    /// The message of the error.
    pub fn message(&self) -> (s: String)
        ensures
            s@ == parse_error_text(*self),
    {
        proof {
            reveal_strlit("");
        }
        match self {
            ParseError::UnexpectedEof => "unexpected end of input".to_string(),
            ParseError::UnexpectedChar(p, c) => {
                let mut s = "unexpected character '".to_string();
                s.push(*c);
                s.push_str("' at position ");
                push_decimal(&mut s, *p as u64);
                s
            },
            ParseError::InvalidNumber(p) => text_at("invalid number at position ", *p, ""),
            ParseError::InvalidEscape(p) => text_at("invalid escape at position ", *p, ""),
            ParseError::InvalidUnicode(p) => text_at("invalid unicode escape at position ", *p, ""),
            ParseError::ExpectedColon(p) => text_at("expected ':' at position ", *p, ""),
            ParseError::ExpectedCommaOrEnd(p) => text_at("expected ',' or closing bracket at position ", *p, ""),
            ParseError::TrailingData(p) => text_at("trailing data at position ", *p, ""),
            ParseError::DepthExceeded(d) => text_at("nesting depth ", *d, " exceeds maximum"),
            ParseError::StringTooLong(n) => text_at("string length ", *n, " exceeds maximum"),
            ParseError::TooManyElements(n) => text_at("element count ", *n, " exceeds maximum"),
        }
    }
}

} // verus!
