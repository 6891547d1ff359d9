//! UUID v4 identifiers: generation, hyphenated text form and parsing.

use vstd::prelude::*;
use vstd::string::StrSliceExecFns;
use crate::jsonread::{char_width, utf8_size};
use crate::text::{hex_digit, hex_digit_char, hex_value, is_hex};
use crate::wal::u64_le;
use std::collections::hash_map::RandomState;
use std::hash::BuildHasher;

verus! {

/// `RandomState::new`: a builder with fresh random keys (each call differs).
#[verifier::external_body]
fn new_random_state() -> RandomState {
    RandomState::new()
}

/// `BuildHasher::hash_one`: the keyed hash of a value; it depends on the
/// builder's random keys, so nothing is stated of it.
#[verifier::external_body]
fn keyed_hash(rs: &RandomState, x: u64) -> u64 {
    rs.hash_one(x)
}

/// A UUID (16 bytes).
#[derive(Clone, Copy, PartialEq, Eq, Hash, Debug)]
pub struct Uuid([u8; 16]);

impl View for Uuid {
    type V = Seq<u8>;

    closed spec fn view(&self) -> Seq<u8> {
        self.0@
    }
}

/// The bytes with the version set to 4 and the variant to RFC 4122.
pub open spec fn v4_bytes(b: Seq<u8>) -> Seq<u8> {
    b.update(6, (b[6] & 0x0f) | 0x40).update(8, (b[8] & 0x3f) | 0x80)
}

/// Two lowercase hex digits of a byte.
pub open spec fn hex_pair(x: u8) -> Seq<char> {
    seq![hex_digit(x as int / 16), hex_digit(x as int % 16)]
}

/// Whether a hyphen precedes byte `i` in the hyphenated form.
pub open spec fn hyphen_before(i: int) -> bool {
    i == 4 || i == 6 || i == 8 || i == 10
}

/// The hyphenated form of the first `n` bytes.
pub open spec fn hyphenated_prefix(b: Seq<u8>, n: nat) -> Seq<char>
    decreases n,
{
    if n == 0 {
        Seq::empty()
    } else {
        hyphenated_prefix(b, (n - 1) as nat) + (if hyphen_before(n - 1) {
            seq!['-']
        } else {
            Seq::empty()
        }) + hex_pair(b[n - 1])
    }
}

/// The hyphenated lowercase form `xxxxxxxx-xxxx-xxxx-xxxx-xxxxxxxxxxxx`.
pub open spec fn hyphenated(b: Seq<u8>) -> Seq<char> {
    hyphenated_prefix(b, 16)
}

/// The characters with every `-` removed.
pub open spec fn strip_hyphens(s: Seq<char>) -> Seq<char>
    decreases s.len(),
{
    if s.len() == 0 {
        Seq::empty()
    } else if s.last() == '-' {
        strip_hyphens(s.drop_last())
    } else {
        strip_hyphens(s.drop_last()).push(s.last())
    }
}

/// Whether two characters form a byte in base 16 the way
/// `u8::from_str_radix` reads them: two hex digits, or `+` and a hex digit.
pub open spec fn pair_ok(c0: char, c1: char) -> bool {
    is_hex(c1) && (is_hex(c0) || c0 == '+')
}

/// The byte two such characters denote.
pub open spec fn pair_value(c0: char, c1: char) -> u8 {
    if c0 == '+' {
        hex_value(c1) as u8
    } else {
        (16 * hex_value(c0) + hex_value(c1)) as u8
    }
}

/// Whether hyphen-free text denotes a UUID: 32 characters, 16 valid pairs.
pub open spec fn uuid_text_ok(h: Seq<char>) -> bool {
    h.len() == 32 && forall|i: int| 0 <= i < 16 ==> #[trigger] pair_ok(h[2 * i], h[2 * i + 1])
}

/// The bytes that such text denotes.
pub open spec fn uuid_text_bytes(h: Seq<char>) -> Seq<u8> {
    Seq::new(16, |i: int| pair_value(h[2 * i], h[2 * i + 1]))
}

impl Uuid {
    /// The UUID built from two random words: their little-endian bytes with
    /// the version (4) and variant (RFC 4122) bits set.
    pub fn from_random(a: u64, b: u64) -> (u: Uuid)
        ensures
            u@ == v4_bytes(u64_le(a) + u64_le(b)),
    {
        let bytes: [u8; 16] = [
            (a & 0xff) as u8,
            ((a >> 8u64) & 0xff) as u8,
            ((a >> 16u64) & 0xff) as u8,
            ((a >> 24u64) & 0xff) as u8,
            ((a >> 32u64) & 0xff) as u8,
            ((a >> 40u64) & 0xff) as u8,
            ((((a >> 48u64) & 0xff) as u8) & 0x0f) | 0x40,
            ((a >> 56u64) & 0xff) as u8,
            ((((b & 0xff) as u8) & 0x3f)) | 0x80,
            ((b >> 8u64) & 0xff) as u8,
            ((b >> 16u64) & 0xff) as u8,
            ((b >> 24u64) & 0xff) as u8,
            ((b >> 32u64) & 0xff) as u8,
            ((b >> 40u64) & 0xff) as u8,
            ((b >> 48u64) & 0xff) as u8,
            ((b >> 56u64) & 0xff) as u8,
        ];
        let u = Uuid(bytes);
        assert(u@ =~= v4_bytes(u64_le(a) + u64_le(b)));
        u
    }

    /// Generate a new random UUID v4.
    pub fn new_v4() -> (u: Uuid)
        ensures
            u@.len() == 16,
            u@[6] & 0xf0 == 0x40,
            u@[8] & 0xc0 == 0x80,
    {
        let rs = new_random_state();
        let a = keyed_hash(&rs, 0);
        let b = keyed_hash(&rs, 1);
        let u = Self::from_random(a, b);
        proof {
            let s = u64_le(a) + u64_le(b);
            let x6: u8 = s[6];
            let x8: u8 = s[8];
            assert((((x6 & 0x0f) | 0x40) & 0xf0) == 0x40) by (bit_vector);
            assert((((x8 & 0x3f) | 0x80) & 0xc0) == 0x80) by (bit_vector);
        }
        u
    }

    /// Whether two UUIDs are the same.
    pub fn same(&self, other: &Uuid) -> (r: bool)
        ensures
            r == (*self == *other),
    {
        let mut i: usize = 0;
        while i < 16
            invariant
                i <= 16,
                forall|j: int| 0 <= j < i ==> self.0[j] == other.0[j],
            decreases 16 - i,
        {
            if self.0[i] != other.0[i] {
                return false;
            }
            i += 1;
        }
        proof {
            vstd::array::axiom_array_ext_equal(self.0, other.0);
        }
        assert(self.0 =~= other.0);
        true
    }

    /// Create from raw bytes.
    pub fn from_bytes(bytes: [u8; 16]) -> (u: Uuid)
        ensures
            u@ == bytes@,
    {
        Uuid(bytes)
    }

    /// Return the raw bytes.
    pub fn as_bytes(&self) -> (r: &[u8; 16])
        ensures
            r@ == self@,
    {
        &self.0
    }

    /// Format as a hyphenated lowercase string.
    pub fn to_hyphenated(&self) -> (s: String)
        ensures
            s@ == hyphenated(self@),
    {
        let mut s = String::new();
        let mut i: usize = 0;
        while i < 16
            invariant
                i <= 16,
                self.0@.len() == 16,
                s@ == hyphenated_prefix(self.0@, i as nat),
            decreases 16 - i,
        {
            if i == 4 || i == 6 || i == 8 || i == 10 {
                s.push('-');
            }
            let x = self.0[i];
            s.push(hex_digit_char(x / 16));
            s.push(hex_digit_char(x % 16));
            i += 1;
        }
        s
    }

    /// Parse a UUID from text such as "550e8400-e29b-41d4-a716-446655440000".
    ///
    /// Hyphens are ignored wherever they stand; the rest must be 32 bytes
    /// of UTF-8, read as 16 bytes, two characters each, in base 16. (Where
    /// a pair would split a multi-byte character, this gives the hex error.)
    pub fn parse(s: &str) -> (r: Result<Uuid, String>)
        ensures
            r is Ok <==> uuid_text_ok(strip_hyphens(s@)),
            r matches Ok(u) ==> u@ == uuid_text_bytes(strip_hyphens(s@)),
            r matches Err(m) ==> m@ == if utf8_size(strip_hyphens(s@)) != 32 {
                "invalid UUID length: "@ + s@
            } else {
                "invalid hex in UUID: "@ + s@
            },
    {
        let n = s.unicode_len();
        let mut hex: Vec<char> = Vec::new();
        let mut size: u64 = 0;
        let mut i: usize = 0;
        while i < n
            invariant
                n == s@.len(),
                i <= n,
                hex@ == strip_hyphens(s@.subrange(0, i as int)),
                size == if utf8_size(hex@) > 33 { 33 } else { utf8_size(hex@) },
            decreases n - i,
        {
            let c = s.get_char(i);
            assert(s@.subrange(0, i + 1).drop_last() =~= s@.subrange(0, i as int));
            if c != '-' {
                let ghost h0 = hex@;
                hex.push(c);
                assert(hex@.drop_last() =~= h0);
                let w: u64 = if (c as u32) < 0x80 { 1 } else if (c as u32) < 0x800 { 2 } else if (c as u32) < 0x10000 { 3 } else { 4 };
                assert(w == char_width(c));
                size = if size + w > 33 { 33 } else { size + w };
            }
            i += 1;
        }
        assert(s@.subrange(0, n as int) =~= s@);
        proof {
            if uuid_text_ok(hex@) {
                assert forall|j: int| 0 <= j < hex@.len() implies (#[trigger] hex@[j] as u32) < 0x80 by {
                    let p = j / 2;
                    assert(pair_ok(hex@[2 * p], hex@[2 * p + 1]));
                    assert(j == 2 * p || j == 2 * p + 1);
                }
                lemma_ascii_size(hex@);
            }
        }
        if size != 32 {
            let mut msg = "invalid UUID length: ".to_owned();
            msg.push_str(s);
            return Err(msg);
        }
        if hex.len() != 32 {
            let mut msg = "invalid hex in UUID: ".to_owned();
            msg.push_str(s);
            return Err(msg);
        }
        let mut bytes = [0u8; 16];
        let mut k: usize = 0;
        while k < 16
            invariant
                k <= 16,
                hex@.len() == 32,
                hex@ == strip_hyphens(s@),
                utf8_size(hex@) == 32,
                bytes@.len() == 16,
                forall|j: int| 0 <= j < k ==> #[trigger] pair_ok(hex@[2 * j], hex@[2 * j + 1]),
                forall|j: int| 0 <= j < k ==> bytes@[j] == pair_value(hex@[2 * j], hex@[2 * j + 1]),
            decreases 16 - k,
        {
            let c0 = hex[2 * k];
            let c1 = hex[2 * k + 1];
            let v1 = hex_char_value(c1);
            let v0 = if c0 == '+' { Some(0u8) } else { hex_char_value(c0) };
            match (v0, v1) {
                (Some(a), Some(b)) => {
                    let v = if c0 == '+' { b } else { a * 16 + b };
                    bytes[k] = v;
                },
                _ => {
                    assert(!pair_ok(hex@[2 * k as int], hex@[2 * k as int + 1]));
                    let mut msg = "invalid hex in UUID: ".to_owned();
                    msg.push_str(s);
                    return Err(msg);
                },
            }
            k += 1;
        }
        let u = Uuid(bytes);
        assert(u@ =~= uuid_text_bytes(strip_hyphens(s@)));
        Ok(u)
    }
}

/// A text of ASCII characters has as many UTF-8 bytes as characters.
proof fn lemma_ascii_size(h: Seq<char>)
    requires
        forall|j: int| 0 <= j < h.len() ==> (#[trigger] h[j] as u32) < 0x80,
    ensures
        utf8_size(h) == h.len(),
    decreases h.len(),
{
    if h.len() > 0 {
        assert(h.last() == h[h.len() - 1]);
        lemma_ascii_size(h.drop_last());
    }
}

/// The value of an ASCII hexadecimal digit, if the character is one.
pub fn hex_char_value(c: char) -> (r: Option<u8>)
    ensures
        r is Some <==> is_hex(c),
        r matches Some(v) ==> v == hex_value(c) && v < 16,
{
    let x = c as u32;
    if 48 <= x && x <= 57 {
        Some((x - 48) as u8)
    } else if 97 <= x && x <= 102 {
        Some((x - 87) as u8)
    } else if 65 <= x && x <= 70 {
        Some((x - 55) as u8)
    } else {
        None
    }
}


/// The hex digits of the first `n` bytes, two per byte, without hyphens.
pub open spec fn hex_seq(b: Seq<u8>, n: nat) -> Seq<char> {
    Seq::new(2 * n, |i: int| if i % 2 == 0 { hex_digit(b[i / 2] as int / 16) } else { hex_digit(b[i / 2] as int % 16) })
}

proof fn lemma_strip_concat(x: Seq<char>, y: Seq<char>)
    ensures
        strip_hyphens(x + y) == strip_hyphens(x) + strip_hyphens(y),
    decreases y.len(),
{
    if y.len() == 0 {
        assert(x + y =~= x);
        assert(strip_hyphens(x) + strip_hyphens(y) =~= strip_hyphens(x));
    } else {
        lemma_strip_concat(x, y.drop_last());
        assert((x + y).drop_last() =~= x + y.drop_last());
        assert((x + y).last() == y.last());
        if y.last() != '-' {
            assert(strip_hyphens(x) + strip_hyphens(y.drop_last()).push(y.last()) =~= (
            strip_hyphens(x) + strip_hyphens(y.drop_last())).push(y.last()));
        }
    }
}

proof fn lemma_strip_single(c: char)
    ensures
        strip_hyphens(seq![c]) == (if c == '-' { Seq::<char>::empty() } else { seq![c] }),
{
    assert(seq![c].drop_last() =~= Seq::<char>::empty());
    assert(strip_hyphens(Seq::<char>::empty()) == Seq::<char>::empty());
    assert(Seq::<char>::empty().push(c) =~= seq![c]);
}

proof fn lemma_hex_digit(k: int)
    requires
        0 <= k < 16,
    ensures
        is_hex(hex_digit(k)),
        hex_value(hex_digit(k)) == k,
        hex_digit(k) != '-',
        hex_digit(k) != '+',
{
}

proof fn lemma_strip_pair(x: u8)
    ensures
        strip_hyphens(hex_pair(x)) == hex_pair(x),
{
    lemma_hex_digit(x as int / 16);
    lemma_hex_digit(x as int % 16);
    let p = hex_pair(x);
    lemma_strip_single(hex_digit(x as int / 16));
    lemma_strip_single(hex_digit(x as int % 16));
    assert(p =~= seq![hex_digit(x as int / 16)] + seq![hex_digit(x as int % 16)]);
    lemma_strip_concat(seq![hex_digit(x as int / 16)], seq![hex_digit(x as int % 16)]);
}

proof fn lemma_strip_hyphenated_prefix(b: Seq<u8>, n: nat)
    requires
        n <= b.len(),
    ensures
        strip_hyphens(hyphenated_prefix(b, n)) == hex_seq(b, n),
    decreases n,
{
    if n == 0 {
        assert(hex_seq(b, 0) =~= Seq::<char>::empty());
    } else {
        let m = (n - 1) as nat;
        lemma_strip_hyphenated_prefix(b, m);
        let sep: Seq<char> = if hyphen_before(n - 1) { seq!['-'] } else { Seq::empty() };
        lemma_strip_single('-');
        assert(strip_hyphens(Seq::<char>::empty()) == Seq::<char>::empty());
        assert(strip_hyphens(sep) =~= Seq::<char>::empty());
        lemma_strip_concat(hyphenated_prefix(b, m), sep);
        lemma_strip_concat(hyphenated_prefix(b, m) + sep, hex_pair(b[n - 1]));
        lemma_strip_pair(b[n - 1]);
        assert(hex_seq(b, m) + Seq::<char>::empty() + hex_pair(b[n - 1]) =~= hex_seq(b, n));
    }
}

/// Two UUIDs with the same hyphenated text are the same UUID.
pub proof fn lemma_hyphenated_injective(a: Uuid, b: Uuid)
    requires
        hyphenated(a@) == hyphenated(b@),
    ensures
        a == b,
{
    assert(a.0@.len() == 16 && b.0@.len() == 16);
    law_uuid_text_roundtrip(a@);
    law_uuid_text_roundtrip(b@);
    assert(a.0@ == b.0@);
    vstd::array::axiom_array_ext_equal(a.0, b.0);
    assert(a.0 =~= b.0);
}

/// Law: the hyphenated text of a UUID parses back to the same bytes.
pub proof fn law_uuid_text_roundtrip(b: Seq<u8>)
    requires
        b.len() == 16,
    ensures
        uuid_text_ok(strip_hyphens(hyphenated(b))),
        uuid_text_bytes(strip_hyphens(hyphenated(b))) == b,
{
    lemma_strip_hyphenated_prefix(b, 16);
    let h = hex_seq(b, 16);
    assert forall|i: int| 0 <= i < 16 implies #[trigger] pair_ok(h[2 * i], h[2 * i + 1])
        && pair_value(h[2 * i], h[2 * i + 1]) == b[i] by {
        assert((2 * i) / 2 == i);
        assert((2 * i + 1) / 2 == i);
        assert((2 * i) % 2 == 0);
        assert((2 * i + 1) % 2 == 1);
        lemma_hex_digit(b[i] as int / 16);
        lemma_hex_digit(b[i] as int % 16);
    }
    assert(uuid_text_bytes(h) =~= b);
}

} // verus!
