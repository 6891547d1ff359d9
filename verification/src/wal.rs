//! The write-ahead log format: CRC-64 framing, scanning, recovery and the
//! buffered writer state.
//!
//! ```text
//! File header (8 bytes):
//!   [4 bytes: magic "DWAL"] [2 bytes: format version (1)] [2 bytes: flags]
//! Each entry:
//!   [4 bytes: data length, little-endian u32]
//!   [8 bytes: CRC-64/ECMA-182 of the data, little-endian]
//!   [N bytes: data]
//! ```
//!
//! The file itself is read and written by the caller; this module decides
//! what the bytes mean and which bytes are to be written.

use vstd::prelude::*;

verus! {

/// Size of the file header in bytes.
pub const HEADER_SIZE: u64 = 8;

/// Size of an entry header (length + CRC) in bytes.
pub const ENTRY_HEADER_SIZE: usize = 12;

/// The on-disk format version this code writes and the newest it reads.
pub const FORMAT_VERSION: u16 = 1;

/// The ECMA-182 polynomial.
pub const CRC64_POLY: u64 = 0x42F0E1EBA9EA3693;

// ---------------------------------------------------------------------------
// CRC-64
// ---------------------------------------------------------------------------

/// One bit step of the MSB-first CRC register.
pub open spec fn crc_shift(c: u64) -> u64 {
    if c & 0x8000000000000000u64 != 0 {
        (c << 1u64) ^ CRC64_POLY
    } else {
        c << 1u64
    }
}

/// `n` bit steps of the CRC register.
pub open spec fn crc_shift_n(c: u64, n: nat) -> u64
    decreases n,
{
    if n == 0 {
        c
    } else {
        crc_shift(crc_shift_n(c, (n - 1) as nat))
    }
}

/// The register after feeding one byte.
pub open spec fn crc_feed(c: u64, b: u8) -> u64 {
    crc_shift_n(c ^ ((b as u64) << 56u64), 8)
}

/// The register after feeding a byte sequence, starting from all ones.
pub open spec fn crc_register(data: Seq<u8>) -> u64
    decreases data.len(),
{
    if data.len() == 0 {
        0xFFFFFFFFFFFFFFFFu64
    } else {
        crc_feed(crc_register(data.drop_last()), data.last())
    }
}

/// CRC-64 (ECMA-182 polynomial, initial value and final xor all ones).
pub open spec fn crc64_spec(data: Seq<u8>) -> u64 {
    crc_register(data) ^ 0xFFFFFFFFFFFFFFFFu64
}

/// CRC-64 using the ECMA-182 polynomial.
pub fn crc64(data: &[u8]) -> (r: u64)
    ensures
        r == crc64_spec(data@),
{
    let mut crc: u64 = 0xFFFFFFFFFFFFFFFF;
    let mut i: usize = 0;
    while i < data.len()
        invariant
            i <= data.len(),
            crc == crc_register(data@.subrange(0, i as int)),
        decreases data.len() - i,
    {
        let byte = data[i];
        let ghost start = crc ^ ((byte as u64) << 56u64);
        crc = crc ^ ((byte as u64) << 56u64);
        let mut k: usize = 0;
        while k < 8
            invariant
                k <= 8,
                crc == crc_shift_n(start, k as nat),
            decreases 8 - k,
        {
            if crc & 0x8000000000000000u64 != 0 {
                crc = (crc << 1u64) ^ CRC64_POLY;
            } else {
                crc = crc << 1u64;
            }
            k += 1;
        }
        assert(data@.subrange(0, i + 1).drop_last() =~= data@.subrange(0, i as int));
        i += 1;
    }
    assert(data@.subrange(0, data.len() as int) =~= data@);
    crc ^ 0xFFFFFFFFFFFFFFFF
}

// ---------------------------------------------------------------------------
// Little-endian integers
// ---------------------------------------------------------------------------

/// The four little-endian bytes of a `u32`.
pub open spec fn u32_le(x: u32) -> Seq<u8> {
    seq![(x & 0xff) as u8, ((x >> 8u32) & 0xff) as u8, ((x >> 16u32) & 0xff) as u8, ((x >> 24u32) & 0xff) as u8]
}

/// The eight little-endian bytes of a `u64`.
pub open spec fn u64_le(x: u64) -> Seq<u8> {
    seq![
        (x & 0xff) as u8,
        ((x >> 8u64) & 0xff) as u8,
        ((x >> 16u64) & 0xff) as u8,
        ((x >> 24u64) & 0xff) as u8,
        ((x >> 32u64) & 0xff) as u8,
        ((x >> 40u64) & 0xff) as u8,
        ((x >> 48u64) & 0xff) as u8,
        ((x >> 56u64) & 0xff) as u8,
    ]
}

/// The little-endian `u32` stored at `off`.
pub open spec fn read_u32_le(c: Seq<u8>, off: int) -> u32 {
    (c[off] as u32) | ((c[off + 1] as u32) << 8u32) | ((c[off + 2] as u32) << 16u32) | ((
    c[off + 3] as u32) << 24u32)
}

/// The little-endian `u64` stored at `off`.
pub open spec fn read_u64_le(c: Seq<u8>, off: int) -> u64 {
    (c[off] as u64) | ((c[off + 1] as u64) << 8u64) | ((c[off + 2] as u64) << 16u64) | ((c[off
        + 3] as u64) << 24u64) | ((c[off + 4] as u64) << 32u64) | ((c[off + 5] as u64) << 40u64)
        | ((c[off + 6] as u64) << 48u64) | ((c[off + 7] as u64) << 56u64)
}

proof fn lemma_u32_roundtrip(x: u32)
    ensures
        read_u32_le(u32_le(x), 0) == x,
{
    let s = u32_le(x);
    let (b0, b1, b2, b3) = (s[0], s[1], s[2], s[3]);
    assert((b0 as u32) | ((b1 as u32) << 8u32) | ((b2 as u32) << 16u32) | ((b3 as u32) << 24u32)
        == x) by (bit_vector)
        requires
            b0 == (x & 0xff) as u8,
            b1 == ((x >> 8u32) & 0xff) as u8,
            b2 == ((x >> 16u32) & 0xff) as u8,
            b3 == ((x >> 24u32) & 0xff) as u8,
    ;
}

proof fn lemma_u64_roundtrip(x: u64)
    ensures
        read_u64_le(u64_le(x), 0) == x,
{
    let s = u64_le(x);
    let (b0, b1, b2, b3, b4, b5, b6, b7) = (s[0], s[1], s[2], s[3], s[4], s[5], s[6], s[7]);
    assert((b0 as u64) | ((b1 as u64) << 8u64) | ((b2 as u64) << 16u64) | ((b3 as u64) << 24u64)
        | ((b4 as u64) << 32u64) | ((b5 as u64) << 40u64) | ((b6 as u64) << 48u64) | ((
    b7 as u64) << 56u64) == x) by (bit_vector)
        requires
            b0 == (x & 0xff) as u8,
            b1 == ((x >> 8u64) & 0xff) as u8,
            b2 == ((x >> 16u64) & 0xff) as u8,
            b3 == ((x >> 24u64) & 0xff) as u8,
            b4 == ((x >> 32u64) & 0xff) as u8,
            b5 == ((x >> 40u64) & 0xff) as u8,
            b6 == ((x >> 48u64) & 0xff) as u8,
            b7 == ((x >> 56u64) & 0xff) as u8,
    ;
}


// ---------------------------------------------------------------------------
// Framing
// ---------------------------------------------------------------------------

/// The file header this code writes: magic "DWAL", version 1, no flags.
pub open spec fn header_spec() -> Seq<u8> {
    seq![0x44u8, 0x57u8, 0x41u8, 0x4cu8, 1u8, 0u8, 0u8, 0u8]
}

/// The bytes of one entry: length, CRC-64 of the data, data.
pub open spec fn encode_entry_spec(data: Seq<u8>) -> Seq<u8> {
    u32_le(data.len() as u32) + u64_le(crc64_spec(data)) + data
}

/// The bytes of a sequence of entries, one after another.
pub open spec fn encode_all(ds: Seq<Seq<u8>>) -> Seq<u8>
    decreases ds.len(),
{
    if ds.len() == 0 {
        Seq::empty()
    } else {
        encode_all(ds.drop_last()) + encode_entry_spec(ds.last())
    }
}

/// Whether every entry fits the 32-bit length field.
pub open spec fn all_fit(ds: Seq<Seq<u8>>) -> bool {
    forall|i: int| 0 <= i < ds.len() ==> #[trigger] ds[i].len() <= u32::MAX
}

/// Scan of the entries from byte offset `off`: the (position, data) of each
/// valid entry in order, the offset where the valid entries end, and whether
/// the scan stopped at a CRC mismatch that is followed by more bytes (a
/// corrupt entry in the middle rather than a torn write at the end).
pub open spec fn wal_scan(c: Seq<u8>, off: int) -> (Seq<(int, Seq<u8>)>, int, bool)
    decreases c.len() - off,
{
    if off < 0 || off + 12 > c.len() {
        (Seq::empty(), off, false)
    } else {
        let end = off + 12 + read_u32_le(c, off) as int;
        if end > c.len() {
            (Seq::empty(), off, false)
        } else {
            let data = c.subrange(off + 12, end);
            if crc64_spec(data) != read_u64_le(c, off + 4) {
                (Seq::empty(), off, end < c.len())
            } else {
                let rest = wal_scan(c, end);
                (seq![(off, data)] + rest.0, rest.1, rest.2)
            }
        }
    }
}

/// The data of each scanned entry.
pub open spec fn frame_data(fr: Seq<(int, Seq<u8>)>) -> Seq<Seq<u8>> {
    Seq::new(fr.len(), |i: int| fr[i].1)
}

/// The scan never goes backwards and never passes the end of the bytes.
proof fn lemma_scan_bounds(c: Seq<u8>, off: int)
    requires
        0 <= off,
    ensures
        wal_scan(c, off).1 >= off,
        off <= c.len() ==> wal_scan(c, off).1 <= c.len(),
        wal_scan(c, off).2 ==> wal_scan(c, off).1 < c.len(),
    decreases c.len() - off,
{
    if off + 12 <= c.len() {
        let end = off + 12 + read_u32_le(c, off) as int;
        if end <= c.len() {
            lemma_scan_bounds(c, end);
        }
    }
}

/// Appending bytes after a cleanly ending scan leaves the scanned entries as
/// they were and continues the scan at the old end.
proof fn lemma_scan_extend(a: Seq<u8>, b: Seq<u8>, off: int)
    requires
        0 <= off <= a.len(),
        wal_scan(a, off).1 == a.len(),
        !wal_scan(a, off).2,
    ensures
        wal_scan(a + b, off).0 == wal_scan(a, off).0 + wal_scan(a + b, a.len() as int).0,
        wal_scan(a + b, off).1 == wal_scan(a + b, a.len() as int).1,
        wal_scan(a + b, off).2 == wal_scan(a + b, a.len() as int).2,
    decreases a.len() - off,
{
    let ab = a + b;
    if off == a.len() {
        assert(wal_scan(a, off).0 =~= Seq::empty());
        assert(wal_scan(a, off).0 + wal_scan(ab, a.len() as int).0 =~= wal_scan(ab, a.len() as int).0);
    } else {
        // the scan of `a` read a valid entry at `off`
        assert(off + 12 <= a.len());
        let end = off + 12 + read_u32_le(a, off) as int;
        assert(end <= a.len());
        assert forall|k: int| 0 <= k < a.len() implies ab[k] == a[k] by {}
        assert(read_u32_le(ab, off) == read_u32_le(a, off));
        assert(read_u64_le(ab, off + 4) == read_u64_le(a, off + 4));
        assert(ab.subrange(off + 12, end) =~= a.subrange(off + 12, end));
        lemma_scan_extend(a, b, end);
        assert(wal_scan(ab, off).0 =~= wal_scan(a, off).0 + wal_scan(ab, a.len() as int).0);
    }
}

/// An encoded entry that ends the bytes is scanned as exactly that entry.
proof fn lemma_scan_encoded(c: Seq<u8>, off: int, d: Seq<u8>)
    requires
        0 <= off,
        d.len() <= u32::MAX,
        c.len() == off + encode_entry_spec(d).len(),
        c.subrange(off, c.len() as int) == encode_entry_spec(d),
    ensures
        wal_scan(c, off) == (seq![(off, d)], c.len() as int, false),
{
    let e = encode_entry_spec(d);
    assert forall|k: int| 0 <= k < e.len() implies c[off + k] == e[k] by {
        assert(c.subrange(off, c.len() as int)[k] == c[off + k]);
    }
    lemma_u32_roundtrip(d.len() as u32);
    lemma_u64_roundtrip(crc64_spec(d));
    assert(read_u32_le(c, off) == read_u32_le(e, 0));
    assert(read_u32_le(e, 0) == read_u32_le(u32_le(d.len() as u32), 0));
    let cb = u64_le(crc64_spec(d));
    assert forall|k: int| 0 <= k < 8 implies c[off + 4 + k] == cb[k] by {
        assert(e[4 + k] == cb[k]);
    }
    assert(read_u64_le(c, off + 4) == read_u64_le(cb, 0));
    assert forall|k: int| 0 <= k < d.len() implies c[off + 12 + k] == d[k] by {
        assert(e[12 + k] == d[k]);
    }
    assert(c.subrange(off + 12, c.len() as int) =~= d);
    let end = off + 12 + read_u32_le(c, off) as int;
    assert(end == c.len());
    assert(wal_scan(c, end) == (Seq::<(int, Seq<u8>)>::empty(), end, false));
    assert(seq![(off, d)] + Seq::<(int, Seq<u8>)>::empty() =~= seq![(off, d)]);
}

/// Appending one encoded entry to cleanly scanned bytes adds exactly that entry.
pub proof fn lemma_scan_push(f: Seq<u8>, off: int, d: Seq<u8>)
    requires
        0 <= off <= f.len(),
        d.len() <= u32::MAX,
        wal_scan(f, off).1 == f.len(),
        !wal_scan(f, off).2,
    ensures
        wal_scan(f + encode_entry_spec(d), off) == (
            wal_scan(f, off).0.push((f.len() as int, d)),
            (f.len() + encode_entry_spec(d).len()) as int,
            false,
        ),
{
    let e = encode_entry_spec(d);
    let c = f + e;
    lemma_scan_extend(f, e, off);
    assert(c.subrange(f.len() as int, c.len() as int) =~= e);
    lemma_scan_encoded(c, f.len() as int, d);
    assert(wal_scan(f, off).0 + seq![(f.len() as int, d)] =~= wal_scan(f, off).0.push(
        (f.len() as int, d),
    ));
}

/// Appending encoded entries to cleanly scanned bytes adds exactly those entries.
pub proof fn lemma_scan_push_all(f: Seq<u8>, off: int, ds: Seq<Seq<u8>>)
    requires
        0 <= off <= f.len(),
        all_fit(ds),
        wal_scan(f, off).1 == f.len(),
        !wal_scan(f, off).2,
    ensures
        frame_data(wal_scan(f + encode_all(ds), off).0) == frame_data(wal_scan(f, off).0) + ds,
        wal_scan(f + encode_all(ds), off).1 == f.len() + encode_all(ds).len(),
        !wal_scan(f + encode_all(ds), off).2,
    decreases ds.len(),
{
    if ds.len() == 0 {
        assert(f + encode_all(ds) =~= f);
        assert(frame_data(wal_scan(f, off).0) + ds =~= frame_data(wal_scan(f, off).0));
    } else {
        let init = ds.drop_last();
        assert(all_fit(init)) by {
            assert forall|i: int| 0 <= i < init.len() implies #[trigger] init[i].len() <= u32::MAX by {
                assert(init[i] == ds[i]);
            }
        }
        lemma_scan_push_all(f, off, init);
        let g = f + encode_all(init);
        assert(ds[ds.len() - 1].len() <= u32::MAX);
        lemma_scan_push(g, off, ds.last());
        assert(f + encode_all(ds) =~= g + encode_entry_spec(ds.last()));
        assert(frame_data(wal_scan(g, off).0.push((g.len() as int, ds.last()))) =~= frame_data(
            wal_scan(g, off).0,
        ).push(ds.last()));
        assert(frame_data(wal_scan(f, off).0) + init + seq![ds.last()] =~= frame_data(
            wal_scan(f, off).0,
        ) + ds);
        assert(frame_data(wal_scan(g, off).0).push(ds.last()) =~= frame_data(wal_scan(g, off).0)
            + seq![ds.last()]);
    }
}

/// Cutting the bytes at the end of the valid entries keeps the entries and
/// makes the scan end cleanly there.
pub proof fn lemma_scan_truncate(c: Seq<u8>, off: int)
    requires
        0 <= off <= c.len(),
    ensures
        wal_scan(c.subrange(0, wal_scan(c, off).1), off) == (
            wal_scan(c, off).0,
            wal_scan(c, off).1,
            false,
        ),
    decreases c.len() - off,
{
    lemma_scan_bounds(c, off);
    let e = wal_scan(c, off).1;
    let t = c.subrange(0, e);
    if off + 12 <= c.len() {
        let end = off + 12 + read_u32_le(c, off) as int;
        if end <= c.len() {
            let data = c.subrange(off + 12, end);
            if crc64_spec(data) == read_u64_le(c, off + 4) {
                lemma_scan_bounds(c, end);
                lemma_scan_truncate(c, end);
                assert(e == wal_scan(c, end).1);
                assert(end <= e);
                assert forall|k: int| 0 <= k < e implies t[k] == c[k] by {}
                assert(read_u32_le(t, off) == read_u32_le(c, off));
                assert(read_u64_le(t, off + 4) == read_u64_le(c, off + 4));
                assert(t.subrange(off + 12, end) =~= data);
                assert(c.subrange(0, wal_scan(c, end).1) == t);
            }
        }
    }
}


// ---------------------------------------------------------------------------
// Encoding and decoding
// ---------------------------------------------------------------------------

fn push_u32_le(out: &mut Vec<u8>, x: u32)
    ensures
        final(out)@ == old(out)@ + u32_le(x),
{
    out.push((x & 0xff) as u8);
    out.push(((x >> 8u32) & 0xff) as u8);
    out.push(((x >> 16u32) & 0xff) as u8);
    out.push(((x >> 24u32) & 0xff) as u8);
    assert(out@ =~= old(out)@ + u32_le(x));
}

fn push_u64_le(out: &mut Vec<u8>, x: u64)
    ensures
        final(out)@ == old(out)@ + u64_le(x),
{
    out.push((x & 0xff) as u8);
    out.push(((x >> 8u64) & 0xff) as u8);
    out.push(((x >> 16u64) & 0xff) as u8);
    out.push(((x >> 24u64) & 0xff) as u8);
    out.push(((x >> 32u64) & 0xff) as u8);
    out.push(((x >> 40u64) & 0xff) as u8);
    out.push(((x >> 48u64) & 0xff) as u8);
    out.push(((x >> 56u64) & 0xff) as u8);
    assert(out@ =~= old(out)@ + u64_le(x));
}

fn push_bytes(out: &mut Vec<u8>, data: &[u8])
    ensures
        final(out)@ == old(out)@ + data@,
{
    let mut i: usize = 0;
    while i < data.len()
        invariant
            i <= data.len(),
            out@ == old(out)@ + data@.subrange(0, i as int),
        decreases data.len() - i,
    {
        out.push(data[i]);
        assert(data@.subrange(0, i + 1) =~= data@.subrange(0, i as int).push(data@[i as int]));
        i += 1;
    }
    assert(data@.subrange(0, data.len() as int) =~= data@);
}

/// Append the encoding of one entry (length, CRC-64, data) to `out`.
pub fn encode_entry_into(out: &mut Vec<u8>, data: &[u8])
    requires
        data@.len() <= u32::MAX,
    ensures
        final(out)@ == old(out)@ + encode_entry_spec(data@),
{
    let len = data.len() as u32;
    let crc = crc64(data);
    push_u32_le(out, len);
    push_u64_le(out, crc);
    push_bytes(out, data);
    assert(out@ =~= old(out)@ + encode_entry_spec(data@));
}

/// The file header: magic "DWAL", format version 1 (little-endian), zero flags.
pub fn header_bytes() -> (h: Vec<u8>)
    ensures
        h@ == header_spec(),
{
    let mut h: Vec<u8> = Vec::new();
    h.push(0x44u8);
    h.push(0x57u8);
    h.push(0x41u8);
    h.push(0x4cu8);
    h.push(1u8);
    h.push(0u8);
    h.push(0u8);
    h.push(0u8);
    assert(h@ =~= header_spec());
    h
}

/// Whether bytes start with an acceptable header: the magic, then a format
/// version no newer than this code's.
pub open spec fn header_ok(c: Seq<u8>) -> bool {
    &&& c.len() >= 8
    &&& c[0] == 0x44u8 && c[1] == 0x57u8 && c[2] == 0x41u8 && c[3] == 0x4cu8
    &&& ((c[4] as u16) | ((c[5] as u16) << 8u16)) <= FORMAT_VERSION
}

/// Check the header at the start of a non-empty log file.
pub fn validate_header(content: &[u8]) -> (r: Result<(), String>)
    ensures
        r is Ok <==> header_ok(content@),
{
    if content.len() < 8 {
        return Err("wal: read header: file shorter than the header".to_owned());
    }
    if content[0] != 0x44u8 || content[1] != 0x57u8 || content[2] != 0x41u8 || content[3] != 0x4cu8 {
        return Err("wal: invalid magic".to_owned());
    }
    let version: u16 = (content[4] as u16) | ((content[5] as u16) << 8u16);
    if version > FORMAT_VERSION {
        return Err("wal: unsupported version".to_owned());
    }
    Ok(())
}

fn read_u32_at(c: &[u8], off: usize) -> (r: u32)
    requires
        off + 4 <= c@.len(),
    ensures
        r == read_u32_le(c@, off as int),
{
    (c[off] as u32) | ((c[off + 1] as u32) << 8u32) | ((c[off + 2] as u32) << 16u32) | ((c[off
        + 3] as u32) << 24u32)
}

fn read_u64_at(c: &[u8], off: usize) -> (r: u64)
    requires
        off + 8 <= c@.len(),
    ensures
        r == read_u64_le(c@, off as int),
{
    (c[off] as u64) | ((c[off + 1] as u64) << 8u64) | ((c[off + 2] as u64) << 16u64) | ((c[off
        + 3] as u64) << 24u64) | ((c[off + 4] as u64) << 32u64) | ((c[off + 5] as u64) << 40u64)
        | ((c[off + 6] as u64) << 48u64) | ((c[off + 7] as u64) << 56u64)
}

fn copy_range(c: &[u8], a: usize, b: usize) -> (v: Vec<u8>)
    requires
        a <= b <= c@.len(),
    ensures
        v@ == c@.subrange(a as int, b as int),
{
    let mut v: Vec<u8> = Vec::new();
    let mut i = a;
    while i < b
        invariant
            a <= i <= b <= c@.len(),
            v@ == c@.subrange(a as int, i as int),
        decreases b - i,
    {
        v.push(c[i]);
        assert(c@.subrange(a as int, i + 1) =~= c@.subrange(a as int, i as int).push(c@[i as int]));
        i += 1;
    }
    v
}

/// A single entry read back from the log.
#[derive(Clone, Debug)]
pub struct WalEntry {
    /// Byte offset of the entry in the file.
    pub position: u64,
    /// Sequence number (0-based) among the entries read.
    pub sequence: u64,
    /// The entry data.
    pub data: Vec<u8>,
}

/// The entries read are exactly the scanned entries, numbered from 0.
pub open spec fn entries_match(es: Seq<WalEntry>, fr: Seq<(int, Seq<u8>)>) -> bool {
    &&& es.len() == fr.len()
    &&& forall|i: int|
        0 <= i < es.len() ==> {
            &&& #[trigger] es[i].position == fr[i].0
            &&& es[i].sequence == i
            &&& es[i].data@ == fr[i].1
        }
}

/// Scan entries starting at `start`: the valid entries, where they end, and
/// whether the scan stopped at a corrupt entry followed by more bytes.
pub fn scan_from(c: &[u8], start: usize) -> (r: (Vec<WalEntry>, usize, bool))
    ensures
        entries_match(r.0@, wal_scan(c@, start as int).0),
        r.1 == wal_scan(c@, start as int).1,
        r.2 == wal_scan(c@, start as int).2,
{
    let mut out: Vec<WalEntry> = Vec::new();
    if start > c.len() {
        return (out, start, false);
    }
    let mut offset = start;
    let ghost mut prefix: Seq<(int, Seq<u8>)> = Seq::empty();
    loop
        invariant
            start <= offset <= c@.len(),
            wal_scan(c@, start as int).0 == prefix + wal_scan(c@, offset as int).0,
            wal_scan(c@, start as int).1 == wal_scan(c@, offset as int).1,
            wal_scan(c@, start as int).2 == wal_scan(c@, offset as int).2,
            entries_match(out@, prefix),
            prefix.len() == out@.len(),
            out@.len() <= offset,
        decreases c@.len() - offset,
    {
        if c.len() - offset < ENTRY_HEADER_SIZE {
            assert(prefix + Seq::<(int, Seq<u8>)>::empty() =~= prefix);
            return (out, offset, false);
        }
        let len = read_u32_at(c, offset) as usize;
        if len > c.len() - offset - ENTRY_HEADER_SIZE {
            assert(prefix + Seq::<(int, Seq<u8>)>::empty() =~= prefix);
            return (out, offset, false);
        }
        let end = offset + ENTRY_HEADER_SIZE + len;
        let stored = read_u64_at(c, offset + 4);
        let data = copy_range(c, offset + ENTRY_HEADER_SIZE, end);
        let crc = crc64(data.as_slice());
        if crc != stored {
            assert(prefix + Seq::<(int, Seq<u8>)>::empty() =~= prefix);
            return (out, offset, end < c.len());
        }
        let ghost frame = (offset as int, data@);
        let seq_no = out.len() as u64;
        out.push(WalEntry { position: offset as u64, sequence: seq_no, data });
        proof {
            let rest = wal_scan(c@, end as int);
            assert(wal_scan(c@, offset as int).0 == seq![frame] + rest.0);
            assert(prefix + (seq![frame] + rest.0) =~= prefix.push(frame) + rest.0);
            prefix = prefix.push(frame);
        }
        offset = end;
    }
}

/// Parse the entries of a log image starting at byte `start_pos`.
///
/// A CRC mismatch on the last entry is a torn write and ends the entries; a
/// CRC mismatch followed by more bytes is corruption and is an error.
pub fn parse_entries(content: &[u8], start_pos: u64) -> (r: Result<Vec<WalEntry>, String>)
    ensures
        match r {
            Ok(es) => if start_pos > content@.len() {
                es@.len() == 0
            } else {
                !wal_scan(content@, start_pos as int).2 && entries_match(
                    es@,
                    wal_scan(content@, start_pos as int).0,
                )
            },
            Err(_) => start_pos <= content@.len() && wal_scan(content@, start_pos as int).2,
        },
{
    if start_pos > content.len() as u64 {
        return Ok(Vec::new());
    }
    let (es, _end, corrupt) = scan_from(content, start_pos as usize);
    if corrupt {
        Err("wal: CRC mismatch in the middle of the log".to_owned())
    } else {
        Ok(es)
    }
}

/// Scan a whole log file: the number of valid entries after the header and
/// the byte offset where they end.
pub fn scan_file(content: &[u8]) -> (r: (u64, u64))
    ensures
        r.0 == wal_scan(content@, 8).0.len(),
        r.1 == wal_scan(content@, 8).1,
{
    let (es, end, _corrupt) = scan_from(content, 8);
    (es.len() as u64, end as u64)
}


/// `std::str::from_utf8`: the text of the bytes when they are valid UTF-8.
#[verifier::external_body]
fn utf8_text(b: &[u8]) -> (r: Option<&str>)
    ensures
        r is Some <==> vstd::utf8::valid_utf8(b@),
        r matches Some(t) ==> t@ == vstd::utf8::decode_utf8(b@),
{
    std::str::from_utf8(b).ok()
}

impl WalEntry {
    /// The data as text, or the empty string when it is not valid UTF-8.
    pub fn as_str(&self) -> (r: &str)
        ensures
            vstd::utf8::valid_utf8(self.data@) ==> r@ == vstd::utf8::decode_utf8(self.data@),
            !vstd::utf8::valid_utf8(self.data@) ==> r@ == Seq::<char>::empty(),
    {
        match utf8_text(self.data.as_slice()) {
            Some(t) => t,
            None => {
                proof {
                    reveal_strlit("");
                }
                ""
            },
        }
    }
}

// ---------------------------------------------------------------------------
// Writer state
// ---------------------------------------------------------------------------

/// The buffered write state of a log: where committed data ends, how many
/// entries are committed, and the encoded entries awaiting commit.
///
/// Alongside it runs a model of the committed file image and of the entries
/// it holds, so that every method states what the file contains.
pub struct WalWriter {
    write_pos: u64,
    entry_count: u64,
    write_buf: Vec<u8>,
    buf_entries: u64,
    image: Ghost<Seq<u8>>,
    committed: Ghost<Seq<Seq<u8>>>,
    pending: Ghost<Seq<Seq<u8>>>,
}

impl WalWriter {
    /// The committed file image.
    pub closed spec fn image(&self) -> Seq<u8> {
        self.image@
    }

    /// The data of the committed entries, in order.
    pub closed spec fn committed(&self) -> Seq<Seq<u8>> {
        self.committed@
    }

    /// The data of the buffered (uncommitted) entries, in order.
    pub closed spec fn pending(&self) -> Seq<Seq<u8>> {
        self.pending@
    }

    /// The encoded bytes awaiting commit.
    pub closed spec fn buffer(&self) -> Seq<u8> {
        self.write_buf@
    }

    /// The writer state agrees with its image: the image scans cleanly to
    /// exactly the committed entries, and the buffer encodes the pending ones.
    pub closed spec fn wf(&self) -> bool {
        &&& self.image@.len() >= 8
        &&& self.image@.len() == self.write_pos
        &&& wal_scan(self.image@, 8).1 == self.image@.len()
        &&& !wal_scan(self.image@, 8).2
        &&& frame_data(wal_scan(self.image@, 8).0) == self.committed@
        &&& self.committed@.len() == self.entry_count
        &&& self.write_buf@ == encode_all(self.pending@)
        &&& all_fit(self.pending@)
        &&& self.pending@.len() == self.buf_entries
    }

    /// State for a freshly created log whose file holds just the header.
    pub fn fresh() -> (w: Self)
        ensures
            w.wf(),
            w.image() == header_spec(),
            w.committed() == Seq::<Seq<u8>>::empty(),
            w.pending() == Seq::<Seq<u8>>::empty(),
    {
        let w = WalWriter {
            write_pos: HEADER_SIZE,
            entry_count: 0,
            write_buf: Vec::new(),
            buf_entries: 0,
            image: Ghost(header_spec()),
            committed: Ghost(Seq::empty()),
            pending: Ghost(Seq::empty()),
        };
        assert(frame_data(wal_scan(header_spec(), 8).0) =~= Seq::<Seq<u8>>::empty());
        assert(encode_all(Seq::<Seq<u8>>::empty()) =~= Seq::<u8>::empty());
        w
    }

    /// Recover the state of an existing, non-empty log file from its bytes.
    ///
    /// The header must be valid. The entries are those that scan cleanly
    /// after it; everything from the first torn or corrupt entry on is crash
    /// debris, and the returned length is where the file is to be cut.
    pub fn recover(content: &[u8]) -> (r: Result<(Self, u64), String>)
        requires
            content@.len() <= u64::MAX,
        ensures
            r is Ok <==> header_ok(content@),
            r matches Ok((w, cut)) ==> {
                &&& w.wf()
                &&& cut == wal_scan(content@, 8).1
                &&& w.image() == content@.subrange(0, cut as int)
                &&& w.committed() == frame_data(wal_scan(content@, 8).0)
                &&& w.pending() == Seq::<Seq<u8>>::empty()
            },
    {
        validate_header(content)?;
        let (count, end) = scan_file(content);
        proof {
            lemma_scan_bounds(content@, 8);
            lemma_scan_truncate(content@, 8);
        }
        let ghost img = content@.subrange(0, end as int);
        let w = WalWriter {
            write_pos: end,
            entry_count: count,
            write_buf: Vec::new(),
            buf_entries: 0,
            image: Ghost(img),
            committed: Ghost(frame_data(wal_scan(content@, 8).0)),
            pending: Ghost(Seq::empty()),
        };
        assert(encode_all(Seq::<Seq<u8>>::empty()) =~= Seq::<u8>::empty());
        Ok((w, end))
    }

    /// Buffer an entry for writing; it becomes durable at the next commit.
    /// Returns the byte offset the entry will have in the file.
    pub fn append(&mut self, data: &[u8]) -> (pos: u64)
        requires
            old(self).wf(),
            data@.len() <= u32::MAX,
            old(self).image().len() + old(self).buffer().len() + 12 + data@.len() <= u64::MAX,
            old(self).pending().len() < u64::MAX,
        ensures
            final(self).wf(),
            pos == old(self).image().len() + old(self).buffer().len(),
            final(self).image() == old(self).image(),
            final(self).committed() == old(self).committed(),
            final(self).pending() == old(self).pending().push(data@),
            final(self).buffer() == old(self).buffer() + encode_entry_spec(data@),
    {
        let pos = self.write_pos + self.write_buf.len() as u64;
        encode_entry_into(&mut self.write_buf, data);
        self.buf_entries = self.buf_entries + 1;
        proof {
            let p = self.pending@.push(data@);
            assert(p.drop_last() =~= self.pending@);
            assert(encode_all(p) == encode_all(self.pending@) + encode_entry_spec(data@));
            assert forall|i: int| 0 <= i < p.len() implies #[trigger] p[i].len() <= u32::MAX by {
                if i < self.pending@.len() {
                    assert(p[i] == self.pending@[i]);
                }
            }
            self.pending@ = p;
        }
        pos
    }

    /// Byte offset where committed data ends.
    pub fn write_pos(&self) -> (r: u64)
        requires
            self.wf(),
        ensures
            r == self.image().len(),
    {
        self.write_pos
    }

    /// Number of committed entries.
    pub fn len(&self) -> (r: u64)
        requires
            self.wf(),
        ensures
            r == self.committed().len(),
    {
        self.entry_count
    }

    /// Whether the log has no committed entries.
    pub fn is_empty(&self) -> (r: bool)
        requires
            self.wf(),
        ensures
            r == (self.committed().len() == 0),
    {
        self.entry_count == 0
    }

    /// Number of uncommitted entries in the write buffer.
    pub fn buffered(&self) -> (r: u64)
        requires
            self.wf(),
        ensures
            r == self.pending().len(),
    {
        self.buf_entries
    }

    /// The bytes to be written at `write_pos` by the next commit.
    pub fn pending_bytes(&self) -> (r: &[u8])
        ensures
            r@ == self.buffer(),
    {
        self.write_buf.as_slice()
    }

    /// Record that the buffered bytes were written at `write_pos` and synced.
    /// Returns the number of entries committed.
    pub fn mark_committed(&mut self) -> (n: u64)
        requires
            old(self).wf(),
            old(self).image().len() + old(self).buffer().len() <= u64::MAX,
            old(self).committed().len() + old(self).pending().len() <= u64::MAX,
        ensures
            final(self).wf(),
            n == old(self).pending().len(),
            final(self).image() == old(self).image() + old(self).buffer(),
            final(self).committed() == old(self).committed() + old(self).pending(),
            final(self).pending() == Seq::<Seq<u8>>::empty(),
            final(self).buffer() == Seq::<u8>::empty(),
    {
        let n = self.buf_entries;
        proof {
            lemma_scan_push_all(self.image@, 8, self.pending@);
            self.image@ = self.image@ + self.write_buf@;
            self.committed@ = self.committed@ + self.pending@;
            self.pending@ = Seq::empty();
        }
        self.write_pos = self.write_pos + self.write_buf.len() as u64;
        self.entry_count = self.entry_count + n;
        self.buf_entries = 0;
        self.write_buf.clear();
        assert(encode_all(Seq::<Seq<u8>>::empty()) =~= Seq::<u8>::empty());
        n
    }

    /// Compaction: when at least ten entries are committed, the replacement
    /// file image holding just the snapshot entry, and the state switches to
    /// it. Returns the number of entries replaced (0 when not compacted).
    pub fn compact_with_snapshot(&mut self, snapshot: &[u8]) -> (r: (u64, Option<Vec<u8>>))
        requires
            old(self).wf(),
            old(self).pending().len() == 0,
            snapshot@.len() <= u32::MAX,
            snapshot@.len() + 20 <= u64::MAX,
        ensures
            final(self).wf(),
            old(self).committed().len() < 10 ==> r.0 == 0 && r.1 is None && *final(self) == *old(self),
            old(self).committed().len() >= 10 ==> {
                &&& r.0 == old(self).committed().len()
                &&& r.1 matches Some(img) && img@ == header_spec() + encode_entry_spec(snapshot@)
                &&& final(self).image() == header_spec() + encode_entry_spec(snapshot@)
                &&& final(self).committed() == seq![snapshot@]
                &&& final(self).pending() == Seq::<Seq<u8>>::empty()
            },
    {
        let old_count = self.entry_count;
        if old_count < 10 {
            return (0, None);
        }
        let mut content = header_bytes();
        encode_entry_into(&mut content, snapshot);
        proof {
            assert(frame_data(wal_scan(header_spec(), 8).0) =~= Seq::<Seq<u8>>::empty());
            lemma_scan_push(header_spec(), 8, snapshot@);
            assert(frame_data(seq![(8int, snapshot@)]) =~= seq![snapshot@]);
            assert(wal_scan(header_spec(), 8).0.push((8int, snapshot@)) =~= seq![(8int, snapshot@)]);
            self.image@ = content@;
            self.committed@ = seq![snapshot@];
            self.pending@ = Seq::empty();
        }
        self.write_pos = content.len() as u64;
        self.entry_count = 1;
        self.write_buf.clear();
        self.buf_entries = 0;
        assert(encode_all(Seq::<Seq<u8>>::empty()) =~= Seq::<u8>::empty());
        (old_count, Some(content))
    }
}

/// Law: reading back a log image gives exactly the committed entries, in
/// the order they were appended, with no corruption reported.
pub proof fn law_read_back_committed(w: &WalWriter)
    requires
        w.wf(),
    ensures
        !wal_scan(w.image(), 8).2,
        frame_data(wal_scan(w.image(), 8).0) == w.committed(),
        wal_scan(w.image(), 8).1 == w.image().len(),
{
}

/// Law: bytes left after a cleanly written log (a torn write, crash
/// debris) never change the entries read before them; reading continues at
/// the end of the clean part.
pub proof fn law_debris_keeps_entries(clean: Seq<u8>, debris: Seq<u8>)
    requires
        clean.len() >= 8,
        wal_scan(clean, 8).1 == clean.len(),
        !wal_scan(clean, 8).2,
    ensures
        wal_scan(clean + debris, 8).0 == wal_scan(clean, 8).0 + wal_scan(
            clean + debris,
            clean.len() as int,
        ).0,
        debris.len() < 12 ==> wal_scan(clean + debris, 8).0 == wal_scan(clean, 8).0,
{
    lemma_scan_extend(clean, debris, 8);
    if debris.len() < 12 {
        assert(wal_scan(clean + debris, clean.len() as int).0 =~= Seq::empty());
        assert(wal_scan(clean, 8).0 + Seq::<(int, Seq<u8>)>::empty() =~= wal_scan(clean, 8).0);
    }
}

/// Law: recovery is idempotent: the image recovered from any log bytes
/// scans again to the same entries and ends cleanly.
pub proof fn law_recovery_idempotent(content: Seq<u8>)
    requires
        content.len() >= 8,
    ensures
        wal_scan(content.subrange(0, wal_scan(content, 8).1), 8) == (
            wal_scan(content, 8).0,
            wal_scan(content, 8).1,
            false,
        ),
{
    lemma_scan_truncate(content, 8);
}

} // verus!
