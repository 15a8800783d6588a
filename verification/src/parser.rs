//! The page parser: decodes one structured header or one complete page from
//! the front of a byte buffer, and sequences whole buffers into pages.
//!
//! Parsing is a sequential cursor over the wire format: a fixed 27-byte
//! prefix (magic, version, flags, granule position, serial number, sequence
//! number, stored checksum, segment count) followed by the segment table and
//! the payload. Checksum verification is a separate query on the parsed
//! page, never a parse-time gate.

use crate::crc32::{crc32_of, le32_bytes, le64_bytes};
use crate::types::{
    lemma_flags_round_trip, lemma_granule_round_trip, page_bytes, seg_sum, spec_flags_from,
    spec_flags_to_u8, spec_granule_from, spec_granule_to_u64, Flags, GranulePosition, OggError,
    OggHeader, OggPage,
};
use vstd::prelude::*;
use vstd::slice::{slice_index_get, slice_subrange};

verus! {

/// Whether the 4-byte magic signature stands at `off`.
pub open spec fn magic_at(s: Seq<u8>, off: int) -> bool {
    &&& s[off] == 0x4F
    &&& s[off + 1] == 0x67
    &&& s[off + 2] == 0x67
    &&& s[off + 3] == 0x53
}

/// The 32-bit little-endian value at `i`.
pub open spec fn le_u32_at(s: Seq<u8>, i: int) -> u32 {
    (s[i] as u32) | ((s[i + 1] as u32) << 8) | ((s[i + 2] as u32) << 16) | ((s[i + 3] as u32)
        << 24)
}

/// The 64-bit little-endian value at `i`.
pub open spec fn le_u64_at(s: Seq<u8>, i: int) -> u64 {
    (s[i] as u64) | ((s[i + 1] as u64) << 8) | ((s[i + 2] as u64) << 16) | ((s[i + 3] as u64)
        << 24) | ((s[i + 4] as u64) << 32) | ((s[i + 5] as u64) << 40) | ((s[i + 6] as u64) << 48)
        | ((s[i + 7] as u64) << 56)
}

/// The number of segment-table entries declared at `off`.
pub open spec fn table_len_at(s: Seq<u8>, off: int) -> int {
    s[off + 26] as int
}

/// The full header length at `off`: the fixed prefix plus the table.
pub open spec fn header_len_at(s: Seq<u8>, off: int) -> int {
    27 + table_len_at(s, off)
}

/// The segment table declared at `off`.
pub open spec fn table_at(s: Seq<u8>, off: int) -> Seq<u8> {
    s.subrange(off + 27, off + header_len_at(s, off))
}

/// The payload length declared at `off`: the sum of the segment table.
pub open spec fn data_len_at(s: Seq<u8>, off: int) -> nat {
    seg_sum(table_at(s, off))
}

/// The whole page length at `off`: header plus payload.
pub open spec fn page_len_at(s: Seq<u8>, off: int) -> int {
    header_len_at(s, off) + data_len_at(s, off)
}

/// Why parsing a header at `off` fails, or `None` when it succeeds: a buffer
/// shorter than the fixed prefix or the declared table is truncated, a wrong
/// signature is malformed, a version byte other than zero is unsupported.
pub open spec fn header_err_at(s: Seq<u8>, off: int) -> Option<OggError> {
    if s.len() - off < 27 {
        Some(OggError::TruncatedInput)
    } else if !magic_at(s, off) {
        Some(OggError::MalformedHeader)
    } else if s[off + 4] != 0 {
        Some(OggError::UnsupportedVersion)
    } else if s.len() - off < header_len_at(s, off) {
        Some(OggError::TruncatedInput)
    } else {
        None
    }
}

/// Why parsing a page at `off` fails, or `None` when it succeeds: a header
/// failure propagates unchanged, and a buffer with fewer bytes than the
/// declared payload is truncated.
pub open spec fn page_err_at(s: Seq<u8>, off: int) -> Option<OggError> {
    if header_err_at(s, off) is Some {
        header_err_at(s, off)
    } else if s.len() - off < page_len_at(s, off) {
        Some(OggError::TruncatedInput)
    } else {
        None
    }
}

/// `h` is exactly the header encoded at `off`.
pub open spec fn header_at(s: Seq<u8>, off: int, h: OggHeader) -> bool {
    &&& header_err_at(s, off) is None
    &&& h.flags == spec_flags_from(s[off + 5])
    &&& h.pos == spec_granule_from(le_u64_at(s, off + 6))
    &&& h.serial_number == le_u32_at(s, off + 14)
    &&& h.sequence_number == le_u32_at(s, off + 18)
    &&& h.crc32 == le_u32_at(s, off + 22)
    &&& h.segment_table@ == table_at(s, off)
}

/// `p` is exactly the page encoded at `off`: its header and the payload of
/// exactly the declared length that follows it.
pub open spec fn page_at(s: Seq<u8>, off: int, p: OggPage) -> bool {
    &&& page_err_at(s, off) is None
    &&& header_at(s, off, p.header)
    &&& p.data@ == s.subrange(off + header_len_at(s, off), off + page_len_at(s, off))
}

/// Where sequencing a whole buffer from `off` fails, or `None` when the
/// rest of the buffer is exactly zero or more well-formed pages: the first
/// page failure, with the absolute offset of the page that failed, aborts
/// the whole sequence.
pub open spec fn pages_err_from(s: Seq<u8>, off: int) -> Option<(int, OggError)>
    decreases s.len() - off,
    when 0 <= off <= s.len()
{
    if off == s.len() {
        None
    } else {
        match page_err_at(s, off) {
            Some(e) => Some((off, e)),
            None => pages_err_from(s, off + page_len_at(s, off)),
        }
    }
}

/// How many pages stand in the buffer from `off` on, up to the first
/// failure or the end.
pub open spec fn page_count_from(s: Seq<u8>, off: int) -> nat
    decreases s.len() - off,
    when 0 <= off <= s.len()
{
    if off == s.len() {
        0
    } else {
        match page_err_at(s, off) {
            Some(e) => 0,
            None => 1 + page_count_from(s, off + page_len_at(s, off)),
        }
    }
}

/// The absolute offset of the `i`-th page when sequencing starts at `off`.
pub open spec fn page_offset_from(s: Seq<u8>, off: int, i: int) -> int
    decreases i,
{
    if i <= 0 {
        off
    } else {
        let prev = page_offset_from(s, off, i - 1);
        prev + page_len_at(s, prev)
    }
}

/// Parsing at `off` and parsing the suffix that starts at `off` agree on
/// the outcome and on the page length.
pub proof fn lemma_err_shift(s: Seq<u8>, off: int)
    requires
        0 <= off <= s.len(),
    ensures
        header_err_at(s.subrange(off, s.len() as int), 0) == header_err_at(s, off),
        page_err_at(s.subrange(off, s.len() as int), 0) == page_err_at(s, off),
        header_err_at(s, off) is None ==> page_len_at(s.subrange(off, s.len() as int), 0)
            == page_len_at(s, off) && header_len_at(s.subrange(off, s.len() as int), 0)
            == header_len_at(s, off),
{
    let t = s.subrange(off, s.len() as int);
    if t.len() >= 27 {
        assert(t[4] == s[off + 4]);
        assert(t[26] == s[off + 26]);
        assert(magic_at(t, 0) == magic_at(s, off));
        if magic_at(s, off) && s[off + 4] == 0 && s.len() - off >= header_len_at(s, off) {
            assert(table_at(t, 0) =~= table_at(s, off));
        }
    }
}

/// The same page is decoded at `off` and at the front of the suffix that
/// starts at `off`.
pub proof fn lemma_page_at_shift<'a>(s: Seq<u8>, off: int, p: OggPage<'a>)
    requires
        0 <= off <= s.len(),
    ensures
        page_at(s.subrange(off, s.len() as int), 0, p) == page_at(s, off, p),
{
    let t = s.subrange(off, s.len() as int);
    lemma_err_shift(s, off);
    if page_err_at(s, off) is None {
        assert(table_at(t, 0) =~= table_at(s, off));
        assert(t.subrange(header_len_at(t, 0), page_len_at(t, 0)) =~= s.subrange(
            off + header_len_at(s, off),
            off + page_len_at(s, off),
        ));
        assert(le_u64_at(t, 6) == le_u64_at(s, off + 6));
        assert(le_u32_at(t, 14) == le_u32_at(s, off + 14));
        assert(le_u32_at(t, 18) == le_u32_at(s, off + 18));
        assert(le_u32_at(t, 22) == le_u32_at(s, off + 22));
        assert(t[5] == s[off + 5]);
    }
}

/// Sequence the whole buffer into pages by repeatedly parsing the remaining
/// suffix, until the buffer is exhausted (zero or more pages) or a page
/// fails, which aborts the whole sequence and names the offset at which the
/// failing page started.
pub fn parse_all_pages<'a>(buf: &'a [u8]) -> (r: Result<Vec<OggPage<'a>>, (usize, OggError)>)
    ensures
        match r {
            Ok(pages) => {
                &&& pages_err_from(buf@, 0) is None
                &&& pages@.len() == page_count_from(buf@, 0)
                &&& page_offset_from(buf@, 0, pages@.len() as int) == buf@.len()
                &&& forall|i: int|
                    0 <= i < pages@.len() ==> page_at(
                        buf@,
                        page_offset_from(buf@, 0, i),
                        #[trigger] pages@[i],
                    ) && pages@[i].wf()
            },
            Err((off, e)) => pages_err_from(buf@, 0) == Some((off as int, e)),
        },
{
    let mut pages: Vec<OggPage<'a>> = Vec::new();
    let mut off: usize = 0;
    while off < buf.len()
        invariant
            off <= buf@.len(),
            pages_err_from(buf@, 0) == pages_err_from(buf@, off as int),
            page_count_from(buf@, 0) == pages@.len() + page_count_from(buf@, off as int),
            page_offset_from(buf@, 0, pages@.len() as int) == off as int,
            forall|i: int|
                0 <= i < pages@.len() ==> page_at(
                    buf@,
                    page_offset_from(buf@, 0, i),
                    #[trigger] pages@[i],
                ) && pages@[i].wf(),
        decreases buf@.len() - off,
    {
        let suffix = slice_subrange(buf, off, buf.len());
        match parse_page(suffix) {
            Ok((p, c)) => {
                proof {
                    lemma_err_shift(buf@, off as int);
                    lemma_page_at_shift(buf@, off as int, p);
                    assert(page_offset_from(buf@, 0, pages@.len() as int + 1) == off + page_len_at(
                        buf@,
                        off as int,
                    ));
                }
                pages.push(p);
                off = off + c;
            },
            Err(e) => {
                proof {
                    lemma_err_shift(buf@, off as int);
                }
                return Err((off, e));
            },
        }
    }
    Ok(pages)
}

/// The 32-bit little-endian value read from `buf` at `i`.
fn read_le_u32(buf: &[u8], i: usize) -> (r: u32)
    requires
        i + 4 <= buf@.len() <= usize::MAX,
    ensures
        r == le_u32_at(buf@, i as int),
{
    let b0 = *slice_index_get(buf, i);
    let b1 = *slice_index_get(buf, i + 1);
    let b2 = *slice_index_get(buf, i + 2);
    let b3 = *slice_index_get(buf, i + 3);
    (b0 as u32) | ((b1 as u32) << 8) | ((b2 as u32) << 16) | ((b3 as u32) << 24)
}

/// The 64-bit little-endian value read from `buf` at `i`.
fn read_le_u64(buf: &[u8], i: usize) -> (r: u64)
    requires
        i + 8 <= buf@.len() <= usize::MAX,
    ensures
        r == le_u64_at(buf@, i as int),
{
    let b0 = *slice_index_get(buf, i);
    let b1 = *slice_index_get(buf, i + 1);
    let b2 = *slice_index_get(buf, i + 2);
    let b3 = *slice_index_get(buf, i + 3);
    let b4 = *slice_index_get(buf, i + 4);
    let b5 = *slice_index_get(buf, i + 5);
    let b6 = *slice_index_get(buf, i + 6);
    let b7 = *slice_index_get(buf, i + 7);
    (b0 as u64) | ((b1 as u64) << 8) | ((b2 as u64) << 16) | ((b3 as u64) << 24) | ((b4 as u64)
        << 32) | ((b5 as u64) << 40) | ((b6 as u64) << 48) | ((b7 as u64) << 56)
}

/// Decode one header from the front of the buffer, returning it together
/// with the number of bytes consumed (27 plus the segment-table length).
pub fn parse_header<'a>(buf: &'a [u8]) -> (r: Result<(OggHeader<'a>, usize), OggError>)
    ensures
        match r {
            Ok((h, c)) => {
                &&& header_at(buf@, 0, h)
                &&& h.wf()
                &&& c == header_len_at(buf@, 0)
            },
            Err(e) => header_err_at(buf@, 0) == Some(e),
        },
{
    if buf.len() < 27 {
        return Err(OggError::TruncatedInput);
    }
    if *slice_index_get(buf, 0) != 0x4F || *slice_index_get(buf, 1) != 0x67 || *slice_index_get(
        buf,
        2,
    ) != 0x67 || *slice_index_get(buf, 3) != 0x53 {
        return Err(OggError::MalformedHeader);
    }
    if *slice_index_get(buf, 4) != 0 {
        return Err(OggError::UnsupportedVersion);
    }
    let flags = Flags::from(*slice_index_get(buf, 5));
    let pos = GranulePosition::from(read_le_u64(buf, 6));
    let serial_number = read_le_u32(buf, 14);
    let sequence_number = read_le_u32(buf, 18);
    let crc32 = read_le_u32(buf, 22);
    let n = *slice_index_get(buf, 26) as usize;
    if buf.len() < 27 + n {
        return Err(OggError::TruncatedInput);
    }
    let segment_table = slice_subrange(buf, 27, 27 + n);
    Ok(
        (
            OggHeader {
                flags,
                pos,
                serial_number,
                sequence_number,
                crc32,
                segment_table,
            },
            27 + n,
        ),
    )
}

/// Decode one complete page from the front of the buffer: its header, then
/// exactly the declared payload. Returns the page and the number of bytes
/// consumed; a header failure propagates unchanged.
pub fn parse_page<'a>(buf: &'a [u8]) -> (r: Result<(OggPage<'a>, usize), OggError>)
    ensures
        match r {
            Ok((p, c)) => {
                &&& page_at(buf@, 0, p)
                &&& p.wf()
                &&& c == page_len_at(buf@, 0)
            },
            Err(e) => page_err_at(buf@, 0) == Some(e),
        },
{
    let (header, consumed) = match parse_header(buf) {
        Ok(x) => x,
        Err(e) => {
            return Err(e);
        },
    };
    let data_len = header.get_data_size();
    if buf.len() - consumed < data_len {
        return Err(OggError::TruncatedInput);
    }
    let data = slice_subrange(buf, consumed, consumed + data_len);
    Ok((OggPage { header, data }, consumed + data_len))
}


/// A buffer shorter than the fixed 27-byte prefix always fails as
/// truncated, whatever its bytes.
pub proof fn lemma_short_header_truncated(s: Seq<u8>)
    requires
        s.len() < 27,
    ensures
        header_err_at(s, 0) == Some(OggError::TruncatedInput),
        page_err_at(s, 0) == Some(OggError::TruncatedInput),
{
}

/// A buffer long enough for the fixed prefix but starting with any four
/// bytes other than the magic signature always fails as malformed. (A
/// shorter such buffer is reported as truncated instead: the length check
/// comes first.)
pub proof fn lemma_bad_magic_malformed(s: Seq<u8>)
    requires
        s.len() >= 27,
        !magic_at(s, 0),
    ensures
        header_err_at(s, 0) == Some(OggError::MalformedHeader),
        page_err_at(s, 0) == Some(OggError::MalformedHeader),
{
}

/// Unpacking a packed 32-bit little-endian value yields the four packed
/// bytes back.
proof fn lemma_le32_unpack(b0: u8, b1: u8, b2: u8, b3: u8)
    by (bit_vector)
    ensures
        ((b0 as u32) | ((b1 as u32) << 8) | ((b2 as u32) << 16) | ((b3 as u32) << 24)) as u8
            == b0,
        (((b0 as u32) | ((b1 as u32) << 8) | ((b2 as u32) << 16) | ((b3 as u32) << 24)) >> 8)
            as u8 == b1,
        (((b0 as u32) | ((b1 as u32) << 8) | ((b2 as u32) << 16) | ((b3 as u32) << 24)) >> 16)
            as u8 == b2,
        (((b0 as u32) | ((b1 as u32) << 8) | ((b2 as u32) << 16) | ((b3 as u32) << 24)) >> 24)
            as u8 == b3,
{
}

/// Unpacking a packed 64-bit little-endian value yields the eight packed
/// bytes back.
proof fn lemma_le64_unpack(b0: u8, b1: u8, b2: u8, b3: u8, b4: u8, b5: u8, b6: u8, b7: u8)
    by (bit_vector)
    ensures
        ((b0 as u64) | ((b1 as u64) << 8) | ((b2 as u64) << 16) | ((b3 as u64) << 24) | ((b4
            as u64) << 32) | ((b5 as u64) << 40) | ((b6 as u64) << 48) | ((b7 as u64) << 56))
            as u8 == b0,
        (((b0 as u64) | ((b1 as u64) << 8) | ((b2 as u64) << 16) | ((b3 as u64) << 24) | ((b4
            as u64) << 32) | ((b5 as u64) << 40) | ((b6 as u64) << 48) | ((b7 as u64) << 56))
            >> 8) as u8 == b1,
        (((b0 as u64) | ((b1 as u64) << 8) | ((b2 as u64) << 16) | ((b3 as u64) << 24) | ((b4
            as u64) << 32) | ((b5 as u64) << 40) | ((b6 as u64) << 48) | ((b7 as u64) << 56))
            >> 16) as u8 == b2,
        (((b0 as u64) | ((b1 as u64) << 8) | ((b2 as u64) << 16) | ((b3 as u64) << 24) | ((b4
            as u64) << 32) | ((b5 as u64) << 40) | ((b6 as u64) << 48) | ((b7 as u64) << 56))
            >> 24) as u8 == b3,
        (((b0 as u64) | ((b1 as u64) << 8) | ((b2 as u64) << 16) | ((b3 as u64) << 24) | ((b4
            as u64) << 32) | ((b5 as u64) << 40) | ((b6 as u64) << 48) | ((b7 as u64) << 56))
            >> 32) as u8 == b4,
        (((b0 as u64) | ((b1 as u64) << 8) | ((b2 as u64) << 16) | ((b3 as u64) << 24) | ((b4
            as u64) << 32) | ((b5 as u64) << 40) | ((b6 as u64) << 48) | ((b7 as u64) << 56))
            >> 40) as u8 == b5,
        (((b0 as u64) | ((b1 as u64) << 8) | ((b2 as u64) << 16) | ((b3 as u64) << 24) | ((b4
            as u64) << 32) | ((b5 as u64) << 40) | ((b6 as u64) << 48) | ((b7 as u64) << 56))
            >> 48) as u8 == b6,
        (((b0 as u64) | ((b1 as u64) << 8) | ((b2 as u64) << 16) | ((b3 as u64) << 24) | ((b4
            as u64) << 32) | ((b5 as u64) << 40) | ((b6 as u64) << 48) | ((b7 as u64) << 56))
            >> 56) as u8 == b7,
{
}

/// Re-encoding the 32-bit value decoded at `i` gives back the four buffer
/// bytes it was decoded from.
proof fn lemma_le32_roundtrip(s: Seq<u8>, i: int)
    requires
        0 <= i,
        i + 4 <= s.len(),
    ensures
        le32_bytes(le_u32_at(s, i)) == s.subrange(i, i + 4),
{
    lemma_le32_unpack(s[i], s[i + 1], s[i + 2], s[i + 3]);
    assert(le32_bytes(le_u32_at(s, i)) =~= s.subrange(i, i + 4));
}

/// Re-encoding the 64-bit value decoded at `i` gives back the eight buffer
/// bytes it was decoded from.
proof fn lemma_le64_roundtrip(s: Seq<u8>, i: int)
    requires
        0 <= i,
        i + 8 <= s.len(),
    ensures
        le64_bytes(le_u64_at(s, i)) == s.subrange(i, i + 8),
{
    lemma_le64_unpack(s[i], s[i + 1], s[i + 2], s[i + 3], s[i + 4], s[i + 5], s[i + 6], s[i + 7]);
    assert(le64_bytes(le_u64_at(s, i)) =~= s.subrange(i, i + 8));
}

/// The bytes the checksum of the page at `off` covers: the page's own bytes
/// with the four stored-checksum bytes replaced by zeros.
pub open spec fn checksummed_bytes(s: Seq<u8>, off: int) -> Seq<u8> {
    s.subrange(off, off + 22) + seq![0u8, 0u8, 0u8, 0u8] + s.subrange(
        off + 26,
        off + page_len_at(s, off),
    )
}

/// The stored checksum of the page at `off` was computed over the page's
/// own bytes, with the checksum field itself zeroed.
pub open spec fn checksum_valid_at(s: Seq<u8>, off: int) -> bool {
    le_u32_at(s, off + 22) == crc32_of(checksummed_bytes(s, off))
}

/// The byte layout that verification recomputes the checksum over equals
/// the buffer bytes of the page, checksum field zeroed — provided the
/// flags byte carries no reserved bits, since re-encoding drops those.
pub proof fn lemma_page_bytes_at<'a>(s: Seq<u8>, off: int, p: OggPage<'a>)
    requires
        0 <= off,
        page_at(s, off, p),
        s[off + 5] & 0x07 == s[off + 5],
    ensures
        page_bytes(p) == checksummed_bytes(s, off),
{
    let hl = header_len_at(s, off);
    let pl = page_len_at(s, off);
    assert(seq![0x4Fu8, 0x67u8, 0x67u8, 0x53u8] =~= s.subrange(off, off + 4));
    assert(seq![0u8] =~= s.subrange(off + 4, off + 5));
    lemma_flags_round_trip(s[off + 5]);
    assert(seq![spec_flags_to_u8(p.header.flags)] =~= s.subrange(off + 5, off + 6));
    lemma_granule_round_trip(le_u64_at(s, off + 6));
    lemma_le64_roundtrip(s, off + 6);
    lemma_le32_roundtrip(s, off + 14);
    lemma_le32_roundtrip(s, off + 18);
    assert(p.header.segment_table@.len() == s[off + 26]);
    assert(seq![p.header.segment_table@.len() as u8] =~= s.subrange(off + 26, off + 27));
    assert(s.subrange(off, off + 4) + s.subrange(off + 4, off + 5) =~= s.subrange(off, off + 5));
    assert(s.subrange(off, off + 5) + s.subrange(off + 5, off + 6) =~= s.subrange(off, off + 6));
    assert(s.subrange(off, off + 6) + s.subrange(off + 6, off + 14) =~= s.subrange(off, off + 14));
    assert(s.subrange(off, off + 14) + s.subrange(off + 14, off + 18) =~= s.subrange(
        off,
        off + 18,
    ));
    assert(s.subrange(off, off + 18) + s.subrange(off + 18, off + 22) =~= s.subrange(
        off,
        off + 22,
    ));
    let head = s.subrange(off, off + 22) + seq![0u8, 0u8, 0u8, 0u8];
    assert(page_bytes(p) == head + s.subrange(off + 26, off + 27) + s.subrange(off + 27, off + hl)
        + s.subrange(off + hl, off + pl));
    assert(head + s.subrange(off + 26, off + 27) + s.subrange(off + 27, off + hl) =~= head
        + s.subrange(off + 26, off + hl));
    assert(head + s.subrange(off + 26, off + hl) + s.subrange(off + hl, off + pl) =~= head
        + s.subrange(off + 26, off + pl));
}

/// A page whose stored checksum was computed per the layout above verifies:
/// the recomputed checksum equals the stored one.
pub proof fn lemma_parsed_page_verifies<'a>(s: Seq<u8>, off: int, p: OggPage<'a>)
    requires
        0 <= off,
        page_at(s, off, p),
        s[off + 5] & 0x07 == s[off + 5],
        checksum_valid_at(s, off),
    ensures
        crc32_of(page_bytes(p)) == p.header.crc32,
{
    lemma_page_bytes_at(s, off, p);
}

/// Every page of a fully sequenced buffer verifies, provided each page's
/// stored checksum was computed over its own bytes (checksum field zeroed)
/// and no page's flags byte carries reserved bits.
pub proof fn lemma_all_pages_verify<'a>(s: Seq<u8>, pages: Seq<OggPage<'a>>)
    requires
        forall|i: int|
            0 <= i < pages.len() ==> page_at(s, page_offset_from(s, 0, i), #[trigger] pages[i]),
        forall|i: int|
            #![trigger page_offset_from(s, 0, i)]
            0 <= i < pages.len() ==> s[page_offset_from(s, 0, i) + 5] & 0x07 == s[page_offset_from(
                s,
                0,
                i,
            ) + 5],
        forall|i: int|
            #![trigger page_offset_from(s, 0, i)]
            0 <= i < pages.len() ==> checksum_valid_at(s, page_offset_from(s, 0, i)),
    ensures
        forall|i: int|
            0 <= i < pages.len() ==> crc32_of(page_bytes(#[trigger] pages[i]))
                == pages[i].header.crc32,
{
    assert forall|i: int| 0 <= i < pages.len() implies crc32_of(page_bytes(#[trigger] pages[i]))
        == pages[i].header.crc32 by {
        let off = page_offset_from(s, 0, i);
        assert(0 <= off) by {
            lemma_page_offset_nonneg(s, 0, i);
        }
        lemma_parsed_page_verifies(s, off, pages[i]);
    }
}

/// Page offsets never move before the start of sequencing.
proof fn lemma_page_offset_nonneg(s: Seq<u8>, off: int, i: int)
    requires
        0 <= off,
    ensures
        page_offset_from(s, off, i) >= off,
    decreases i,
{
    if i > 0 {
        lemma_page_offset_nonneg(s, off, i - 1);
    }
}

/// Changing a byte that only the checksum covers — the flags byte, the
/// granule position, the stream identifiers, the stored checksum or a
/// payload byte, but not the magic, version or segment-table bytes that
/// give the page its shape — leaves the parse outcome and the page length
/// unchanged: a page whose content was damaged still parses.
pub proof fn lemma_parse_ignores_content(s: Seq<u8>, k: int, v: u8)
    requires
        page_err_at(s, 0) is None,
        5 <= k < 26 || header_len_at(s, 0) <= k < page_len_at(s, 0),
    ensures
        page_err_at(s.update(k, v), 0) is None,
        page_len_at(s.update(k, v), 0) == page_len_at(s, 0),
        header_len_at(s.update(k, v), 0) == header_len_at(s, 0),
{
    let t = s.update(k, v);
    assert(magic_at(t, 0) == magic_at(s, 0));
    assert(t[4] == s[4]);
    assert(t[26] == s[26]);
    assert(table_at(t, 0) =~= table_at(s, 0));
}

} // verus!
