//! The parsed shapes of the container format: page flags, granule position,
//! page header and page, together with the checksum computation over a page.

use crate::crc32::{
    crc32_fold, crc32_of, le32_bytes, le64_bytes, lemma_crc32_fold_concat, lemma_crc32_fold_one,
    lemma_crc32_fold_push, Crc32,
};
use vstd::prelude::*;

verus! {

/// The all-ones granule value reserved to mean "no position".
pub const NO_POSITION_SENTINEL: u64 = 0xFFFF_FFFF_FFFF_FFFF;

/// The ways a page can be bad. The first three are parse failures; a
/// checksum mismatch is reported only by the verification query, never by
/// parsing itself, since a page may parse yet carry damaged content.
#[derive(Debug, PartialEq, Eq, Clone, Copy)]
pub enum OggError {
    /// The magic bytes do not match.
    MalformedHeader,
    /// The version byte is not the recognized constant.
    UnsupportedVersion,
    /// Fewer bytes remain than a field, the declared segment table or the
    /// declared payload requires.
    TruncatedInput,
    /// The stored checksum does not equal the recomputed one.
    ChecksumMismatch,
}

/// The three independent flag bits decoded from the header's flags byte.
/// Bits beyond bit 2 are ignored on decoding.
#[derive(Debug, PartialEq)]
pub struct Flags {
    /// Bit 0: this page continues a packet from the previous page.
    pub continued: bool,
    /// Bit 1: first page of the logical stream.
    pub first_page: bool,
    /// Bit 2: final page of the logical stream.
    pub last_page: bool,
}

/// The flags decoded from one byte.
pub open spec fn spec_flags_from(b: u8) -> Flags {
    Flags {
        continued: b & 0x01 != 0,
        first_page: b & 0x02 != 0,
        last_page: b & 0x04 != 0,
    }
}

/// The byte that re-encodes the flags: one bit per flag, reserved bits zero.
pub open spec fn spec_flags_to_u8(f: Flags) -> u8 {
    ((if f.continued {
        0x01u8
    } else {
        0u8
    }) + (if f.first_page {
        0x02u8
    } else {
        0u8
    }) + (if f.last_page {
        0x04u8
    } else {
        0u8
    })) as u8
}

impl From<u8> for Flags {
    fn from(byte: u8) -> (r: Flags) {
        Flags {
            continued: byte & 0x01 != 0,
            first_page: byte & 0x02 != 0,
            last_page: byte & 0x04 != 0,
        }
    }
}

impl vstd::std_specs::convert::FromSpecImpl<u8> for Flags {
    open spec fn obeys_from_spec() -> bool {
        true
    }

    open spec fn from_spec(b: u8) -> Flags {
        spec_flags_from(b)
    }
}

impl Flags {
    /// Re-encode the flags to a byte, the exact inverse of decoding.
    pub fn to_u8(&self) -> (r: u8)
        ensures
            r == spec_flags_to_u8(*self),
    {
        let mut res = 0u8;
        if self.continued {
            res = res + 0x01u8;
        }
        if self.first_page {
            res = res + 0x02u8;
        }
        if self.last_page {
            res = res + 0x04u8;
        }
        res
    }
}

/// The three flags decoded from any byte read exactly bits 0, 1 and 2.
pub proof fn lemma_flags_decode_bits(b: u8)
    ensures
        spec_flags_from(b).continued == (b & 0x01 != 0),
        spec_flags_from(b).first_page == (b & 0x02 != 0),
        spec_flags_from(b).last_page == (b & 0x04 != 0),
{
}

/// Decoding a byte whose reserved bits are clear and re-encoding the flags
/// yields that byte back. (A byte with a reserved bit set comes back
/// without it: decoding drops bits 3 and above.)
pub proof fn lemma_flags_round_trip(b: u8)
    requires
        b & 0x07 == b,
    ensures
        spec_flags_to_u8(spec_flags_from(b)) == b,
{
    assert(b & 0x07 == b ==> (b & 0x01) + (b & 0x02) + (b & 0x04) == b) by (bit_vector);
    assert(b & 0x01 == 0 || b & 0x01 == 0x01) by (bit_vector);
    assert(b & 0x02 == 0 || b & 0x02 == 0x02) by (bit_vector);
    assert(b & 0x04 == 0 || b & 0x04 == 0x04) by (bit_vector);
}

/// Decoding the re-encoding of any flags gives the flags back: every flag
/// combination survives the byte form unchanged.
pub proof fn lemma_flags_encode_decode(f: Flags)
    ensures
        spec_flags_from(spec_flags_to_u8(f)) == f,
{
    assert(0u8 & 0x01 == 0 && 0u8 & 0x02 == 0 && 0u8 & 0x04 == 0) by (bit_vector);
    assert(1u8 & 0x01 != 0 && 1u8 & 0x02 == 0 && 1u8 & 0x04 == 0) by (bit_vector);
    assert(2u8 & 0x01 == 0 && 2u8 & 0x02 != 0 && 2u8 & 0x04 == 0) by (bit_vector);
    assert(3u8 & 0x01 != 0 && 3u8 & 0x02 != 0 && 3u8 & 0x04 == 0) by (bit_vector);
    assert(4u8 & 0x01 == 0 && 4u8 & 0x02 == 0 && 4u8 & 0x04 != 0) by (bit_vector);
    assert(5u8 & 0x01 != 0 && 5u8 & 0x02 == 0 && 5u8 & 0x04 != 0) by (bit_vector);
    assert(6u8 & 0x01 == 0 && 6u8 & 0x02 != 0 && 6u8 & 0x04 != 0) by (bit_vector);
    assert(7u8 & 0x01 != 0 && 7u8 & 0x02 != 0 && 7u8 & 0x04 != 0) by (bit_vector);
}

/// A 64-bit position marker with one reserved sentinel: the all-ones value
/// means that no position is defined for the page.
#[derive(Debug, PartialEq)]
pub enum GranulePosition {
    /// A concrete position value.
    Position(u64),
    /// No position is defined for this page.
    NoPosition,
}

/// The granule position decoded from a raw 64-bit value.
pub open spec fn spec_granule_from(v: u64) -> GranulePosition {
    if v == NO_POSITION_SENTINEL {
        GranulePosition::NoPosition
    } else {
        GranulePosition::Position(v)
    }
}

/// The raw 64-bit value that re-encodes a granule position.
pub open spec fn spec_granule_to_u64(g: GranulePosition) -> u64 {
    match g {
        GranulePosition::NoPosition => NO_POSITION_SENTINEL,
        GranulePosition::Position(p) => p,
    }
}

impl From<u64> for GranulePosition {
    fn from(pos: u64) -> (r: GranulePosition) {
        if pos == NO_POSITION_SENTINEL {
            GranulePosition::NoPosition
        } else {
            GranulePosition::Position(pos)
        }
    }
}

impl vstd::std_specs::convert::FromSpecImpl<u64> for GranulePosition {
    open spec fn obeys_from_spec() -> bool {
        true
    }

    open spec fn from_spec(v: u64) -> GranulePosition {
        spec_granule_from(v)
    }
}

impl GranulePosition {
    /// Re-encode the position to its raw 64-bit value.
    pub fn to_u64(&self) -> (r: u64)
        ensures
            r == spec_granule_to_u64(*self),
    {
        match self {
            GranulePosition::NoPosition => NO_POSITION_SENTINEL,
            GranulePosition::Position(pos) => *pos,
        }
    }
}

/// Every value but the sentinel decodes to that concrete position, the
/// sentinel decodes to `NoPosition`, and re-encoding is the exact inverse
/// in both branches.
pub proof fn lemma_granule_round_trip(v: u64)
    ensures
        spec_granule_to_u64(spec_granule_from(v)) == v,
        v != NO_POSITION_SENTINEL ==> spec_granule_from(v) == GranulePosition::Position(v),
        spec_granule_from(NO_POSITION_SENTINEL) == GranulePosition::NoPosition,
{
}

/// Decoding the re-encoding of a granule position gives the position back,
/// for every position the decoder can produce (a hand-built
/// `Position(NO_POSITION_SENTINEL)` re-encodes to the sentinel instead).
pub proof fn lemma_granule_encode_decode(g: GranulePosition)
    requires
        g != GranulePosition::Position(NO_POSITION_SENTINEL),
    ensures
        spec_granule_from(spec_granule_to_u64(g)) == g,
{
}

/// The sum of the entries of a segment table.
pub open spec fn seg_sum(s: Seq<u8>) -> nat
    decreases s.len(),
{
    if s.len() == 0 {
        0
    } else {
        (seg_sum(s.drop_last()) + s.last()) as nat
    }
}

/// The fixed 27-byte header prefix of a page, plus its segment table, which
/// borrows the underlying buffer.
#[derive(Debug, PartialEq)]
pub struct OggHeader<'a> {
    /// The decoded flags byte.
    pub flags: Flags,
    /// The decoded granule position.
    pub pos: GranulePosition,
    /// Identifier of the logical stream this page belongs to.
    pub serial_number: u32,
    /// Index of this page within its logical stream.
    pub sequence_number: u32,
    /// The checksum stored in the page.
    pub crc32: u32,
    /// One byte per payload segment: the segment's size in bytes.
    pub segment_table: &'a [u8],
}

impl<'a> OggHeader<'a> {
    /// A header as parsing produces it: the segment table came from a
    /// one-byte count, so it has at most 255 entries.
    pub open spec fn wf(&self) -> bool {
        self.segment_table@.len() <= 255
    }

    /// The total payload size of the page: the sum of the segment table.
    pub fn get_data_size(&self) -> (r: usize)
        requires
            self.wf(),
        ensures
            r == seg_sum(self.segment_table@),
    {
        let n = self.segment_table.len();
        let mut acc: usize = 0;
        let mut i: usize = 0;
        while i < n
            invariant
                i <= n,
                n == self.segment_table@.len() <= 255,
                acc == seg_sum(self.segment_table@.subrange(0, i as int)),
                acc <= 255 * i,
            decreases n - i,
        {
            let b = *vstd::slice::slice_index_get(self.segment_table, i);
            proof {
                let t = self.segment_table@;
                assert(t.subrange(0, i + 1).drop_last() =~= t.subrange(0, i as int));
                assert(t.subrange(0, i + 1).last() == t[i as int]);
            }
            acc = acc + b as usize;
            i = i + 1;
        }
        proof {
            assert(self.segment_table@.subrange(0, n as int) =~= self.segment_table@);
        }
        acc
    }
}

/// One complete page: a header and the payload that follows it in the
/// buffer, exactly `seg_sum(segment_table)` bytes long when parsed.
#[derive(Debug, PartialEq)]
pub struct OggPage<'a> {
    /// The page's header.
    pub header: OggHeader<'a>,
    /// The page's payload, borrowed from the underlying buffer.
    pub data: &'a [u8],
}

/// The exact byte layout the checksum covers: the magic, the version byte,
/// the re-encoded flags, the re-encoded granule position, the two stream
/// identifiers, four zero bytes in place of the stored checksum, the
/// segment-table length, the segment table and the payload.
pub open spec fn page_bytes(p: OggPage) -> Seq<u8> {
    seq![0x4Fu8, 0x67u8, 0x67u8, 0x53u8] + seq![0u8] + seq![spec_flags_to_u8(p.header.flags)]
        + le64_bytes(spec_granule_to_u64(p.header.pos)) + le32_bytes(p.header.serial_number)
        + le32_bytes(p.header.sequence_number) + seq![0u8, 0u8, 0u8, 0u8]
        + seq![p.header.segment_table@.len() as u8] + p.header.segment_table@ + p.data@
}

impl<'a> OggPage<'a> {
    /// A page as parsing produces it.
    pub open spec fn wf(&self) -> bool {
        self.header.wf()
    }

    /// Recompute the checksum over the page's own layout, with the stored
    /// checksum replaced by four zero bytes.
    pub fn calc_crc(&self) -> (r: u32)
        requires
            self.wf(),
        ensures
            r == crc32_of(page_bytes(*self)),
    {
        let header = &self.header;
        let mut crc = Crc32::new();
        crc.process_u32(0x5367674Fu32);
        proof {
            assert(0x5367674Fu32 as u8 == 0x4Fu8) by (bit_vector);
            assert((0x5367674Fu32 >> 8) as u8 == 0x67u8) by (bit_vector);
            assert((0x5367674Fu32 >> 16) as u8 == 0x67u8) by (bit_vector);
            assert((0x5367674Fu32 >> 24) as u8 == 0x53u8) by (bit_vector);
            assert(le32_bytes(0x5367674Fu32) =~= seq![0x4Fu8, 0x67u8, 0x67u8, 0x53u8]);
        }
        let ghost b0 = seq![0x4Fu8, 0x67u8, 0x67u8, 0x53u8];
        crc.process_u8(0);
        proof {
            lemma_crc32_fold_concat(0, b0, seq![0u8]);
        }
        let ghost b1 = b0 + seq![0u8];
        crc.process_u8(header.flags.to_u8());
        proof {
            lemma_crc32_fold_concat(0, b1, seq![spec_flags_to_u8(header.flags)]);
        }
        let ghost b2 = b1 + seq![spec_flags_to_u8(header.flags)];
        crc.process_u64(header.pos.to_u64());
        proof {
            lemma_crc32_fold_concat(0, b2, le64_bytes(spec_granule_to_u64(header.pos)));
        }
        let ghost b3 = b2 + le64_bytes(spec_granule_to_u64(header.pos));
        crc.process_u32(header.serial_number);
        proof {
            lemma_crc32_fold_concat(0, b3, le32_bytes(header.serial_number));
        }
        let ghost b4 = b3 + le32_bytes(header.serial_number);
        crc.process_u32(header.sequence_number);
        proof {
            lemma_crc32_fold_concat(0, b4, le32_bytes(header.sequence_number));
        }
        let ghost b5 = b4 + le32_bytes(header.sequence_number);
        crc.process_u32(0u32);
        proof {
            assert(0u32 as u8 == 0u8) by (bit_vector);
            assert((0u32 >> 8) as u8 == 0u8) by (bit_vector);
            assert((0u32 >> 16) as u8 == 0u8) by (bit_vector);
            assert((0u32 >> 24) as u8 == 0u8) by (bit_vector);
            assert(le32_bytes(0u32) =~= seq![0u8, 0u8, 0u8, 0u8]);
            lemma_crc32_fold_concat(0, b5, seq![0u8, 0u8, 0u8, 0u8]);
        }
        let ghost b6 = b5 + seq![0u8, 0u8, 0u8, 0u8];
        crc.process_u8(header.segment_table.len() as u8);
        proof {
            lemma_crc32_fold_concat(0, b6, seq![header.segment_table@.len() as u8]);
        }
        let ghost b7 = b6 + seq![header.segment_table@.len() as u8];
        let tn = header.segment_table.len();
        let mut i: usize = 0;
        while i < tn
            invariant
                i <= tn,
                tn == header.segment_table@.len(),
                crc.wf(),
                crc.digest == crc32_fold(0, b7 + header.segment_table@.subrange(0, i as int)),
            decreases tn - i,
        {
            let b = *vstd::slice::slice_index_get(header.segment_table, i);
            crc.process_u8(b);
            proof {
                let t = header.segment_table@;
                lemma_crc32_fold_one(crc32_fold(0, b7 + t.subrange(0, i as int)), b);
                lemma_crc32_fold_push(0, b7 + t.subrange(0, i as int), t[i as int]);
                assert((b7 + t.subrange(0, i as int)).push(t[i as int]) =~= b7 + t.subrange(
                    0,
                    i + 1,
                ));
            }
            i = i + 1;
        }
        proof {
            assert(b7 + header.segment_table@.subrange(0, tn as int) =~= b7
                + header.segment_table@);
        }
        let ghost b8 = b7 + header.segment_table@;
        let dn = self.data.len();
        let mut j: usize = 0;
        while j < dn
            invariant
                j <= dn,
                dn == self.data@.len(),
                crc.wf(),
                crc.digest == crc32_fold(0, b8 + self.data@.subrange(0, j as int)),
            decreases dn - j,
        {
            let b = *vstd::slice::slice_index_get(self.data, j);
            crc.process_u8(b);
            proof {
                let d = self.data@;
                lemma_crc32_fold_one(crc32_fold(0, b8 + d.subrange(0, j as int)), b);
                lemma_crc32_fold_push(0, b8 + d.subrange(0, j as int), d[j as int]);
                assert((b8 + d.subrange(0, j as int)).push(d[j as int]) =~= b8 + d.subrange(
                    0,
                    j + 1,
                ));
            }
            j = j + 1;
        }
        proof {
            assert(b8 + self.data@.subrange(0, dn as int) =~= b8 + self.data@);
            assert(b8 + self.data@ =~= page_bytes(*self));
        }
        crc.digest()
    }

    /// Whether the recomputed checksum equals the one stored in the header.
    /// A query only: a page that fails it is reported, not rejected.
    pub fn verify(&self) -> (r: bool)
        requires
            self.wf(),
        ensures
            r == (crc32_of(page_bytes(*self)) == self.header.crc32),
    {
        self.calc_crc() == self.header.crc32
    }
}

} // verus!
