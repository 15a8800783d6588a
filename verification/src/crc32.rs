//! The checksum engine: a 32-bit checksum over a byte sequence, driven by a
//! 256-entry lookup table precomputed from the container format's own
//! generator polynomial (not the polynomial of the ubiquitous reflected
//! CRC-32, whose table would silently produce checksums that never match a
//! valid page).

use vstd::prelude::*;

verus! {

/// Generator polynomial of the page checksum.
pub const CRC_POLYNOMIAL: u32 = 0x04C1_1DB7;

/// One step of the table-entry recurrence: shift left and fold the
/// polynomial in when the shifted-out bit was set.
pub open spec fn crc_entry_step(r: u32) -> u32 {
    if r & 0x8000_0000 != 0 {
        (r << 1) ^ CRC_POLYNOMIAL
    } else {
        r << 1
    }
}

/// The entry recurrence iterated `n` times from `r`.
pub open spec fn crc_entry_iter(r: u32, n: nat) -> u32
    decreases n,
{
    if n == 0 {
        r
    } else {
        crc_entry_step(crc_entry_iter(r, (n - 1) as nat))
    }
}

/// The lookup-table entry for index `i`: the entry recurrence applied eight
/// times to the index placed in the top byte.
pub open spec fn crc_table_entry(i: u8) -> u32 {
    crc_entry_iter((i as u32) << 24, 8)
}

/// One byte folded into the accumulator:
/// `table[(acc ^ byte) & 0xFF] ^ (acc >> 8)`.
pub open spec fn crc32_step(acc: u32, b: u8) -> u32 {
    crc_table_entry(((acc ^ (b as u32)) & 0xFF) as u8) ^ (acc >> 8)
}

/// A whole byte sequence folded into the accumulator, first byte first.
pub open spec fn crc32_fold(acc: u32, s: Seq<u8>) -> u32
    decreases s.len(),
{
    if s.len() == 0 {
        acc
    } else {
        crc32_fold(crc32_step(acc, s[0]), s.drop_first())
    }
}

/// The checksum of a byte sequence, starting from the zero accumulator.
pub open spec fn crc32_of(s: Seq<u8>) -> u32 {
    crc32_fold(0, s)
}

/// The bytes of a `u16` in little-endian order.
pub open spec fn le16_bytes(v: u16) -> Seq<u8> {
    seq![v as u8, (v >> 8) as u8]
}

/// The bytes of a `u32` in little-endian order.
pub open spec fn le32_bytes(v: u32) -> Seq<u8> {
    seq![v as u8, (v >> 8) as u8, (v >> 16) as u8, (v >> 24) as u8]
}

/// The bytes of a `u64` in little-endian order.
pub open spec fn le64_bytes(v: u64) -> Seq<u8> {
    seq![
        v as u8,
        (v >> 8) as u8,
        (v >> 16) as u8,
        (v >> 24) as u8,
        (v >> 32) as u8,
        (v >> 40) as u8,
        (v >> 48) as u8,
        (v >> 56) as u8,
    ]
}

/// Folding a single byte is one accumulator step.
pub proof fn lemma_crc32_fold_one(acc: u32, b: u8)
    ensures
        crc32_fold(acc, seq![b]) == crc32_step(acc, b),
{
    let s = seq![b];
    assert(s[0] == b);
    assert(s.drop_first() =~= Seq::<u8>::empty());
    assert(crc32_fold(crc32_step(acc, b), Seq::<u8>::empty()) == crc32_step(acc, b));
}

/// Folding a concatenation folds the left part, then the right part.
pub proof fn lemma_crc32_fold_concat(acc: u32, x: Seq<u8>, y: Seq<u8>)
    ensures
        crc32_fold(acc, x + y) == crc32_fold(crc32_fold(acc, x), y),
    decreases x.len(),
{
    if x.len() == 0 {
        assert(x + y =~= y);
    } else {
        assert((x + y)[0] == x[0]);
        assert((x + y).drop_first() =~= x.drop_first() + y);
        lemma_crc32_fold_concat(crc32_step(acc, x[0]), x.drop_first(), y);
    }
}

/// Extending the folded sequence by one byte steps the accumulator once.
pub proof fn lemma_crc32_fold_push(acc: u32, x: Seq<u8>, b: u8)
    ensures
        crc32_fold(acc, x.push(b)) == crc32_step(crc32_fold(acc, x), b),
{
    assert(x.push(b) =~= x + seq![b]);
    lemma_crc32_fold_concat(acc, x, seq![b]);
    lemma_crc32_fold_one(crc32_fold(acc, x), b);
}

/// The incremental checksum accumulator.
pub struct Crc32 {
    /// The 256-entry lookup table, filled once by `new`.
    pub table: Vec<u32>,
    /// The accumulator: the checksum of the bytes fed so far.
    pub digest: u32,
}

impl Crc32 {
    /// The lookup table holds exactly the 256 precomputed entries.
    pub open spec fn wf(&self) -> bool {
        &&& self.table@.len() == 256
        &&& forall|i: int| 0 <= i < 256 ==> self.table@[i] == crc_table_entry(i as u8)
    }

    /// A fresh accumulator: the checksum of the empty sequence is 0.
    pub fn new() -> (r: Crc32)
        ensures
            r.wf(),
            r.digest == 0,
    {
        let mut table: Vec<u32> = Vec::new();
        let mut i: usize = 0;
        while i < 256
            invariant
                i <= 256,
                table@.len() == i,
                forall|k: int| 0 <= k < i ==> table@[k] == crc_table_entry(k as u8),
            decreases 256 - i,
        {
            let idx: u8 = i as u8;
            let mut r: u32 = (idx as u32) << 24;
            let mut k: usize = 0;
            while k < 8
                invariant
                    k <= 8,
                    r == crc_entry_iter((idx as u32) << 24, k as nat),
                decreases 8 - k,
            {
                if r & 0x8000_0000 != 0 {
                    r = (r << 1) ^ CRC_POLYNOMIAL;
                } else {
                    r = r << 1;
                }
                k = k + 1;
            }
            table.push(r);
            i = i + 1;
        }
        Crc32 { table, digest: 0 }
    }

    /// Feed one byte through the table-driven accumulator update.
    pub fn process_byte(&mut self, b: u8)
        requires
            old(self).wf(),
        ensures
            final(self).wf(),
            final(self).digest == crc32_step(old(self).digest, b),
    {
        let masked: u32 = (self.digest ^ (b as u32)) & 0xFF;
        proof {
            let d = self.digest;
            assert((d ^ (b as u32)) & 0xFF < 256) by (bit_vector);
            assert(((d ^ (b as u32)) & 0xFF) as usize as u8 == ((d ^ (b as u32)) & 0xFF) as u8)
                by (bit_vector);
        }
        let entry: u32 = self.table[masked as usize];
        self.digest = entry ^ (self.digest >> 8);
    }

    /// Feed one byte; the value's only byte is the value itself.
    pub fn process_u8(&mut self, v: u8)
        requires
            old(self).wf(),
        ensures
            final(self).wf(),
            final(self).digest == crc32_fold(old(self).digest, seq![v]),
    {
        proof {
            lemma_crc32_fold_one(self.digest, v);
        }
        self.process_byte(v);
    }

    /// Feed the two bytes of `v` in little-endian order.
    pub fn process_u16(&mut self, v: u16)
        requires
            old(self).wf(),
        ensures
            final(self).wf(),
            final(self).digest == crc32_fold(old(self).digest, le16_bytes(v)),
    {
        let ghost d0 = self.digest;
        self.process_byte(v as u8);
        self.process_byte((v >> 8) as u8);
        proof {
            lemma_crc32_fold_one(d0, v as u8);
            lemma_crc32_fold_push(d0, seq![v as u8], (v >> 8) as u8);
            assert(seq![v as u8].push((v >> 8) as u8) =~= le16_bytes(v));
        }
    }

    /// Feed the four bytes of `v` in little-endian order.
    pub fn process_u32(&mut self, v: u32)
        requires
            old(self).wf(),
        ensures
            final(self).wf(),
            final(self).digest == crc32_fold(old(self).digest, le32_bytes(v)),
    {
        let ghost d0 = self.digest;
        self.process_u16(v as u16);
        self.process_u16((v >> 16) as u16);
        proof {
            lemma_crc32_fold_concat(d0, le16_bytes(v as u16), le16_bytes((v >> 16) as u16));
            assert(v as u16 as u8 == v as u8) by (bit_vector);
            assert((v as u16 >> 8) as u8 == (v >> 8) as u8) by (bit_vector);
            assert((v >> 16) as u16 as u8 == (v >> 16) as u8) by (bit_vector);
            assert(((v >> 16) as u16 >> 8) as u8 == (v >> 24) as u8) by (bit_vector);
            assert(le16_bytes(v as u16) + le16_bytes((v >> 16) as u16) =~= le32_bytes(v));
        }
    }

    /// Feed the eight bytes of `v` in little-endian order.
    pub fn process_u64(&mut self, v: u64)
        requires
            old(self).wf(),
        ensures
            final(self).wf(),
            final(self).digest == crc32_fold(old(self).digest, le64_bytes(v)),
    {
        let ghost d0 = self.digest;
        self.process_u32(v as u32);
        self.process_u32((v >> 32) as u32);
        proof {
            lemma_crc32_fold_concat(d0, le32_bytes(v as u32), le32_bytes((v >> 32) as u32));
            assert(v as u32 as u8 == v as u8) by (bit_vector);
            assert((v as u32 >> 8) as u8 == (v >> 8) as u8) by (bit_vector);
            assert((v as u32 >> 16) as u8 == (v >> 16) as u8) by (bit_vector);
            assert((v as u32 >> 24) as u8 == (v >> 24) as u8) by (bit_vector);
            assert((v >> 32) as u32 as u8 == (v >> 32) as u8) by (bit_vector);
            assert(((v >> 32) as u32 >> 8) as u8 == (v >> 40) as u8) by (bit_vector);
            assert(((v >> 32) as u32 >> 16) as u8 == (v >> 48) as u8) by (bit_vector);
            assert(((v >> 32) as u32 >> 24) as u8 == (v >> 56) as u8) by (bit_vector);
            assert(le32_bytes(v as u32) + le32_bytes((v >> 32) as u32) =~= le64_bytes(v));
        }
    }

    /// Read the accumulator without changing it.
    pub fn digest(&self) -> (r: u32)
        ensures
            r == self.digest,
    {
        self.digest
    }
}

} // verus!
