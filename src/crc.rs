//! CRC-32 (reversed polynomial 0xEDB88320) as used by PNG chunks.
use vstd::prelude::*;

verus! {

pub const CRC_POLYNOMIAL: u32 = 0xedb88320;

/// One shift of the bitwise CRC-32 register.
pub open spec fn crc_shift(c: u32) -> u32 {
    if c & 1 == 1 {
        CRC_POLYNOMIAL ^ (c >> 1)
    } else {
        c >> 1
    }
}

/// `k` shifts of the register, starting from `c`.
pub open spec fn crc_shifts(c: u32, k: nat) -> u32
    decreases k,
{
    if k == 0 {
        c
    } else {
        crc_shifts(crc_shift(c), (k - 1) as nat)
    }
}

/// Entry `n` of the 256-entry lookup table.
pub open spec fn crc_table_entry(n: u32) -> u32 {
    crc_shifts(n, 8)
}

/// The register after feeding `bytes`, seeded with all ones, before the final inversion.
pub open spec fn crc_register(bytes: Seq<u8>) -> u32
    decreases bytes.len(),
{
    if bytes.len() == 0 {
        0xffffffffu32
    } else {
        let c = crc_register(bytes.drop_last());
        crc_table_entry((c & 0xff) ^ (bytes.last() as u32)) ^ (c >> 8)
    }
}

/// CRC-32 of a byte sequence.
pub open spec fn crc_of(bytes: Seq<u8>) -> u32 {
    crc_register(bytes) ^ 0xffffffffu32
}

/// The precomputed lookup table, built once and passed to whoever needs it.
pub struct CrcTable {
    entries: Vec<u32>,
}

impl CrcTable {
    pub closed spec fn wf(&self) -> bool {
        &&& self.entries@.len() == 256
        &&& forall|n: int| 0 <= n < 256 ==> self.entries@[n] == crc_table_entry(n as u32)
    }

    pub fn new() -> (t: CrcTable)
        ensures
            t.wf(),
    {
        let mut entries: Vec<u32> = Vec::with_capacity(256);
        let mut n: u32 = 0;
        while n < 256
            invariant
                n <= 256,
                entries@.len() == n,
                forall|i: int| 0 <= i < n ==> entries@[i] == crc_table_entry(i as u32),
            decreases 256 - n,
        {
            let mut c: u32 = n;
            let mut k: u32 = 0;
            while k < 8
                invariant
                    k <= 8,
                    crc_shifts(c, (8 - k) as nat) == crc_table_entry(n),
                decreases 8 - k,
            {
                assert(crc_shifts(c, (8 - k) as nat) == crc_shifts(crc_shift(c), (8 - k - 1) as nat));
                if c & 1 == 1 {
                    c = CRC_POLYNOMIAL ^ (c >> 1);
                } else {
                    c = c >> 1;
                }
                k = k + 1;
            }
            entries.push(c);
            n = n + 1;
        }
        CrcTable { entries }
    }

    /// CRC-32 of `bytes`.
    pub fn compute_crc(&self, bytes: &[u8]) -> (r: u32)
        requires
            self.wf(),
        ensures
            r == crc_of(bytes@),
    {
        let mut crc: u32 = 0xffffffffu32;
        let mut i: usize = 0;
        while i < bytes.len()
            invariant
                self.wf(),
                i <= bytes@.len(),
                crc == crc_register(bytes@.subrange(0, i as int)),
            decreases bytes@.len() - i,
        {
            let b = bytes[i];
            let idx: u32 = (crc & 0xff) ^ (b as u32);
            assert(idx < 256) by (bit_vector)
                requires
                    idx == (crc & 0xff) ^ (b as u32),
                    b < 256,
            ;
            let ghost prev = bytes@.subrange(0, i as int);
            assert(bytes@.subrange(0, i + 1).drop_last() == prev);
            crc = self.entries[idx as usize] ^ (crc >> 8);
            i = i + 1;
        }
        assert(bytes@.subrange(0, i as int) == bytes@);
        crc ^ 0xffffffffu32
    }
}

} // verus!
