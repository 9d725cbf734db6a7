//! Hardware interrupt lines remapped behind the legacy PIC offset.
use vstd::prelude::*;

verus! {

pub const PIC_1_OFFSET: u8 = 32;
pub const PIC_2_OFFSET: u8 = PIC_1_OFFSET + 8;

/// Interrupt vectors of the devices served, numbered upwards from `PIC_1_OFFSET`.
#[derive(Debug, Clone, Copy, PartialEq, Eq, Structural)]
pub enum InterruptIndex {
    LegacyTimer,
    Keyboard,
    Secondary,
    Serial2,
    Serial1,
}

impl InterruptIndex {
    /// Position of the line on the first PIC.
    pub open spec fn line(self) -> nat {
        match self {
            InterruptIndex::LegacyTimer => 0,
            InterruptIndex::Keyboard => 1,
            InterruptIndex::Secondary => 2,
            InterruptIndex::Serial2 => 3,
            InterruptIndex::Serial1 => 4,
        }
    }

    pub fn as_u8(self) -> (r: u8)
        ensures
            r == PIC_1_OFFSET + self.line(),
    {
        match self {
            InterruptIndex::LegacyTimer => PIC_1_OFFSET,
            InterruptIndex::Keyboard => PIC_1_OFFSET + 1,
            InterruptIndex::Secondary => PIC_1_OFFSET + 2,
            InterruptIndex::Serial2 => PIC_1_OFFSET + 3,
            InterruptIndex::Serial1 => PIC_1_OFFSET + 4,
        }
    }

    pub fn as_usize(self) -> (r: usize)
        ensures
            r == PIC_1_OFFSET + self.line(),
    {
        self.as_u8() as usize
    }

    /// The bit of the line in a PIC mask.
    pub open spec fn line_bit(self) -> nat {
        match self {
            InterruptIndex::LegacyTimer => 1,
            InterruptIndex::Keyboard => 2,
            InterruptIndex::Secondary => 4,
            InterruptIndex::Serial2 => 8,
            InterruptIndex::Serial1 => 16,
        }
    }

    /// The PIC mask that enables this line alone: every bit set but the line's.
    pub fn as_pic_enable_mask(self) -> (r: u8)
        ensures
            r == 0xff - self.line_bit(),
    {
        let diff: usize = self.as_usize() - InterruptIndex::LegacyTimer.as_usize();
        let d: u8 = diff as u8;
        let bit: u8 = 1u8 << d;
        let r: u8 = 0xffu8 & !bit;
        assert(r == 0xffu8 - bit) by (bit_vector)
            requires
                r == 0xffu8 & !bit,
        ;
        assert(d == 0 ==> bit == 1) by (bit_vector)
            requires
                bit == 1u8 << d,
        ;
        assert(d == 1 ==> bit == 2) by (bit_vector)
            requires
                bit == 1u8 << d,
        ;
        assert(d == 2 ==> bit == 4) by (bit_vector)
            requires
                bit == 1u8 << d,
        ;
        assert(d == 3 ==> bit == 8) by (bit_vector)
            requires
                bit == 1u8 << d,
        ;
        assert(d == 4 ==> bit == 16) by (bit_vector)
            requires
                bit == 1u8 << d,
        ;
        r
    }
}

} // verus!
