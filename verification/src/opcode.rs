//! The opcode decoder: a 16-bit instruction word and the pure field
//! extractors that dispatch and the instruction semantics are built on.

use vstd::prelude::*;

verus! {

/// One 16-bit instruction word, formed from two consecutive program bytes
/// (big-endian: the first byte is the high byte). Decoding is pure bit
/// masking and shifting; every bit pattern decodes to some field set.
pub struct Opcode {
    lr: u16,
}

/// The 12-bit address/immediate field (bits 11-0).
pub open spec fn field_nnn(w: u16) -> u16 {
    w % 0x1000
}

/// The 8-bit immediate field (bits 7-0).
pub open spec fn field_nn(w: u16) -> u8 {
    (w % 0x100) as u8
}

/// The 4-bit immediate field (bits 3-0).
pub open spec fn field_n(w: u16) -> u8 {
    (w % 0x10) as u8
}

/// The register index operand in bits 11-8.
pub open spec fn field_x(w: u16) -> usize {
    ((w / 0x100) % 0x10) as usize
}

/// The register index operand in bits 7-4.
pub open spec fn field_y(w: u16) -> usize {
    ((w / 0x10) % 0x10) as usize
}

impl View for Opcode {
    type V = u16;

    closed spec fn view(&self) -> u16 {
        self.lr
    }
}

impl Opcode {
    /// A zeroed instruction word.
    pub fn new() -> (r: Self)
        ensures
            r@ == 0u16,
    {
        let lr: u16 = 0x0000;

        Self { lr }
    }

    /// The full 16-bit word.
    pub fn code(&self) -> (r: u16)
        ensures
            r == self@,
    {
        self.lr
    }

    /// Combines two program bytes, high byte first.
    pub fn set_from_u8(&mut self, l: u8, r: u8)
        ensures
            final(self)@ == l * 0x100 + r,
    {
        proof {
            assert(((l as u16) << 8 | (r as u16)) == l * 0x100 + r) by (bit_vector);
        }
        let l = l as u16;
        let r = r as u16;

        self.lr = (l << 8) | r;
    }

    /// Stores a whole 16-bit word.
    pub fn set_from_u16(&mut self, lr: u16)
        ensures
            final(self)@ == lr,
    {
        self.lr = lr;
    }

    /// The 12-bit address/immediate field.
    pub fn nnn(&mut self) -> (r: usize)
        ensures
            *final(self) == *old(self),
            r == field_nnn(old(self)@),
            r < 0x1000,
    {
        let w = self.lr;
        proof {
            assert(w & 0x0FFF == w % 0x1000) by (bit_vector);
        }
        (w & 0x0FFF) as usize
    }

    /// The 8-bit immediate field.
    pub fn nn(&mut self) -> (r: u8)
        ensures
            *final(self) == *old(self),
            r == field_nn(old(self)@),
    {
        let w = self.lr;
        proof {
            assert(w & 0x00FF == w % 0x100) by (bit_vector);
        }
        (w & 0x00FF) as u8
    }

    /// The 4-bit immediate field (a sprite height).
    pub fn n(&mut self) -> (r: u8)
        ensures
            *final(self) == *old(self),
            r == field_n(old(self)@),
            r < 0x10,
    {
        let w = self.lr;
        proof {
            assert(w & 0x000F == w % 0x10) by (bit_vector);
        }
        (w & 0x000F) as u8
    }

    /// The register index operand in bits 11-8.
    pub fn x(&mut self) -> (r: usize)
        ensures
            *final(self) == *old(self),
            r == field_x(old(self)@),
            r < 0x10,
    {
        let w = self.lr;
        proof {
            assert((w & 0x0F00) >> 8 == (w / 0x100) % 0x10) by (bit_vector);
        }
        ((w & 0x0F00) >> 8) as usize
    }

    /// The register index operand in bits 7-4.
    pub fn y(&mut self) -> (r: usize)
        ensures
            *final(self) == *old(self),
            r == field_y(old(self)@),
            r < 0x10,
    {
        let w = self.lr;
        proof {
            assert((w & 0x00F0) >> 4 == (w / 0x10) % 0x10) by (bit_vector);
        }
        ((w & 0x00F0) >> 4) as usize
    }
}

} // verus!
