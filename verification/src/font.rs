//! The built-in font: sixteen fixed 5-byte glyph bitmaps, one per
//! hexadecimal digit, held in the reserved low region of memory. The glyph
//! for digit `d` starts at address `d * 5`; each glyph is five rows of one
//! byte (8 pixels wide).

use vstd::prelude::*;

verus! {

/// The 80 font bytes, glyph for digit 0 first.
pub open spec fn font_seq() -> Seq<u8> {
    seq![
        // glyph for digit 0
        0xF0u8, 0x90u8, 0x90u8, 0x90u8, 0xF0u8,
        // glyph for digit 1
        0x20u8, 0x60u8, 0x20u8, 0x20u8, 0x70u8,
        // glyph for digit 2
        0xF0u8, 0x10u8, 0xF0u8, 0x80u8, 0xF0u8,
        // glyph for digit 3
        0xF0u8, 0x10u8, 0xF0u8, 0x10u8, 0xF0u8,
        // glyph for digit 4
        0x90u8, 0x90u8, 0xF0u8, 0x10u8, 0x10u8,
        // glyph for digit 5
        0xF0u8, 0x80u8, 0xF0u8, 0x10u8, 0xF0u8,
        // glyph for digit 6
        0xF0u8, 0x80u8, 0xF0u8, 0x90u8, 0xF0u8,
        // glyph for digit 7
        0xF0u8, 0x10u8, 0x20u8, 0x40u8, 0x40u8,
        // glyph for digit 8
        0xF0u8, 0x90u8, 0xF0u8, 0x90u8, 0xF0u8,
        // glyph for digit 9
        0xF0u8, 0x90u8, 0xF0u8, 0x10u8, 0xF0u8,
        // glyph for digit A
        0xF0u8, 0x90u8, 0xF0u8, 0x90u8, 0x90u8,
        // glyph for digit B
        0xE0u8, 0x90u8, 0xE0u8, 0x90u8, 0xE0u8,
        // glyph for digit C
        0xF0u8, 0x80u8, 0x80u8, 0x80u8, 0xF0u8,
        // glyph for digit D
        0xE0u8, 0x90u8, 0x90u8, 0x90u8, 0xE0u8,
        // glyph for digit E
        0xF0u8, 0x80u8, 0xF0u8, 0x80u8, 0xF0u8,
        // glyph for digit F
        0xF0u8, 0x80u8, 0xF0u8, 0x80u8, 0x80u8,
    ]
}

/// Builds the font image as a byte vector.
pub fn font_bytes() -> (r: Vec<u8>)
    ensures
        r@ == font_seq(),
{
    let mut f: Vec<u8> = Vec::new();
    // glyph for digit 0
    f.push(0xF0u8);
    f.push(0x90u8);
    f.push(0x90u8);
    f.push(0x90u8);
    f.push(0xF0u8);
    // glyph for digit 1
    f.push(0x20u8);
    f.push(0x60u8);
    f.push(0x20u8);
    f.push(0x20u8);
    f.push(0x70u8);
    // glyph for digit 2
    f.push(0xF0u8);
    f.push(0x10u8);
    f.push(0xF0u8);
    f.push(0x80u8);
    f.push(0xF0u8);
    // glyph for digit 3
    f.push(0xF0u8);
    f.push(0x10u8);
    f.push(0xF0u8);
    f.push(0x10u8);
    f.push(0xF0u8);
    // glyph for digit 4
    f.push(0x90u8);
    f.push(0x90u8);
    f.push(0xF0u8);
    f.push(0x10u8);
    f.push(0x10u8);
    // glyph for digit 5
    f.push(0xF0u8);
    f.push(0x80u8);
    f.push(0xF0u8);
    f.push(0x10u8);
    f.push(0xF0u8);
    // glyph for digit 6
    f.push(0xF0u8);
    f.push(0x80u8);
    f.push(0xF0u8);
    f.push(0x90u8);
    f.push(0xF0u8);
    // glyph for digit 7
    f.push(0xF0u8);
    f.push(0x10u8);
    f.push(0x20u8);
    f.push(0x40u8);
    f.push(0x40u8);
    // glyph for digit 8
    f.push(0xF0u8);
    f.push(0x90u8);
    f.push(0xF0u8);
    f.push(0x90u8);
    f.push(0xF0u8);
    // glyph for digit 9
    f.push(0xF0u8);
    f.push(0x90u8);
    f.push(0xF0u8);
    f.push(0x10u8);
    f.push(0xF0u8);
    // glyph for digit A
    f.push(0xF0u8);
    f.push(0x90u8);
    f.push(0xF0u8);
    f.push(0x90u8);
    f.push(0x90u8);
    // glyph for digit B
    f.push(0xE0u8);
    f.push(0x90u8);
    f.push(0xE0u8);
    f.push(0x90u8);
    f.push(0xE0u8);
    // glyph for digit C
    f.push(0xF0u8);
    f.push(0x80u8);
    f.push(0x80u8);
    f.push(0x80u8);
    f.push(0xF0u8);
    // glyph for digit D
    f.push(0xE0u8);
    f.push(0x90u8);
    f.push(0x90u8);
    f.push(0x90u8);
    f.push(0xE0u8);
    // glyph for digit E
    f.push(0xF0u8);
    f.push(0x80u8);
    f.push(0xF0u8);
    f.push(0x80u8);
    f.push(0xF0u8);
    // glyph for digit F
    f.push(0xF0u8);
    f.push(0x80u8);
    f.push(0xF0u8);
    f.push(0x80u8);
    f.push(0x80u8);
    proof {
        assert(f@ =~= font_seq());
    }
    f
}

/// Writes the font image over the first 80 bytes of memory, leaving the rest
/// as it was.
pub fn load_font(memory: &mut Vec<u8>)
    requires
        old(memory)@.len() == 4096,
    ensures
        final(memory)@ == Seq::new(
            4096,
            |j: int| if j < 80 { font_seq()[j] } else { old(memory)@[j] },
        ),
{
    let font = font_bytes();
    let mut k: usize = 0;
    while k < 80
        invariant
            memory@.len() == 4096,
            k <= 80,
            font@ == font_seq(),
            forall|j: int| 0 <= j < k ==> memory@[j] == font_seq()[j],
            forall|j: int| k <= j < 4096 ==> memory@[j] == old(memory)@[j],
        decreases 80 - k,
    {
        memory[k] = font[k];
        k = k + 1;
    }
    proof {
        assert(memory@ =~= Seq::new(
            4096,
            |j: int| if j < 80 { font_seq()[j] } else { old(memory)@[j] },
        ));
    }
}

} // verus!
