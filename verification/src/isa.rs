//! The emulated instruction set: opcode decoding and the arithmetic/logic
//! unit with its status-flag semantics.
//!
//! A 16-bit opcode word is classified into an instruction variant carrying
//! its operand fields. Two-operand register instructions encode the
//! destination in bits 8..4 and the source in bits 9 and 3..0; immediate
//! instructions address the upper register half (R16..R31). `Lds` and `Sts`
//! consume a second opcode word holding the data address.

use vstd::prelude::*;

verus! {

/// The status register: carry, zero, negative, two's-complement overflow,
/// sign (`n` xor `v`), half-carry, the transfer bit and interrupt-enable.
#[derive(Clone, Copy, PartialEq, Eq, Structural, Debug)]
pub struct Flags {
    pub c: bool,
    pub z: bool,
    pub n: bool,
    pub v: bool,
    pub s: bool,
    pub h: bool,
    pub t: bool,
    pub i: bool,
}

/// The reset state of the status register: every flag clear.
pub open spec fn spec_flags_cleared() -> Flags {
    Flags { c: false, z: false, n: false, v: false, s: false, h: false, t: false, i: false }
}

impl Flags {
    /// The reset state: every flag clear.
    pub fn cleared() -> (r: Flags)
        ensures
            r == spec_flags_cleared(),
    {
        Flags { c: false, z: false, n: false, v: false, s: false, h: false, t: false, i: false }
    }
}

/// One decoded instruction with its operand fields. `d` and `r` are register
/// indices, `k` an immediate or a branch/jump offset in raw encoded form,
/// `s` a status-flag index. `Illegal` stands for every opcode word outside
/// the implemented set.
#[allow(inconsistent_fields)]
#[derive(Clone, Copy, PartialEq, Eq, Structural, Debug)]
pub enum Instr {
    Nop,
    Ldi { d: u8, k: u8 },
    Mov { d: u8, r: u8 },
    Add { d: u8, r: u8 },
    Adc { d: u8, r: u8 },
    Sub { d: u8, r: u8 },
    Cp { d: u8, r: u8 },
    And { d: u8, r: u8 },
    Or { d: u8, r: u8 },
    Eor { d: u8, r: u8 },
    Cpi { d: u8, k: u8 },
    Subi { d: u8, k: u8 },
    Ori { d: u8, k: u8 },
    Andi { d: u8, k: u8 },
    Com { d: u8 },
    Neg { d: u8 },
    Inc { d: u8 },
    Dec { d: u8 },
    Lsr { d: u8 },
    Push { r: u8 },
    Pop { d: u8 },
    Lds { d: u8 },
    Sts { r: u8 },
    Rjmp { k: u16 },
    Rcall { k: u16 },
    Ret,
    Brbs { s: u8, k: u8 },
    Brbc { s: u8, k: u8 },
    Break,
    Sleep,
    Illegal,
}

/// Operand fields of a decoded instruction are in range: register indices
/// below 32 (immediate forms at or above 16), flag indices below 8, relative
/// offsets within their encoded width.
pub open spec fn instr_wf(ins: Instr) -> bool {
    match ins {
        Instr::Nop => true,
        Instr::Ldi { d, k } => 16 <= d < 32,
        Instr::Mov { d, r } => d < 32 && r < 32,
        Instr::Add { d, r } => d < 32 && r < 32,
        Instr::Adc { d, r } => d < 32 && r < 32,
        Instr::Sub { d, r } => d < 32 && r < 32,
        Instr::Cp { d, r } => d < 32 && r < 32,
        Instr::And { d, r } => d < 32 && r < 32,
        Instr::Or { d, r } => d < 32 && r < 32,
        Instr::Eor { d, r } => d < 32 && r < 32,
        Instr::Cpi { d, k } => 16 <= d < 32,
        Instr::Subi { d, k } => 16 <= d < 32,
        Instr::Ori { d, k } => 16 <= d < 32,
        Instr::Andi { d, k } => 16 <= d < 32,
        Instr::Com { d } => d < 32,
        Instr::Neg { d } => d < 32,
        Instr::Inc { d } => d < 32,
        Instr::Dec { d } => d < 32,
        Instr::Lsr { d } => d < 32,
        Instr::Push { r } => r < 32,
        Instr::Pop { d } => d < 32,
        Instr::Lds { d } => d < 32,
        Instr::Sts { r } => r < 32,
        Instr::Rjmp { k } => k < 4096,
        Instr::Rcall { k } => k < 4096,
        Instr::Ret => true,
        Instr::Brbs { s, k } => s < 8 && k < 128,
        Instr::Brbc { s, k } => s < 8 && k < 128,
        Instr::Break => true,
        Instr::Sleep => true,
        Instr::Illegal => true,
    }
}

/// The instruction encoded by opcode word `w`.
pub open spec fn spec_decode(w: u16) -> Instr {
    let d5 = ((w >> 4) & 0x1F) as u8;
    let r5 = ((w & 0x0F) | ((w >> 5) & 0x10)) as u8;
    let d4 = (16 + ((w >> 4) & 0x0F)) as u8;
    let k8 = (((w >> 4) & 0xF0) | (w & 0x0F)) as u8;
    if w == 0x0000 {
        Instr::Nop
    } else if (w & 0xFC00) == 0x0C00 {
        Instr::Add { d: d5, r: r5 }
    } else if (w & 0xFC00) == 0x1C00 {
        Instr::Adc { d: d5, r: r5 }
    } else if (w & 0xFC00) == 0x1800 {
        Instr::Sub { d: d5, r: r5 }
    } else if (w & 0xFC00) == 0x1400 {
        Instr::Cp { d: d5, r: r5 }
    } else if (w & 0xFC00) == 0x2000 {
        Instr::And { d: d5, r: r5 }
    } else if (w & 0xFC00) == 0x2400 {
        Instr::Eor { d: d5, r: r5 }
    } else if (w & 0xFC00) == 0x2800 {
        Instr::Or { d: d5, r: r5 }
    } else if (w & 0xFC00) == 0x2C00 {
        Instr::Mov { d: d5, r: r5 }
    } else if (w & 0xF000) == 0x3000 {
        Instr::Cpi { d: d4, k: k8 }
    } else if (w & 0xF000) == 0x5000 {
        Instr::Subi { d: d4, k: k8 }
    } else if (w & 0xF000) == 0x6000 {
        Instr::Ori { d: d4, k: k8 }
    } else if (w & 0xF000) == 0x7000 {
        Instr::Andi { d: d4, k: k8 }
    } else if (w & 0xF000) == 0xE000 {
        Instr::Ldi { d: d4, k: k8 }
    } else if (w & 0xF000) == 0xC000 {
        Instr::Rjmp { k: w & 0x0FFF }
    } else if (w & 0xF000) == 0xD000 {
        Instr::Rcall { k: w & 0x0FFF }
    } else if (w & 0xFE0F) == 0x9000 {
        Instr::Lds { d: d5 }
    } else if (w & 0xFE0F) == 0x9200 {
        Instr::Sts { r: d5 }
    } else if (w & 0xFE0F) == 0x900F {
        Instr::Pop { d: d5 }
    } else if (w & 0xFE0F) == 0x920F {
        Instr::Push { r: d5 }
    } else if (w & 0xFE0F) == 0x9400 {
        Instr::Com { d: d5 }
    } else if (w & 0xFE0F) == 0x9401 {
        Instr::Neg { d: d5 }
    } else if (w & 0xFE0F) == 0x9403 {
        Instr::Inc { d: d5 }
    } else if (w & 0xFE0F) == 0x940A {
        Instr::Dec { d: d5 }
    } else if (w & 0xFE0F) == 0x9406 {
        Instr::Lsr { d: d5 }
    } else if w == 0x9508 {
        Instr::Ret
    } else if w == 0x9588 {
        Instr::Sleep
    } else if w == 0x9598 {
        Instr::Break
    } else if (w & 0xFC00) == 0xF000 {
        Instr::Brbs { s: (w & 0x07) as u8, k: ((w >> 3) & 0x7F) as u8 }
    } else if (w & 0xFC00) == 0xF400 {
        Instr::Brbc { s: (w & 0x07) as u8, k: ((w >> 3) & 0x7F) as u8 }
    } else {
        Instr::Illegal
    }
}

/// Every decoded instruction has operand fields in range.
pub proof fn lemma_decode_wf(w: u16)
    ensures
        instr_wf(spec_decode(w)),
{
    assert(((w >> 4) & 0x1F) < 32) by (bit_vector);
    assert(((w & 0x0F) | ((w >> 5) & 0x10)) < 32) by (bit_vector);
    assert(((w >> 4) & 0x0F) < 16) by (bit_vector);
    assert((w & 0x0FFF) < 4096) by (bit_vector);
    assert((w & 0x07) < 8) by (bit_vector);
    assert(((w >> 3) & 0x7F) < 128) by (bit_vector);
}

/// Classify one opcode word into its instruction variant.
pub fn decode(w: u16) -> (r: Instr)
    ensures
        r == spec_decode(w),
        instr_wf(r),
{
    proof {
        lemma_decode_wf(w);
        assert(((w >> 4) & 0x0F) < 16) by (bit_vector);
    }
    let d5 = ((w >> 4) & 0x1F) as u8;
    let r5 = ((w & 0x0F) | ((w >> 5) & 0x10)) as u8;
    let d4 = (16 + ((w >> 4) & 0x0F)) as u8;
    let k8 = (((w >> 4) & 0xF0) | (w & 0x0F)) as u8;
    if w == 0x0000 {
        Instr::Nop
    } else if (w & 0xFC00) == 0x0C00 {
        Instr::Add { d: d5, r: r5 }
    } else if (w & 0xFC00) == 0x1C00 {
        Instr::Adc { d: d5, r: r5 }
    } else if (w & 0xFC00) == 0x1800 {
        Instr::Sub { d: d5, r: r5 }
    } else if (w & 0xFC00) == 0x1400 {
        Instr::Cp { d: d5, r: r5 }
    } else if (w & 0xFC00) == 0x2000 {
        Instr::And { d: d5, r: r5 }
    } else if (w & 0xFC00) == 0x2400 {
        Instr::Eor { d: d5, r: r5 }
    } else if (w & 0xFC00) == 0x2800 {
        Instr::Or { d: d5, r: r5 }
    } else if (w & 0xFC00) == 0x2C00 {
        Instr::Mov { d: d5, r: r5 }
    } else if (w & 0xF000) == 0x3000 {
        Instr::Cpi { d: d4, k: k8 }
    } else if (w & 0xF000) == 0x5000 {
        Instr::Subi { d: d4, k: k8 }
    } else if (w & 0xF000) == 0x6000 {
        Instr::Ori { d: d4, k: k8 }
    } else if (w & 0xF000) == 0x7000 {
        Instr::Andi { d: d4, k: k8 }
    } else if (w & 0xF000) == 0xE000 {
        Instr::Ldi { d: d4, k: k8 }
    } else if (w & 0xF000) == 0xC000 {
        Instr::Rjmp { k: w & 0x0FFF }
    } else if (w & 0xF000) == 0xD000 {
        Instr::Rcall { k: w & 0x0FFF }
    } else if (w & 0xFE0F) == 0x9000 {
        Instr::Lds { d: d5 }
    } else if (w & 0xFE0F) == 0x9200 {
        Instr::Sts { r: d5 }
    } else if (w & 0xFE0F) == 0x900F {
        Instr::Pop { d: d5 }
    } else if (w & 0xFE0F) == 0x920F {
        Instr::Push { r: d5 }
    } else if (w & 0xFE0F) == 0x9400 {
        Instr::Com { d: d5 }
    } else if (w & 0xFE0F) == 0x9401 {
        Instr::Neg { d: d5 }
    } else if (w & 0xFE0F) == 0x9403 {
        Instr::Inc { d: d5 }
    } else if (w & 0xFE0F) == 0x940A {
        Instr::Dec { d: d5 }
    } else if (w & 0xFE0F) == 0x9406 {
        Instr::Lsr { d: d5 }
    } else if w == 0x9508 {
        Instr::Ret
    } else if w == 0x9588 {
        Instr::Sleep
    } else if w == 0x9598 {
        Instr::Break
    } else if (w & 0xFC00) == 0xF000 {
        Instr::Brbs { s: (w & 0x07) as u8, k: ((w >> 3) & 0x7F) as u8 }
    } else if (w & 0xFC00) == 0xF400 {
        Instr::Brbc { s: (w & 0x07) as u8, k: ((w >> 3) & 0x7F) as u8 }
    } else {
        Instr::Illegal
    }
}

/// The high bit of a byte: the sign in two's complement.
pub open spec fn bit7(x: u8) -> bool {
    (x >> 7) & 1 == 1
}

/// The low bit of a byte.
pub open spec fn bit0(x: u8) -> bool {
    x & 1 == 1
}

/// Bit 3 of a byte, the half-carry position.
pub open spec fn bit3(x: u8) -> bool {
    (x >> 3) & 1 == 1
}

/// The low nibble of a byte.
pub open spec fn lo4(x: u8) -> u8 {
    x & 0x0F
}

/// Result and flags of `a + b + cin`: modular sum; carry out of bit 7;
/// half-carry out of bit 3; overflow when both operands share a sign the
/// result does not.
pub open spec fn spec_add(a: u8, b: u8, cin: bool, f: Flags) -> (u8, Flags) {
    let ci = if cin {
        1int
    } else {
        0int
    };
    let r = ((a + b + ci) % 256) as u8;
    let n = bit7(r);
    let v = bit7(a) == bit7(b) && bit7(r) != bit7(a);
    (
        r,
        Flags {
            c: a + b + ci > 255,
            z: r == 0,
            n,
            v,
            s: n != v,
            h: lo4(a) + lo4(b) + ci > 15,
            t: f.t,
            i: f.i,
        },
    )
}

/// Result and flags of `a - b - cin`: modular difference; carry when the
/// subtrahend exceeds the minuend; borrow out of bit 3 as half-carry;
/// overflow when the operands' signs differ and the result takes the
/// subtrahend's sign.
pub open spec fn spec_sub(a: u8, b: u8, cin: bool, f: Flags) -> (u8, Flags) {
    let ci = if cin {
        1int
    } else {
        0int
    };
    let r = ((256 + a - b - ci) % 256) as u8;
    let n = bit7(r);
    let v = bit7(a) != bit7(b) && bit7(r) == bit7(b);
    (
        r,
        Flags {
            c: b + ci > a,
            z: r == 0,
            n,
            v,
            s: n != v,
            h: lo4(b) + ci > lo4(a),
            t: f.t,
            i: f.i,
        },
    )
}

/// Flags after a bitwise result `r`: overflow cleared, sign tracking the
/// high bit, carry and half-carry untouched.
pub open spec fn spec_logic_flags(r: u8, f: Flags) -> Flags {
    Flags { c: f.c, z: r == 0, n: bit7(r), v: false, s: bit7(r), h: f.h, t: f.t, i: f.i }
}

/// Result and flags of one's complement: `0xFF - a`, carry set.
pub open spec fn spec_com(a: u8, f: Flags) -> (u8, Flags) {
    let r = (0xFF - a) as u8;
    let n = bit7(r);
    (r, Flags { c: true, z: r == 0, n, v: false, s: n, h: f.h, t: f.t, i: f.i })
}

/// Result and flags of two's complement: `0x00 - a` modulo 256; carry set
/// unless the result is zero; overflow exactly on `0x80`.
pub open spec fn spec_neg(a: u8, f: Flags) -> (u8, Flags) {
    let r = ((256 - a) % 256) as u8;
    let n = bit7(r);
    let v = r == 0x80;
    (
        r,
        Flags { c: r != 0, z: r == 0, n, v, s: n != v, h: bit3(r) || bit3(a), t: f.t, i: f.i },
    )
}

/// Result and flags of increment: carry and half-carry untouched, overflow
/// exactly when incrementing `0x7F`.
pub open spec fn spec_inc(a: u8, f: Flags) -> (u8, Flags) {
    let r = ((a + 1) % 256) as u8;
    let n = bit7(r);
    let v = a == 0x7F;
    (r, Flags { c: f.c, z: r == 0, n, v, s: n != v, h: f.h, t: f.t, i: f.i })
}

/// Result and flags of decrement: carry and half-carry untouched, overflow
/// exactly when decrementing `0x80`.
pub open spec fn spec_dec(a: u8, f: Flags) -> (u8, Flags) {
    let r = ((256 + a - 1) % 256) as u8;
    let n = bit7(r);
    let v = a == 0x80;
    (r, Flags { c: f.c, z: r == 0, n, v, s: n != v, h: f.h, t: f.t, i: f.i })
}

/// Result and flags of a logical right shift: bit 0 moves into carry, the
/// negative flag clears, overflow and sign follow the carry.
pub open spec fn spec_lsr(a: u8, f: Flags) -> (u8, Flags) {
    let r = a >> 1;
    let c = bit0(a);
    (r, Flags { c, z: r == 0, n: false, v: c, s: c, h: f.h, t: f.t, i: f.i })
}

/// The status flag selected by index `s`, in the architectural bit order:
/// carry, zero, negative, overflow, sign, half-carry, transfer,
/// interrupt-enable.
pub open spec fn spec_flag(f: Flags, s: u8) -> bool {
    if s == 0 {
        f.c
    } else if s == 1 {
        f.z
    } else if s == 2 {
        f.n
    } else if s == 3 {
        f.v
    } else if s == 4 {
        f.s
    } else if s == 5 {
        f.h
    } else {
        if s == 6 {
            f.t
        } else {
            f.i
        }
    }
}

/// Add with optional carry in.
pub fn alu_add(a: u8, b: u8, cin: bool, f: Flags) -> (res: (u8, Flags))
    ensures
        res == spec_add(a, b, cin, f),
{
    let ci: u16 = if cin {
        1
    } else {
        0
    };
    let sum: u16 = a as u16 + b as u16 + ci;
    let r: u8 = (sum % 256) as u8;
    let na = (a >> 7) & 1 == 1;
    let nb = (b >> 7) & 1 == 1;
    let n = (r >> 7) & 1 == 1;
    let v = na == nb && n != na;
    let hsum: u16 = (a & 0x0F) as u16 + (b & 0x0F) as u16 + ci;
    (r, Flags { c: sum > 255, z: r == 0, n, v, s: n != v, h: hsum > 15, t: f.t, i: f.i })
}

/// Subtract with optional carry (borrow) in.
pub fn alu_sub(a: u8, b: u8, cin: bool, f: Flags) -> (res: (u8, Flags))
    ensures
        res == spec_sub(a, b, cin, f),
{
    let ci: u16 = if cin {
        1
    } else {
        0
    };
    let diff: u16 = 256 + a as u16 - b as u16 - ci;
    let r: u8 = (diff % 256) as u8;
    let na = (a >> 7) & 1 == 1;
    let nb = (b >> 7) & 1 == 1;
    let n = (r >> 7) & 1 == 1;
    let v = na != nb && n == nb;
    let c = b as u16 + ci > a as u16;
    let h = (b & 0x0F) as u16 + ci > (a & 0x0F) as u16;
    (r, Flags { c, z: r == 0, n, v, s: n != v, h, t: f.t, i: f.i })
}

/// Read the status flag selected by index `s` (modulo the architectural
/// eight).
pub fn flag_bit(f: Flags, s: u8) -> (r: bool)
    ensures
        r == spec_flag(f, s),
{
    if s == 0 {
        f.c
    } else if s == 1 {
        f.z
    } else if s == 2 {
        f.n
    } else if s == 3 {
        f.v
    } else if s == 4 {
        f.s
    } else if s == 5 {
        f.h
    } else {
        if s == 6 {
            f.t
        } else {
            f.i
        }
    }
}

} // verus!
