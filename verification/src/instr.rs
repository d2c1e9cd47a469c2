//! The CHIP-8 opcode table: the bidirectional mapping between structured
//! instructions and their 16-bit binary encoding.
//!
//! This is the single source of truth shared by the assembler (which encodes)
//! and the execution engine (which decodes): both sides are specified against
//! `spec_encode` and `spec_decode`, and the round-trip lemmas below tie the
//! two directions together.

use vstd::prelude::*;
use vstd::arithmetic::div_mod::{
    lemma_div_pos_is_pos, lemma_fundamental_div_mod, lemma_fundamental_div_mod_converse,
    lemma_mod_bound, lemma_mod_breakdown,
};

verus! {

/// A decoded CHIP-8 instruction.
///
/// `x` and `y` are general-purpose register indices (one nibble each),
/// `kk` an 8-bit immediate, `n` a 4-bit immediate and `nnn` a 12-bit address.
/// Any 16-bit pattern that matches no documented encoding decodes to
/// `Unknown`, which the engine treats as a no-op.
#[derive(Clone, Copy, Debug, PartialEq, Eq, Structural)]
pub enum Instr {
    /// 00E0: clear the display.
    Cls,
    /// 00EE: return from a subroutine.
    Ret,
    /// 0nnn: jump to a machine code routine; ignored by modern interpreters.
    Sys { nnn: u16 },
    /// 1nnn: jump to `nnn`.
    Jp { nnn: u16 },
    /// 2nnn: call the subroutine at `nnn`.
    Call { nnn: u16 },
    /// 3xkk: skip the next instruction if `Vx == kk`.
    SeByte { x: u8, kk: u8 },
    /// 4xkk: skip the next instruction if `Vx != kk`.
    SneByte { x: u8, kk: u8 },
    /// 5xy0: skip the next instruction if `Vx == Vy`.
    SeReg { x: u8, y: u8 },
    /// 6xkk: set `Vx = kk`.
    LdByte { x: u8, kk: u8 },
    /// 7xkk: set `Vx = Vx + kk`, truncated to 8 bits, no carry flag.
    AddByte { x: u8, kk: u8 },
    /// 8xy0: set `Vx = Vy`.
    LdReg { x: u8, y: u8 },
    /// 8xy1: set `Vx = Vx | Vy`.
    Or { x: u8, y: u8 },
    /// 8xy2: set `Vx = Vx & Vy`.
    And { x: u8, y: u8 },
    /// 8xy3: set `Vx = Vx ^ Vy`.
    Xor { x: u8, y: u8 },
    /// 8xy4: set `Vx = Vx + Vy` truncated, `VF` = carry.
    AddReg { x: u8, y: u8 },
    /// 8xy5: set `VF` = not-borrow, then `Vx = Vx - Vy` saturated at 0.
    Sub { x: u8, y: u8 },
    /// 8xy6: set `VF` = low bit of `Vx`, then halve `Vx`.
    Shr { x: u8, y: u8 },
    /// 8xy7: set `VF` = not-borrow, then `Vx = Vy - Vx` saturated at 0.
    Subn { x: u8, y: u8 },
    /// 8xyE: set `VF` = high bit of `Vx`, then double `Vx` truncated.
    Shl { x: u8, y: u8 },
    /// 9xy0: skip the next instruction if `Vx != Vy`.
    SneReg { x: u8, y: u8 },
    /// Annn: set `I = nnn`.
    LdI { nnn: u16 },
    /// Bnnn: jump to `nnn + V0`.
    JpV0 { nnn: u16 },
    /// Cxkk: set `Vx` = random byte masked with `kk`.
    Rnd { x: u8, kk: u8 },
    /// Dxyn: draw an `n`-row sprite from memory at `I` at `(Vx, Vy)`,
    /// `VF` = collision.
    Drw { x: u8, y: u8, n: u8 },
    /// Ex9E: skip the next instruction if the key numbered `Vx` is down.
    Skp { x: u8 },
    /// ExA1: skip the next instruction if the key numbered `Vx` is up.
    Sknp { x: u8 },
    /// Fx07: set `Vx` = delay timer.
    LdFromDt { x: u8 },
    /// Fx0A: suspend execution until a key press, store the key in `Vx`.
    LdKey { x: u8 },
    /// Fx15: set delay timer = `Vx`.
    LdToDt { x: u8 },
    /// Fx18: set sound timer = `Vx`.
    LdToSt { x: u8 },
    /// Fx1E: set `I = I + Vx`, 16-bit, never masked to 12 bits.
    AddI { x: u8 },
    /// Fx29: set `I` to the font sprite address of the digit in `Vx`.
    LdFont { x: u8 },
    /// Fx33: store the decimal digits of `Vx` at `I`, `I+1`, `I+2`.
    LdBcd { x: u8 },
    /// Fx55: copy `V0..=Vx` to memory starting at `I`; `I` is unchanged.
    Store { x: u8 },
    /// Fx65: copy memory starting at `I` into `V0..=Vx`; `I` is unchanged.
    Load { x: u8 },
    /// Any bit pattern with no documented meaning; executes as a no-op.
    Unknown { op: u16 },
}

/// The instruction denoted by the 16-bit word `op`: the decoding direction
/// of the opcode table. Dispatch is on the top nibble, with the `0x0`, `0x8`,
/// `0xE` and `0xF` families dispatching further on the low byte or nibble.
pub open spec fn spec_decode(op: u16) -> Instr {
    let a = op / 0x1000;
    let x = ((op / 0x100) % 0x10) as u8;
    let y = ((op / 0x10) % 0x10) as u8;
    let n = (op % 0x10) as u8;
    let kk = (op % 0x100) as u8;
    let nnn = op % 0x1000;
    if a == 0x0 {
        if nnn == 0x0E0 {
            Instr::Cls
        } else if nnn == 0x0EE {
            Instr::Ret
        } else {
            Instr::Sys { nnn }
        }
    } else if a == 0x1 {
        Instr::Jp { nnn }
    } else if a == 0x2 {
        Instr::Call { nnn }
    } else if a == 0x3 {
        Instr::SeByte { x, kk }
    } else if a == 0x4 {
        Instr::SneByte { x, kk }
    } else if a == 0x5 {
        if n == 0x0 {
            Instr::SeReg { x, y }
        } else {
            Instr::Unknown { op }
        }
    } else if a == 0x6 {
        Instr::LdByte { x, kk }
    } else if a == 0x7 {
        Instr::AddByte { x, kk }
    } else if a == 0x8 {
        if n == 0x0 {
            Instr::LdReg { x, y }
        } else if n == 0x1 {
            Instr::Or { x, y }
        } else if n == 0x2 {
            Instr::And { x, y }
        } else if n == 0x3 {
            Instr::Xor { x, y }
        } else if n == 0x4 {
            Instr::AddReg { x, y }
        } else if n == 0x5 {
            Instr::Sub { x, y }
        } else if n == 0x6 {
            Instr::Shr { x, y }
        } else if n == 0x7 {
            Instr::Subn { x, y }
        } else if n == 0xE {
            Instr::Shl { x, y }
        } else {
            Instr::Unknown { op }
        }
    } else if a == 0x9 {
        if n == 0x0 {
            Instr::SneReg { x, y }
        } else {
            Instr::Unknown { op }
        }
    } else if a == 0xA {
        Instr::LdI { nnn }
    } else if a == 0xB {
        Instr::JpV0 { nnn }
    } else if a == 0xC {
        Instr::Rnd { x, kk }
    } else if a == 0xD {
        Instr::Drw { x, y, n }
    } else if a == 0xE {
        if kk == 0x9E {
            Instr::Skp { x }
        } else if kk == 0xA1 {
            Instr::Sknp { x }
        } else {
            Instr::Unknown { op }
        }
    } else {
        if kk == 0x07 {
            Instr::LdFromDt { x }
        } else if kk == 0x0A {
            Instr::LdKey { x }
        } else if kk == 0x15 {
            Instr::LdToDt { x }
        } else if kk == 0x18 {
            Instr::LdToSt { x }
        } else if kk == 0x1E {
            Instr::AddI { x }
        } else if kk == 0x29 {
            Instr::LdFont { x }
        } else if kk == 0x33 {
            Instr::LdBcd { x }
        } else if kk == 0x55 {
            Instr::Store { x }
        } else if kk == 0x65 {
            Instr::Load { x }
        } else {
            Instr::Unknown { op }
        }
    }
}

/// Whether every operand field of `i` fits its encoding slot. For `Sys` the
/// address must not collide with the dedicated `Cls`/`Ret` words, and an
/// `Unknown` must carry a word that really has no documented decoding;
/// with that, encoding and decoding are mutually inverse.
pub open spec fn instr_wf(i: Instr) -> bool {
    match i {
        Instr::Cls => true,
        Instr::Ret => true,
        Instr::Sys { nnn } => nnn < 0x1000 && nnn != 0x0E0 && nnn != 0x0EE,
        Instr::Jp { nnn } => nnn < 0x1000,
        Instr::Call { nnn } => nnn < 0x1000,
        Instr::SeByte { x, kk } => x < 16,
        Instr::SneByte { x, kk } => x < 16,
        Instr::SeReg { x, y } => x < 16 && y < 16,
        Instr::LdByte { x, kk } => x < 16,
        Instr::AddByte { x, kk } => x < 16,
        Instr::LdReg { x, y } => x < 16 && y < 16,
        Instr::Or { x, y } => x < 16 && y < 16,
        Instr::And { x, y } => x < 16 && y < 16,
        Instr::Xor { x, y } => x < 16 && y < 16,
        Instr::AddReg { x, y } => x < 16 && y < 16,
        Instr::Sub { x, y } => x < 16 && y < 16,
        Instr::Shr { x, y } => x < 16 && y < 16,
        Instr::Subn { x, y } => x < 16 && y < 16,
        Instr::Shl { x, y } => x < 16 && y < 16,
        Instr::SneReg { x, y } => x < 16 && y < 16,
        Instr::LdI { nnn } => nnn < 0x1000,
        Instr::JpV0 { nnn } => nnn < 0x1000,
        Instr::Rnd { x, kk } => x < 16,
        Instr::Drw { x, y, n } => x < 16 && y < 16 && n < 16,
        Instr::Skp { x } => x < 16,
        Instr::Sknp { x } => x < 16,
        Instr::LdFromDt { x } => x < 16,
        Instr::LdKey { x } => x < 16,
        Instr::LdToDt { x } => x < 16,
        Instr::LdToSt { x } => x < 16,
        Instr::AddI { x } => x < 16,
        Instr::LdFont { x } => x < 16,
        Instr::LdBcd { x } => x < 16,
        Instr::Store { x } => x < 16,
        Instr::Load { x } => x < 16,
        Instr::Unknown { op } => spec_decode(op) == Instr::Unknown { op },
    }
}

/// The 16-bit word that encodes `i`: the encoding direction of the opcode
/// table, the one the assembler produces. Stated over `int` so that it is
/// meaningful even for operand fields out of range; for a well-formed
/// instruction the value fits in 16 bits (`lemma_decode_of_encode`).
pub open spec fn spec_encode(i: Instr) -> int {
    match i {
        Instr::Cls => 0x00E0,
        Instr::Ret => 0x00EE,
        Instr::Sys { nnn } => nnn as int,
        Instr::Jp { nnn } => 0x1000 + nnn,
        Instr::Call { nnn } => 0x2000 + nnn,
        Instr::SeByte { x, kk } => 0x3000 + x * 0x100 + kk,
        Instr::SneByte { x, kk } => 0x4000 + x * 0x100 + kk,
        Instr::SeReg { x, y } => 0x5000 + x * 0x100 + y * 0x10,
        Instr::LdByte { x, kk } => 0x6000 + x * 0x100 + kk,
        Instr::AddByte { x, kk } => 0x7000 + x * 0x100 + kk,
        Instr::LdReg { x, y } => 0x8000 + x * 0x100 + y * 0x10,
        Instr::Or { x, y } => 0x8001 + x * 0x100 + y * 0x10,
        Instr::And { x, y } => 0x8002 + x * 0x100 + y * 0x10,
        Instr::Xor { x, y } => 0x8003 + x * 0x100 + y * 0x10,
        Instr::AddReg { x, y } => 0x8004 + x * 0x100 + y * 0x10,
        Instr::Sub { x, y } => 0x8005 + x * 0x100 + y * 0x10,
        Instr::Shr { x, y } => 0x8006 + x * 0x100 + y * 0x10,
        Instr::Subn { x, y } => 0x8007 + x * 0x100 + y * 0x10,
        Instr::Shl { x, y } => 0x800E + x * 0x100 + y * 0x10,
        Instr::SneReg { x, y } => 0x9000 + x * 0x100 + y * 0x10,
        Instr::LdI { nnn } => 0xA000 + nnn,
        Instr::JpV0 { nnn } => 0xB000 + nnn,
        Instr::Rnd { x, kk } => 0xC000 + x * 0x100 + kk,
        Instr::Drw { x, y, n } => 0xD000 + x * 0x100 + y * 0x10 + n,
        Instr::Skp { x } => 0xE09E + x * 0x100,
        Instr::Sknp { x } => 0xE0A1 + x * 0x100,
        Instr::LdFromDt { x } => 0xF007 + x * 0x100,
        Instr::LdKey { x } => 0xF00A + x * 0x100,
        Instr::LdToDt { x } => 0xF015 + x * 0x100,
        Instr::LdToSt { x } => 0xF018 + x * 0x100,
        Instr::AddI { x } => 0xF01E + x * 0x100,
        Instr::LdFont { x } => 0xF029 + x * 0x100,
        Instr::LdBcd { x } => 0xF033 + x * 0x100,
        Instr::Store { x } => 0xF055 + x * 0x100,
        Instr::Load { x } => 0xF065 + x * 0x100,
        Instr::Unknown { op } => op as int,
    }
}

/// How a 16-bit word splits into its four hex digits and the derived
/// operand fields.
proof fn lemma_op_digits(op: u16)
    ensures
        op / 0x1000 < 0x10,
        (op / 0x100) % 0x10 < 0x10,
        (op / 0x10) % 0x10 < 0x10,
        op % 0x10 < 0x10,
        op % 0x100 < 0x100,
        op % 0x1000 < 0x1000,
        op == (op / 0x1000) * 0x1000 + (op % 0x1000),
        op % 0x1000 == ((op / 0x100) % 0x10) * 0x100 + (op % 0x100),
        op % 0x100 == ((op / 0x10) % 0x10) * 0x10 + (op % 0x10),
{
    lemma_fundamental_div_mod(op as int, 0x1000);
    lemma_mod_bound(op as int, 0x1000);
    lemma_mod_bound(op as int, 0x100);
    lemma_mod_bound(op as int, 0x10);
    lemma_div_pos_is_pos(op as int, 0x1000);
    lemma_div_pos_is_pos(op as int, 0x100);
    lemma_div_pos_is_pos(op as int, 0x10);
    lemma_mod_bound((op as int) / 0x100, 0x10);
    lemma_mod_bound((op as int) / 0x10, 0x10);
    lemma_mod_breakdown(op as int, 0x100, 0x10);
    lemma_mod_breakdown(op as int, 0x10, 0x10);
}

/// Field extraction from a word assembled out of a top nibble and a 12-bit
/// address.
proof fn lemma_compose_nnn(a: u16, nnn: u16)
    requires
        a < 0x10,
        nnn < 0x1000,
    ensures
        (a * 0x1000 + nnn) / 0x1000 == a,
        (a * 0x1000 + nnn) % 0x1000 == nnn,
        a * 0x1000 + nnn < 0x10000,
{
    lemma_fundamental_div_mod_converse(a * 0x1000 + nnn, 0x1000, a as int, nnn as int);
}

/// Field extraction from a word assembled out of a top nibble, a register
/// nibble and an 8-bit immediate.
proof fn lemma_compose_xkk(a: u16, x: u16, kk: u16)
    requires
        a < 0x10,
        x < 0x10,
        kk < 0x100,
    ensures
        (a * 0x1000 + x * 0x100 + kk) / 0x1000 == a,
        ((a * 0x1000 + x * 0x100 + kk) / 0x100) % 0x10 == x,
        (a * 0x1000 + x * 0x100 + kk) % 0x100 == kk,
        (a * 0x1000 + x * 0x100 + kk) % 0x1000 == x * 0x100 + kk,
        a * 0x1000 + x * 0x100 + kk < 0x10000,
{
    let op = a * 0x1000 + x * 0x100 + kk;
    lemma_fundamental_div_mod_converse(op, 0x1000, a as int, x * 0x100 + kk);
    lemma_fundamental_div_mod_converse(op, 0x100, a * 0x10 + x, kk as int);
    lemma_fundamental_div_mod_converse(a * 0x10 + x, 0x10, a as int, x as int);
}

/// Field extraction from a word assembled out of a top nibble, two register
/// nibbles and a low nibble.
proof fn lemma_compose_xyn(a: u16, x: u16, y: u16, n: u16)
    requires
        a < 0x10,
        x < 0x10,
        y < 0x10,
        n < 0x10,
    ensures
        (a * 0x1000 + x * 0x100 + y * 0x10 + n) / 0x1000 == a,
        ((a * 0x1000 + x * 0x100 + y * 0x10 + n) / 0x100) % 0x10 == x,
        ((a * 0x1000 + x * 0x100 + y * 0x10 + n) / 0x10) % 0x10 == y,
        (a * 0x1000 + x * 0x100 + y * 0x10 + n) % 0x10 == n,
        (a * 0x1000 + x * 0x100 + y * 0x10 + n) % 0x100 == y * 0x10 + n,
        (a * 0x1000 + x * 0x100 + y * 0x10 + n) % 0x1000 == x * 0x100 + y * 0x10 + n,
        a * 0x1000 + x * 0x100 + y * 0x10 + n < 0x10000,
{
    let op = a * 0x1000 + x * 0x100 + y * 0x10 + n;
    lemma_fundamental_div_mod_converse(op, 0x1000, a as int, x * 0x100 + y * 0x10 + n);
    lemma_fundamental_div_mod_converse(op, 0x100, a * 0x10 + x, y * 0x10 + n);
    lemma_fundamental_div_mod_converse(a * 0x10 + x, 0x10, a as int, x as int);
    lemma_fundamental_div_mod_converse(op, 0x10, a * 0x100 + x * 0x10 + y, n as int);
    lemma_fundamental_div_mod_converse(a * 0x100 + x * 0x10 + y, 0x10, a * 0x10 + x, y as int);
}

/// Decoding is a left inverse of encoding: every 16-bit word re-encodes to
/// itself. Together with `lemma_decode_of_encode` this makes the opcode
/// table a bijection between words and well-formed instructions.
pub proof fn lemma_encode_of_decode(op: u16)
    ensures
        spec_encode(spec_decode(op)) == op,
{
    lemma_op_digits(op);
}

/// Encoding is a left inverse of decoding: a well-formed instruction
/// survives the round trip through its 16-bit encoding unchanged, and the
/// encoding fits in 16 bits.
pub proof fn lemma_decode_of_encode(i: Instr)
    requires
        instr_wf(i),
    ensures
        0 <= spec_encode(i) < 0x10000,
        spec_decode(spec_encode(i) as u16) == i,
{
    match i {
        Instr::Cls => {
            lemma_op_digits(0x00E0);
        },
        Instr::Ret => {
            lemma_op_digits(0x00EE);
        },
        Instr::Sys { nnn } => {
            lemma_compose_nnn(0x0, nnn);
        },
        Instr::Jp { nnn } => {
            lemma_compose_nnn(0x1, nnn);
        },
        Instr::Call { nnn } => {
            lemma_compose_nnn(0x2, nnn);
        },
        Instr::SeByte { x, kk } => {
            lemma_compose_xkk(0x3, x as u16, kk as u16);
        },
        Instr::SneByte { x, kk } => {
            lemma_compose_xkk(0x4, x as u16, kk as u16);
        },
        Instr::SeReg { x, y } => {
            lemma_compose_xyn(0x5, x as u16, y as u16, 0x0);
        },
        Instr::LdByte { x, kk } => {
            lemma_compose_xkk(0x6, x as u16, kk as u16);
        },
        Instr::AddByte { x, kk } => {
            lemma_compose_xkk(0x7, x as u16, kk as u16);
        },
        Instr::LdReg { x, y } => {
            lemma_compose_xyn(0x8, x as u16, y as u16, 0x0);
        },
        Instr::Or { x, y } => {
            lemma_compose_xyn(0x8, x as u16, y as u16, 0x1);
        },
        Instr::And { x, y } => {
            lemma_compose_xyn(0x8, x as u16, y as u16, 0x2);
        },
        Instr::Xor { x, y } => {
            lemma_compose_xyn(0x8, x as u16, y as u16, 0x3);
        },
        Instr::AddReg { x, y } => {
            lemma_compose_xyn(0x8, x as u16, y as u16, 0x4);
        },
        Instr::Sub { x, y } => {
            lemma_compose_xyn(0x8, x as u16, y as u16, 0x5);
        },
        Instr::Shr { x, y } => {
            lemma_compose_xyn(0x8, x as u16, y as u16, 0x6);
        },
        Instr::Subn { x, y } => {
            lemma_compose_xyn(0x8, x as u16, y as u16, 0x7);
        },
        Instr::Shl { x, y } => {
            lemma_compose_xyn(0x8, x as u16, y as u16, 0xE);
        },
        Instr::SneReg { x, y } => {
            lemma_compose_xyn(0x9, x as u16, y as u16, 0x0);
        },
        Instr::LdI { nnn } => {
            lemma_compose_nnn(0xA, nnn);
        },
        Instr::JpV0 { nnn } => {
            lemma_compose_nnn(0xB, nnn);
        },
        Instr::Rnd { x, kk } => {
            lemma_compose_xkk(0xC, x as u16, kk as u16);
        },
        Instr::Drw { x, y, n } => {
            lemma_compose_xyn(0xD, x as u16, y as u16, n as u16);
        },
        Instr::Skp { x } => {
            lemma_compose_xkk(0xE, x as u16, 0x9E);
        },
        Instr::Sknp { x } => {
            lemma_compose_xkk(0xE, x as u16, 0xA1);
        },
        Instr::LdFromDt { x } => {
            lemma_compose_xkk(0xF, x as u16, 0x07);
        },
        Instr::LdKey { x } => {
            lemma_compose_xkk(0xF, x as u16, 0x0A);
        },
        Instr::LdToDt { x } => {
            lemma_compose_xkk(0xF, x as u16, 0x15);
        },
        Instr::LdToSt { x } => {
            lemma_compose_xkk(0xF, x as u16, 0x18);
        },
        Instr::AddI { x } => {
            lemma_compose_xkk(0xF, x as u16, 0x1E);
        },
        Instr::LdFont { x } => {
            lemma_compose_xkk(0xF, x as u16, 0x29);
        },
        Instr::LdBcd { x } => {
            lemma_compose_xkk(0xF, x as u16, 0x33);
        },
        Instr::Store { x } => {
            lemma_compose_xkk(0xF, x as u16, 0x55);
        },
        Instr::Load { x } => {
            lemma_compose_xkk(0xF, x as u16, 0x65);
        },
        Instr::Unknown { op } => {
            lemma_encode_of_decode(op);
        },
    }
}

/// Decodes a 16-bit word into the instruction it denotes.
pub fn decode_instr(op: u16) -> (i: Instr)
    ensures
        i == spec_decode(op),
{
    let a = op / 0x1000;
    let x = ((op / 0x100) % 0x10) as u8;
    let y = ((op / 0x10) % 0x10) as u8;
    let n = (op % 0x10) as u8;
    let kk = (op % 0x100) as u8;
    let nnn = op % 0x1000;
    if a == 0x0 {
        if nnn == 0x0E0 {
            Instr::Cls
        } else if nnn == 0x0EE {
            Instr::Ret
        } else {
            Instr::Sys { nnn }
        }
    } else if a == 0x1 {
        Instr::Jp { nnn }
    } else if a == 0x2 {
        Instr::Call { nnn }
    } else if a == 0x3 {
        Instr::SeByte { x, kk }
    } else if a == 0x4 {
        Instr::SneByte { x, kk }
    } else if a == 0x5 {
        if n == 0x0 {
            Instr::SeReg { x, y }
        } else {
            Instr::Unknown { op }
        }
    } else if a == 0x6 {
        Instr::LdByte { x, kk }
    } else if a == 0x7 {
        Instr::AddByte { x, kk }
    } else if a == 0x8 {
        if n == 0x0 {
            Instr::LdReg { x, y }
        } else if n == 0x1 {
            Instr::Or { x, y }
        } else if n == 0x2 {
            Instr::And { x, y }
        } else if n == 0x3 {
            Instr::Xor { x, y }
        } else if n == 0x4 {
            Instr::AddReg { x, y }
        } else if n == 0x5 {
            Instr::Sub { x, y }
        } else if n == 0x6 {
            Instr::Shr { x, y }
        } else if n == 0x7 {
            Instr::Subn { x, y }
        } else if n == 0xE {
            Instr::Shl { x, y }
        } else {
            Instr::Unknown { op }
        }
    } else if a == 0x9 {
        if n == 0x0 {
            Instr::SneReg { x, y }
        } else {
            Instr::Unknown { op }
        }
    } else if a == 0xA {
        Instr::LdI { nnn }
    } else if a == 0xB {
        Instr::JpV0 { nnn }
    } else if a == 0xC {
        Instr::Rnd { x, kk }
    } else if a == 0xD {
        Instr::Drw { x, y, n }
    } else if a == 0xE {
        if kk == 0x9E {
            Instr::Skp { x }
        } else if kk == 0xA1 {
            Instr::Sknp { x }
        } else {
            Instr::Unknown { op }
        }
    } else {
        if kk == 0x07 {
            Instr::LdFromDt { x }
        } else if kk == 0x0A {
            Instr::LdKey { x }
        } else if kk == 0x15 {
            Instr::LdToDt { x }
        } else if kk == 0x18 {
            Instr::LdToSt { x }
        } else if kk == 0x1E {
            Instr::AddI { x }
        } else if kk == 0x29 {
            Instr::LdFont { x }
        } else if kk == 0x33 {
            Instr::LdBcd { x }
        } else if kk == 0x55 {
            Instr::Store { x }
        } else if kk == 0x65 {
            Instr::Load { x }
        } else {
            Instr::Unknown { op }
        }
    }
}

/// Encodes a well-formed instruction into its 16-bit word.
pub fn encode_instr(i: &Instr) -> (op: u16)
    requires
        instr_wf(*i),
    ensures
        op == spec_encode(*i),
{
    proof {
        lemma_decode_of_encode(*i);
    }
    match *i {
        Instr::Cls => 0x00E0,
        Instr::Ret => 0x00EE,
        Instr::Sys { nnn } => nnn,
        Instr::Jp { nnn } => 0x1000 + nnn,
        Instr::Call { nnn } => 0x2000 + nnn,
        Instr::SeByte { x, kk } => 0x3000 + (x as u16) * 0x100 + (kk as u16),
        Instr::SneByte { x, kk } => 0x4000 + (x as u16) * 0x100 + (kk as u16),
        Instr::SeReg { x, y } => 0x5000 + (x as u16) * 0x100 + (y as u16) * 0x10,
        Instr::LdByte { x, kk } => 0x6000 + (x as u16) * 0x100 + (kk as u16),
        Instr::AddByte { x, kk } => 0x7000 + (x as u16) * 0x100 + (kk as u16),
        Instr::LdReg { x, y } => 0x8000 + (x as u16) * 0x100 + (y as u16) * 0x10,
        Instr::Or { x, y } => 0x8001 + (x as u16) * 0x100 + (y as u16) * 0x10,
        Instr::And { x, y } => 0x8002 + (x as u16) * 0x100 + (y as u16) * 0x10,
        Instr::Xor { x, y } => 0x8003 + (x as u16) * 0x100 + (y as u16) * 0x10,
        Instr::AddReg { x, y } => 0x8004 + (x as u16) * 0x100 + (y as u16) * 0x10,
        Instr::Sub { x, y } => 0x8005 + (x as u16) * 0x100 + (y as u16) * 0x10,
        Instr::Shr { x, y } => 0x8006 + (x as u16) * 0x100 + (y as u16) * 0x10,
        Instr::Subn { x, y } => 0x8007 + (x as u16) * 0x100 + (y as u16) * 0x10,
        Instr::Shl { x, y } => 0x800E + (x as u16) * 0x100 + (y as u16) * 0x10,
        Instr::SneReg { x, y } => 0x9000 + (x as u16) * 0x100 + (y as u16) * 0x10,
        Instr::LdI { nnn } => 0xA000 + nnn,
        Instr::JpV0 { nnn } => 0xB000 + nnn,
        Instr::Rnd { x, kk } => 0xC000 + (x as u16) * 0x100 + (kk as u16),
        Instr::Drw { x, y, n } => 0xD000 + (x as u16) * 0x100 + (y as u16) * 0x10 + (n as u16),
        Instr::Skp { x } => 0xE09E + (x as u16) * 0x100,
        Instr::Sknp { x } => 0xE0A1 + (x as u16) * 0x100,
        Instr::LdFromDt { x } => 0xF007 + (x as u16) * 0x100,
        Instr::LdKey { x } => 0xF00A + (x as u16) * 0x100,
        Instr::LdToDt { x } => 0xF015 + (x as u16) * 0x100,
        Instr::LdToSt { x } => 0xF018 + (x as u16) * 0x100,
        Instr::AddI { x } => 0xF01E + (x as u16) * 0x100,
        Instr::LdFont { x } => 0xF029 + (x as u16) * 0x100,
        Instr::LdBcd { x } => 0xF033 + (x as u16) * 0x100,
        Instr::Store { x } => 0xF055 + (x as u16) * 0x100,
        Instr::Load { x } => 0xF065 + (x as u16) * 0x100,
        Instr::Unknown { op } => op,
    }
}

} // verus!
