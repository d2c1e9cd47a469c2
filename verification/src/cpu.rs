//! The execution engine: one fetch-decode-execute cycle per call, plus the
//! per-frame driver that budgets eight cycles between timer ticks.
//!
//! `spec_step` is the full mathematical transition relation of the machine:
//! `step_with` is proved to implement it exactly, for every opcode, and
//! `step` draws the random byte that the `RND` opcode consumes.

use vstd::prelude::*;

use crate::instr::{decode_instr, spec_decode, Instr};
use crate::machine::{state_wf, Machine, MachineState};

verus! {

/// A fatal execution condition: the program violated an engine invariant.
/// Emulation must stop; nothing is silently clamped or wrapped.
#[derive(Clone, Copy, Debug, PartialEq, Eq, Structural)]
pub enum ExecError {
    /// A call was made with 15 return addresses already pushed.
    StackOverflow,
    /// A return was executed with nothing on the stack.
    StackUnderflow,
    /// A computed memory address fell outside the 4096 cells.
    MemoryOutOfRange,
    /// A key-skip opcode consulted a register holding a value above 0xF.
    KeyOutOfRange,
}

/// `a - b` saturated at zero.
pub open spec fn spec_sat_sub(a: u8, b: u8) -> u8 {
    if a >= b {
        (a - b) as u8
    } else {
        0
    }
}

/// The not-borrow flag of a subtraction: 1 exactly when `a > b`. Equal
/// operands yield 0.
pub open spec fn spec_sub_flag(a: u8, b: u8) -> u8 {
    if a > b {
        1
    } else {
        0
    }
}

/// Bit `col` of a sprite row byte, counting from the most significant bit:
/// column 0 is the leftmost pixel.
pub open spec fn spec_sprite_bit(b: u8, col: int) -> u8 {
    if col == 0 {
        ((b / 128) % 2) as u8
    } else if col == 1 {
        ((b / 64) % 2) as u8
    } else if col == 2 {
        ((b / 32) % 2) as u8
    } else if col == 3 {
        ((b / 16) % 2) as u8
    } else if col == 4 {
        ((b / 8) % 2) as u8
    } else if col == 5 {
        ((b / 4) % 2) as u8
    } else if col == 6 {
        ((b / 2) % 2) as u8
    } else {
        (b % 2) as u8
    }
}

/// The display column hit by sprite column `col` drawn at `x0`: wraps
/// around the 64-pixel width rather than clipping.
pub open spec fn spec_px_col(x0: u8, col: int) -> int {
    ((x0 % 64) + col) % 64
}

/// The display row hit by sprite row `row` drawn at `y0`: wraps around the
/// 32-pixel height rather than clipping.
pub open spec fn spec_px_row(y0: u8, row: int) -> int {
    ((y0 % 32) + row) % 32
}

/// The display and collision flag after XOR-compositing the leftmost
/// `cols` pixels of one sprite row byte onto display row `py`.
pub open spec fn spec_draw_row(display: Seq<u8>, sprite: u8, x0: u8, py: int, cols: nat) -> (
    Seq<u8>,
    bool,
)
    decreases cols,
{
    if cols == 0 {
        (display, false)
    } else {
        let prev = spec_draw_row(display, sprite, x0, py, (cols - 1) as nat);
        let col = cols - 1;
        let bit = spec_sprite_bit(sprite, col);
        let idx = py * 64 + spec_px_col(x0, col);
        let oldpx = prev.0[idx];
        let newpx: u8 = if oldpx == bit {
            0
        } else {
            1
        };
        (prev.0.update(idx, newpx), prev.1 || (oldpx == 1 && bit == 1))
    }
}

/// The display and collision flag after drawing the first `rows` rows of
/// an 8-pixel-wide sprite read from memory at `i`, at start coordinates
/// `(x0, y0)`.
pub open spec fn spec_draw(
    display: Seq<u8>,
    memory: Seq<u8>,
    i: u16,
    x0: u8,
    y0: u8,
    rows: nat,
) -> (Seq<u8>, bool)
    decreases rows,
{
    if rows == 0 {
        (display, false)
    } else {
        let prev = spec_draw(display, memory, i, x0, y0, (rows - 1) as nat);
        let row = rows - 1;
        let py = spec_px_row(y0, row);
        let r = spec_draw_row(prev.0, memory[i as int + row], x0, py, 8);
        (r.0, prev.1 || r.1)
    }
}

/// The machine after executing instruction `i` from state `s`, where `s`
/// already has the program counter advanced past the instruction. `rnd` is
/// the random byte consumed by `Rnd` and ignored by every other
/// instruction. Returns the fatal error for stack misuse and out-of-range
/// addresses.
pub open spec fn spec_exec_instr(s: MachineState, i: Instr, rnd: u8) -> Result<
    MachineState,
    ExecError,
> {
    match i {
        Instr::Cls => Ok(MachineState { needs_clear: true, ..s }),
        Instr::Ret => {
            if s.sp == 0 {
                Err(ExecError::StackUnderflow)
            } else {
                Ok(MachineState { pc: s.stack[s.sp as int], sp: (s.sp - 1) as u16, ..s })
            }
        },
        Instr::Sys { nnn } => Ok(s),
        Instr::Jp { nnn } => Ok(MachineState { pc: nnn, ..s }),
        Instr::Call { nnn } => {
            if s.sp >= 15 {
                Err(ExecError::StackOverflow)
            } else {
                Ok(
                    MachineState {
                        sp: (s.sp + 1) as u16,
                        stack: s.stack.update(s.sp as int + 1, s.pc),
                        pc: nnn,
                        ..s
                    },
                )
            }
        },
        Instr::SeByte { x, kk } => {
            if s.registers[x as int] == kk {
                Ok(MachineState { pc: (s.pc + 2) as u16, ..s })
            } else {
                Ok(s)
            }
        },
        Instr::SneByte { x, kk } => {
            if s.registers[x as int] != kk {
                Ok(MachineState { pc: (s.pc + 2) as u16, ..s })
            } else {
                Ok(s)
            }
        },
        Instr::SeReg { x, y } => {
            if s.registers[x as int] == s.registers[y as int] {
                Ok(MachineState { pc: (s.pc + 2) as u16, ..s })
            } else {
                Ok(s)
            }
        },
        Instr::LdByte { x, kk } => Ok(
            MachineState { registers: s.registers.update(x as int, kk), ..s },
        ),
        Instr::AddByte { x, kk } => Ok(
            MachineState {
                registers: s.registers.update(
                    x as int,
                    ((s.registers[x as int] + kk) % 256) as u8,
                ),
                ..s
            },
        ),
        Instr::LdReg { x, y } => Ok(
            MachineState { registers: s.registers.update(x as int, s.registers[y as int]), ..s },
        ),
        Instr::Or { x, y } => Ok(
            MachineState {
                registers: s.registers.update(
                    x as int,
                    s.registers[x as int] | s.registers[y as int],
                ),
                ..s
            },
        ),
        Instr::And { x, y } => Ok(
            MachineState {
                registers: s.registers.update(
                    x as int,
                    s.registers[x as int] & s.registers[y as int],
                ),
                ..s
            },
        ),
        Instr::Xor { x, y } => Ok(
            MachineState {
                registers: s.registers.update(
                    x as int,
                    s.registers[x as int] ^ s.registers[y as int],
                ),
                ..s
            },
        ),
        Instr::AddReg { x, y } => {
            let sum = s.registers[x as int] + s.registers[y as int];
            let r1 = s.registers.update(x as int, (sum % 256) as u8);
            let r2 = r1.update(
                15,
                if sum > 255 {
                    1u8
                } else {
                    0u8
                },
            );
            Ok(MachineState { registers: r2, ..s })
        },
        Instr::Sub { x, y } => {
            let f = spec_sub_flag(s.registers[x as int], s.registers[y as int]);
            let r1 = s.registers.update(15, f);
            let r2 = r1.update(x as int, spec_sat_sub(r1[x as int], r1[y as int]));
            Ok(MachineState { registers: r2, ..s })
        },
        Instr::Shr { x, y } => {
            let f = (s.registers[x as int] % 2) as u8;
            let r1 = s.registers.update(15, f);
            let r2 = r1.update(x as int, (r1[x as int] / 2) as u8);
            Ok(MachineState { registers: r2, ..s })
        },
        Instr::Subn { x, y } => {
            let f = spec_sub_flag(s.registers[y as int], s.registers[x as int]);
            let r1 = s.registers.update(15, f);
            let r2 = r1.update(x as int, spec_sat_sub(r1[y as int], r1[x as int]));
            Ok(MachineState { registers: r2, ..s })
        },
        Instr::Shl { x, y } => {
            let f = (s.registers[x as int] / 128) as u8;
            let r1 = s.registers.update(15, f);
            let r2 = r1.update(x as int, ((r1[x as int] * 2) % 256) as u8);
            Ok(MachineState { registers: r2, ..s })
        },
        Instr::SneReg { x, y } => {
            if s.registers[x as int] != s.registers[y as int] {
                Ok(MachineState { pc: (s.pc + 2) as u16, ..s })
            } else {
                Ok(s)
            }
        },
        Instr::LdI { nnn } => Ok(MachineState { register_i: nnn, ..s }),
        Instr::JpV0 { nnn } => Ok(
            MachineState { pc: (nnn + s.registers[0]) as u16, ..s },
        ),
        Instr::Rnd { x, kk } => Ok(
            MachineState { registers: s.registers.update(x as int, rnd & kk), ..s },
        ),
        Instr::Drw { x, y, n } => {
            if n > 0 && s.register_i + n > 4096 {
                Err(ExecError::MemoryOutOfRange)
            } else {
                let d = spec_draw(
                    s.display,
                    s.memory,
                    s.register_i,
                    s.registers[x as int],
                    s.registers[y as int],
                    n as nat,
                );
                Ok(
                    MachineState {
                        display: d.0,
                        registers: s.registers.update(
                            15,
                            if d.1 {
                                1u8
                            } else {
                                0u8
                            },
                        ),
                        ..s
                    },
                )
            }
        },
        Instr::Skp { x } => {
            if s.registers[x as int] >= 16 {
                Err(ExecError::KeyOutOfRange)
            } else if s.keys[s.registers[x as int] as int] {
                Ok(MachineState { pc: (s.pc + 2) as u16, ..s })
            } else {
                Ok(s)
            }
        },
        Instr::Sknp { x } => {
            if s.registers[x as int] >= 16 {
                Err(ExecError::KeyOutOfRange)
            } else if !s.keys[s.registers[x as int] as int] {
                Ok(MachineState { pc: (s.pc + 2) as u16, ..s })
            } else {
                Ok(s)
            }
        },
        Instr::LdFromDt { x } => Ok(
            MachineState { registers: s.registers.update(x as int, s.timer_delay), ..s },
        ),
        Instr::LdKey { x } => Ok(MachineState { hold_for_key: Some(x), ..s }),
        Instr::LdToDt { x } => Ok(MachineState { timer_delay: s.registers[x as int], ..s }),
        Instr::LdToSt { x } => Ok(MachineState { timer_sound: s.registers[x as int], ..s }),
        Instr::AddI { x } => Ok(
            MachineState {
                register_i: ((s.register_i + s.registers[x as int]) % 0x10000) as u16,
                ..s
            },
        ),
        Instr::LdFont { x } => Ok(
            MachineState { register_i: (s.registers[x as int] * 5) as u16, ..s },
        ),
        Instr::LdBcd { x } => {
            if s.register_i + 2 > 4095 {
                Err(ExecError::MemoryOutOfRange)
            } else {
                let vx = s.registers[x as int];
                let m1 = s.memory.update(s.register_i as int, (vx / 100) as u8);
                let m2 = m1.update(s.register_i as int + 1, ((vx % 100) / 10) as u8);
                let m3 = m2.update(s.register_i as int + 2, (vx % 10) as u8);
                Ok(MachineState { memory: m3, ..s })
            }
        },
        Instr::Store { x } => {
            if s.register_i + x > 4095 {
                Err(ExecError::MemoryOutOfRange)
            } else {
                Ok(
                    MachineState {
                        memory: Seq::new(
                            4096,
                            |k: int|
                                if s.register_i <= k <= s.register_i + x {
                                    s.registers[k - s.register_i]
                                } else {
                                    s.memory[k]
                                },
                        ),
                        ..s
                    },
                )
            }
        },
        Instr::Load { x } => {
            if s.register_i + x > 4095 {
                Err(ExecError::MemoryOutOfRange)
            } else {
                Ok(
                    MachineState {
                        registers: Seq::new(
                            16,
                            |k: int|
                                if 0 <= k <= x {
                                    s.memory[s.register_i + k]
                                } else {
                                    s.registers[k]
                                },
                        ),
                        ..s
                    },
                )
            }
        },
        Instr::Unknown { op } => Ok(s),
    }
}

/// One full instruction cycle from state `s`: no-op while suspended
/// waiting for a key; otherwise fetch the big-endian opcode at `pc`,
/// advance `pc` by 2, then execute the decoded instruction. A fetch with
/// `pc` at or beyond the last memory cell is a fatal address error.
pub open spec fn spec_step(s: MachineState, rnd: u8) -> Result<MachineState, ExecError> {
    if s.hold_for_key is Some {
        Ok(s)
    } else if s.pc + 1 >= 4096 {
        Err(ExecError::MemoryOutOfRange)
    } else {
        let op = (s.memory[s.pc as int] * 256 + s.memory[s.pc as int + 1]) as u16;
        let s1 = MachineState { pc: (s.pc + 2) as u16, ..s };
        spec_exec_instr(s1, spec_decode(op), rnd)
    }
}

/// The machine after the instruction cycles of one frame: `k` cycles, the
/// `j`-th consuming `rnds[j]` as its random byte. A cycle is skipped when
/// the program counter has run past the last full instruction slot, and
/// each cycle is followed by honouring any pending clear-display request.
pub open spec fn spec_frame_iter(s: MachineState, rnds: Seq<u8>, k: nat) -> Result<
    MachineState,
    ExecError,
>
    decreases k,
{
    if k == 0 {
        Ok(s)
    } else {
        match spec_frame_iter(s, rnds, (k - 1) as nat) {
            Err(e) => Err(e),
            Ok(m) => {
                let stepped = if m.pc < 4094 {
                    spec_step(m, rnds[k - 1])
                } else {
                    Ok(m)
                };
                match stepped {
                    Err(e) => Err(e),
                    Ok(m2) => Ok(Machine::spec_apply_clear(m2)),
                }
            },
        }
    }
}

/// The machine after one whole frame: a timer tick, then - unless the
/// machine is suspended waiting for a key - the frame's budget of eight
/// instruction cycles.
pub open spec fn spec_frame(s: MachineState, rnds: Seq<u8>) -> Result<MachineState, ExecError> {
    let t = Machine::spec_tick(s);
    if t.hold_for_key is Some {
        Ok(t)
    } else {
        spec_frame_iter(t, rnds, 8)
    }
}

/// Once a frame's cycle iteration has failed, running further cycles
/// reports the same error.
proof fn lemma_frame_iter_err(s: MachineState, rnds: Seq<u8>, k1: nat, k2: nat)
    requires
        k1 <= k2,
        spec_frame_iter(s, rnds, k1) is Err,
    ensures
        spec_frame_iter(s, rnds, k2) == spec_frame_iter(s, rnds, k1),
    decreases k2,
{
    if k2 > k1 {
        lemma_frame_iter_err(s, rnds, k1, (k2 - 1) as nat);
    }
}

/// Relies on `rand::random`: draws one value from the thread-local
/// generator; nothing can be promised about which value comes back.
pub assume_specification<T>[ rand::random::<T> ]() -> (r: T)
    where
        rand::distributions::Standard: rand::distributions::Distribution<T>,
;

/// Extracts bit `col` of a sprite row byte, counting from the most
/// significant bit.
fn sprite_bit(b: u8, col: u8) -> (r: u8)
    requires
        col < 8,
    ensures
        r == spec_sprite_bit(b, col as int),
        r <= 1,
{
    if col == 0 {
        (b / 128) % 2
    } else if col == 1 {
        (b / 64) % 2
    } else if col == 2 {
        (b / 32) % 2
    } else if col == 3 {
        (b / 16) % 2
    } else if col == 4 {
        (b / 8) % 2
    } else if col == 5 {
        (b / 4) % 2
    } else if col == 6 {
        (b / 2) % 2
    } else {
        b % 2
    }
}

impl Machine {
    /// Runs one instruction cycle with `rnd` as the random byte that a
    /// `RND` opcode consumes: exactly the transition `spec_step`. On a
    /// fatal error the machine is left unchanged.
    pub fn step_with(&mut self, rnd: u8) -> (r: Result<(), ExecError>)
        requires
            old(self).wf(),
        ensures
            final(self).wf(),
            match r {
                Ok(()) => spec_step(old(self)@, rnd) == Ok::<MachineState, ExecError>(
                    final(self)@,
                ),
                Err(e) => spec_step(old(self)@, rnd) == Err::<MachineState, ExecError>(e)
                    && final(self)@ == old(self)@,
            },
    {
        let ghost s0 = self@;
        if self.hold_for_key.is_some() {
            return Ok(());
        }
        let pc = self.pc as usize;
        if pc + 1 >= 4096 {
            return Err(ExecError::MemoryOutOfRange);
        }
        let b1 = self.memory[pc];
        let b2 = self.memory[pc + 1];
        let op = (b1 as u16) * 256 + (b2 as u16);
        let next_pc = self.pc + 2;
        let instr = decode_instr(op);
        let ghost s1 = MachineState { pc: next_pc, ..s0 };
        proof {
            assert(op == (s0.memory[s0.pc as int] * 256 + s0.memory[s0.pc as int + 1]) as u16);
            assert(spec_step(s0, rnd) == spec_exec_instr(s1, spec_decode(op), rnd));
        }
        match instr {
            Instr::Cls => {
                self.pc = next_pc;
                self.needs_clear = true;
                proof {
                    assert(self@ =~= MachineState { needs_clear: true, ..s1 });
                }
                Ok(())
            },
            Instr::Ret => {
                if self.sp == 0 {
                    return Err(ExecError::StackUnderflow);
                }
                self.pc = self.stack[self.sp as usize];
                self.sp = self.sp - 1;
                proof {
                    assert(self@ =~= MachineState {
                        pc: s1.stack[s1.sp as int],
                        sp: (s1.sp - 1) as u16,
                        ..s1
                    });
                }
                Ok(())
            },
            Instr::Sys { nnn } => {
                self.pc = next_pc;
                proof {
                    assert(self@ =~= s1);
                }
                Ok(())
            },
            Instr::Jp { nnn } => {
                self.pc = nnn;
                proof {
                    assert(self@ =~= MachineState { pc: nnn, ..s1 });
                }
                Ok(())
            },
            Instr::Call { nnn } => {
                if self.sp >= 15 {
                    return Err(ExecError::StackOverflow);
                }
                self.sp = self.sp + 1;
                let sp = self.sp as usize;
                self.stack[sp] = next_pc;
                self.pc = nnn;
                proof {
                    assert(self@ =~= MachineState {
                        sp: (s1.sp + 1) as u16,
                        stack: s1.stack.update(s1.sp as int + 1, s1.pc),
                        pc: nnn,
                        ..s1
                    });
                }
                Ok(())
            },
            Instr::SeByte { x, kk } => {
                self.pc = if self.registers[x as usize] == kk {
                    next_pc + 2
                } else {
                    next_pc
                };
                proof {
                    if s1.registers[x as int] == kk {
                        assert(self@ =~= MachineState { pc: (s1.pc + 2) as u16, ..s1 });
                    } else {
                        assert(self@ =~= s1);
                    }
                }
                Ok(())
            },
            Instr::SneByte { x, kk } => {
                self.pc = if self.registers[x as usize] != kk {
                    next_pc + 2
                } else {
                    next_pc
                };
                proof {
                    if s1.registers[x as int] != kk {
                        assert(self@ =~= MachineState { pc: (s1.pc + 2) as u16, ..s1 });
                    } else {
                        assert(self@ =~= s1);
                    }
                }
                Ok(())
            },
            Instr::SeReg { x, y } => {
                self.pc = if self.registers[x as usize] == self.registers[y as usize] {
                    next_pc + 2
                } else {
                    next_pc
                };
                proof {
                    if s1.registers[x as int] == s1.registers[y as int] {
                        assert(self@ =~= MachineState { pc: (s1.pc + 2) as u16, ..s1 });
                    } else {
                        assert(self@ =~= s1);
                    }
                }
                Ok(())
            },
            Instr::LdByte { x, kk } => {
                self.pc = next_pc;
                self.registers[x as usize] = kk;
                proof {
                    assert(self@ =~= MachineState {
                        registers: s1.registers.update(x as int, kk),
                        ..s1
                    });
                }
                Ok(())
            },
            Instr::AddByte { x, kk } => {
                self.pc = next_pc;
                let sum = (self.registers[x as usize] as u16) + (kk as u16);
                self.registers[x as usize] = (sum % 256) as u8;
                proof {
                    assert(self@ =~= MachineState {
                        registers: s1.registers.update(
                            x as int,
                            ((s1.registers[x as int] + kk) % 256) as u8,
                        ),
                        ..s1
                    });
                }
                Ok(())
            },
            Instr::LdReg { x, y } => {
                self.pc = next_pc;
                self.registers[x as usize] = self.registers[y as usize];
                proof {
                    assert(self@ =~= MachineState {
                        registers: s1.registers.update(x as int, s1.registers[y as int]),
                        ..s1
                    });
                }
                Ok(())
            },
            Instr::Or { x, y } => {
                self.pc = next_pc;
                self.registers[x as usize] = self.registers[x as usize] | self.registers[
                    y as usize
                ];
                proof {
                    assert(self@ =~= MachineState {
                        registers: s1.registers.update(
                            x as int,
                            s1.registers[x as int] | s1.registers[y as int],
                        ),
                        ..s1
                    });
                }
                Ok(())
            },
            Instr::And { x, y } => {
                self.pc = next_pc;
                self.registers[x as usize] = self.registers[x as usize] & self.registers[
                    y as usize
                ];
                proof {
                    assert(self@ =~= MachineState {
                        registers: s1.registers.update(
                            x as int,
                            s1.registers[x as int] & s1.registers[y as int],
                        ),
                        ..s1
                    });
                }
                Ok(())
            },
            Instr::Xor { x, y } => {
                self.pc = next_pc;
                self.registers[x as usize] = self.registers[x as usize] ^ self.registers[
                    y as usize
                ];
                proof {
                    assert(self@ =~= MachineState {
                        registers: s1.registers.update(
                            x as int,
                            s1.registers[x as int] ^ s1.registers[y as int],
                        ),
                        ..s1
                    });
                }
                Ok(())
            },
            Instr::AddReg { x, y } => {
                self.pc = next_pc;
                let sum = (self.registers[x as usize] as u16) + (self.registers[y as usize] as u16);
                self.registers[x as usize] = (sum % 256) as u8;
                self.registers[15] = if sum > 255 {
                    1
                } else {
                    0
                };
                proof {
                    let spec_sum = s1.registers[x as int] + s1.registers[y as int];
                    let r1 = s1.registers.update(x as int, (spec_sum % 256) as u8);
                    let r2 = r1.update(
                        15,
                        if spec_sum > 255 {
                            1u8
                        } else {
                            0u8
                        },
                    );
                    assert(self@ =~= MachineState { registers: r2, ..s1 });
                }
                Ok(())
            },
            Instr::Sub { x, y } => {
                self.pc = next_pc;
                let f: u8 = if self.registers[x as usize] > self.registers[y as usize] {
                    1
                } else {
                    0
                };
                self.registers[15] = f;
                let a = self.registers[x as usize];
                let b = self.registers[y as usize];
                self.registers[x as usize] = if a >= b {
                    a - b
                } else {
                    0
                };
                proof {
                    let fs = spec_sub_flag(s1.registers[x as int], s1.registers[y as int]);
                    let r1 = s1.registers.update(15, fs);
                    let r2 = r1.update(x as int, spec_sat_sub(r1[x as int], r1[y as int]));
                    assert(self@ =~= MachineState { registers: r2, ..s1 });
                }
                Ok(())
            },
            Instr::Shr { x, y } => {
                self.pc = next_pc;
                self.registers[15] = self.registers[x as usize] % 2;
                self.registers[x as usize] = self.registers[x as usize] / 2;
                proof {
                    let fs = (s1.registers[x as int] % 2) as u8;
                    let r1 = s1.registers.update(15, fs);
                    let r2 = r1.update(x as int, (r1[x as int] / 2) as u8);
                    assert(self@ =~= MachineState { registers: r2, ..s1 });
                }
                Ok(())
            },
            Instr::Subn { x, y } => {
                self.pc = next_pc;
                let f: u8 = if self.registers[y as usize] > self.registers[x as usize] {
                    1
                } else {
                    0
                };
                self.registers[15] = f;
                let a = self.registers[y as usize];
                let b = self.registers[x as usize];
                self.registers[x as usize] = if a >= b {
                    a - b
                } else {
                    0
                };
                proof {
                    let fs = spec_sub_flag(s1.registers[y as int], s1.registers[x as int]);
                    let r1 = s1.registers.update(15, fs);
                    let r2 = r1.update(x as int, spec_sat_sub(r1[y as int], r1[x as int]));
                    assert(self@ =~= MachineState { registers: r2, ..s1 });
                }
                Ok(())
            },
            Instr::Shl { x, y } => {
                self.pc = next_pc;
                self.registers[15] = self.registers[x as usize] / 128;
                let dbl = (self.registers[x as usize] as u16) * 2;
                self.registers[x as usize] = (dbl % 256) as u8;
                proof {
                    let fs = (s1.registers[x as int] / 128) as u8;
                    let r1 = s1.registers.update(15, fs);
                    let r2 = r1.update(x as int, ((r1[x as int] * 2) % 256) as u8);
                    assert(self@ =~= MachineState { registers: r2, ..s1 });
                }
                Ok(())
            },
            Instr::SneReg { x, y } => {
                self.pc = if self.registers[x as usize] != self.registers[y as usize] {
                    next_pc + 2
                } else {
                    next_pc
                };
                proof {
                    if s1.registers[x as int] != s1.registers[y as int] {
                        assert(self@ =~= MachineState { pc: (s1.pc + 2) as u16, ..s1 });
                    } else {
                        assert(self@ =~= s1);
                    }
                }
                Ok(())
            },
            Instr::LdI { nnn } => {
                self.pc = next_pc;
                self.register_i = nnn;
                proof {
                    assert(self@ =~= MachineState { register_i: nnn, ..s1 });
                }
                Ok(())
            },
            Instr::JpV0 { nnn } => {
                self.pc = nnn + (self.registers[0] as u16);
                proof {
                    assert(self@ =~= MachineState {
                        pc: (nnn + s1.registers[0]) as u16,
                        ..s1
                    });
                }
                Ok(())
            },
            Instr::Rnd { x, kk } => {
                self.pc = next_pc;
                self.registers[x as usize] = rnd & kk;
                proof {
                    assert(self@ =~= MachineState {
                        registers: s1.registers.update(x as int, rnd & kk),
                        ..s1
                    });
                }
                Ok(())
            },
            Instr::Drw { x, y, n } => {
                if n > 0 && (self.register_i as usize) + (n as usize) > 4096 {
                    return Err(ExecError::MemoryOutOfRange);
                }
                self.pc = next_pc;
                let x0 = self.registers[x as usize];
                let y0 = self.registers[y as usize];
                let base = self.register_i as usize;
                let mut collision = false;
                let mut row: u8 = 0;
                while row < n
                    invariant
                        self.wf(),
                        row <= n,
                        n < 16,
                        n > 0 ==> s1.register_i + n <= 4096,
                        base == s1.register_i as usize,
                        x0 == s1.registers[x as int],
                        y0 == s1.registers[y as int],
                        x < 16,
                        y < 16,
                        s1.registers.len() == 16,
                        state_wf(s1),
                        self@ =~= (MachineState {
                            display: self@.display,
                            ..s1
                        }),
                        (self@.display, collision) == spec_draw(
                            s1.display,
                            s1.memory,
                            s1.register_i,
                            x0,
                            y0,
                            row as nat,
                        ),
                    decreases n - row,
                {
                    let sprite = self.memory[base + (row as usize)];
                    let py = ((y0 % 32) + row) % 32;
                    let ghost disp_before_row = self@.display;
                    let ghost coll_before_row = collision;
                    let mut col: u8 = 0;
                    while col < 8
                        invariant
                            self.wf(),
                            col <= 8,
                            py as int == spec_px_row(y0, row as int),
                            py < 32,
                            sprite == s1.memory[s1.register_i as int + row as int],
                            self@ =~= (MachineState {
                                display: self@.display,
                                ..s1
                            }),
                            ({
                                let r = spec_draw_row(
                                    disp_before_row,
                                    sprite,
                                    x0,
                                    py as int,
                                    col as nat,
                                );
                                self@.display == r.0 && collision == (coll_before_row || r.1)
                            }),
                            disp_before_row.len() == 2048,
                            forall|i: int| 0 <= i < 2048 ==> disp_before_row[i] <= 1,
                        decreases 8 - col,
                    {
                        let bit = sprite_bit(sprite, col);
                        let px = ((x0 % 64) + col) % 64;
                        let idx = (py as usize) * 64 + (px as usize);
                        let oldpx = self.display[idx];
                        let newpx: u8 = if oldpx == bit {
                            0
                        } else {
                            1
                        };
                        self.display[idx] = newpx;
                        if oldpx == 1 && bit == 1 {
                            collision = true;
                        }
                        proof {
                            let r_prev = spec_draw_row(
                                disp_before_row,
                                sprite,
                                x0,
                                py as int,
                                col as nat,
                            );
                            let r_now = spec_draw_row(
                                disp_before_row,
                                sprite,
                                x0,
                                py as int,
                                (col + 1) as nat,
                            );
                            assert(px as int == spec_px_col(x0, col as int));
                            assert(r_now.0 =~= r_prev.0.update(
                                py as int * 64 + spec_px_col(x0, col as int),
                                if r_prev.0[py as int * 64 + spec_px_col(x0, col as int)]
                                    == spec_sprite_bit(sprite, col as int) {
                                    0u8
                                } else {
                                    1u8
                                },
                            ));
                        }
                        col = col + 1;
                    }
                    proof {
                        let prev = spec_draw(
                            s1.display,
                            s1.memory,
                            s1.register_i,
                            x0,
                            y0,
                            row as nat,
                        );
                        let now = spec_draw(
                            s1.display,
                            s1.memory,
                            s1.register_i,
                            x0,
                            y0,
                            (row + 1) as nat,
                        );
                        assert(prev.0 == disp_before_row && prev.1 == coll_before_row);
                        assert(now.0 == spec_draw_row(
                            disp_before_row,
                            s1.memory[s1.register_i as int + row as int],
                            x0,
                            spec_px_row(y0, row as int),
                            8,
                        ).0);
                    }
                    row = row + 1;
                }
                self.registers[15] = if collision {
                    1
                } else {
                    0
                };
                proof {
                    let d = spec_draw(
                        s1.display,
                        s1.memory,
                        s1.register_i,
                        s1.registers[x as int],
                        s1.registers[y as int],
                        n as nat,
                    );
                    assert(self@ =~= MachineState {
                        display: d.0,
                        registers: s1.registers.update(
                            15,
                            if d.1 {
                                1u8
                            } else {
                                0u8
                            },
                        ),
                        ..s1
                    });
                }
                Ok(())
            },
            Instr::Skp { x } => {
                let vx = self.registers[x as usize];
                if vx >= 16 {
                    return Err(ExecError::KeyOutOfRange);
                }
                self.pc = if self.keys[vx as usize] {
                    next_pc + 2
                } else {
                    next_pc
                };
                proof {
                    if s1.keys[s1.registers[x as int] as int] {
                        assert(self@ =~= MachineState { pc: (s1.pc + 2) as u16, ..s1 });
                    } else {
                        assert(self@ =~= s1);
                    }
                }
                Ok(())
            },
            Instr::Sknp { x } => {
                let vx = self.registers[x as usize];
                if vx >= 16 {
                    return Err(ExecError::KeyOutOfRange);
                }
                self.pc = if !self.keys[vx as usize] {
                    next_pc + 2
                } else {
                    next_pc
                };
                proof {
                    if !s1.keys[s1.registers[x as int] as int] {
                        assert(self@ =~= MachineState { pc: (s1.pc + 2) as u16, ..s1 });
                    } else {
                        assert(self@ =~= s1);
                    }
                }
                Ok(())
            },
            Instr::LdFromDt { x } => {
                self.pc = next_pc;
                self.registers[x as usize] = self.timer_delay;
                proof {
                    assert(self@ =~= MachineState {
                        registers: s1.registers.update(x as int, s1.timer_delay),
                        ..s1
                    });
                }
                Ok(())
            },
            Instr::LdKey { x } => {
                self.pc = next_pc;
                self.hold_for_key = Some(x);
                proof {
                    assert(self@ =~= MachineState { hold_for_key: Some(x), ..s1 });
                }
                Ok(())
            },
            Instr::LdToDt { x } => {
                self.pc = next_pc;
                self.timer_delay = self.registers[x as usize];
                proof {
                    assert(self@ =~= MachineState {
                        timer_delay: s1.registers[x as int],
                        ..s1
                    });
                }
                Ok(())
            },
            Instr::LdToSt { x } => {
                self.pc = next_pc;
                self.timer_sound = self.registers[x as usize];
                proof {
                    assert(self@ =~= MachineState {
                        timer_sound: s1.registers[x as int],
                        ..s1
                    });
                }
                Ok(())
            },
            Instr::AddI { x } => {
                self.pc = next_pc;
                let sum = (self.register_i as u32) + (self.registers[x as usize] as u32);
                self.register_i = (sum % 0x10000) as u16;
                proof {
                    assert(self@ =~= MachineState {
                        register_i: ((s1.register_i + s1.registers[x as int]) % 0x10000) as u16,
                        ..s1
                    });
                }
                Ok(())
            },
            Instr::LdFont { x } => {
                self.pc = next_pc;
                self.register_i = (self.registers[x as usize] as u16) * 5;
                proof {
                    assert(self@ =~= MachineState {
                        register_i: (s1.registers[x as int] * 5) as u16,
                        ..s1
                    });
                }
                Ok(())
            },
            Instr::LdBcd { x } => {
                if (self.register_i as usize) + 2 > 4095 {
                    return Err(ExecError::MemoryOutOfRange);
                }
                self.pc = next_pc;
                let vx = self.registers[x as usize];
                let base = self.register_i as usize;
                self.memory[base] = vx / 100;
                self.memory[base + 1] = (vx % 100) / 10;
                self.memory[base + 2] = vx % 10;
                proof {
                    let vxs = s1.registers[x as int];
                    let m1 = s1.memory.update(s1.register_i as int, (vxs / 100) as u8);
                    let m2 = m1.update(s1.register_i as int + 1, ((vxs % 100) / 10) as u8);
                    let m3 = m2.update(s1.register_i as int + 2, (vxs % 10) as u8);
                    assert(self@ =~= MachineState { memory: m3, ..s1 });
                }
                Ok(())
            },
            Instr::Store { x } => {
                if (self.register_i as usize) + (x as usize) > 4095 {
                    return Err(ExecError::MemoryOutOfRange);
                }
                self.pc = next_pc;
                let base = self.register_i as usize;
                let mut j: usize = 0;
                while j <= x as usize
                    invariant
                        self.wf(),
                        j <= x as usize + 1,
                        x < 16,
                        base == s1.register_i as usize,
                        s1.register_i + x <= 4095,
                        state_wf(s1),
                        self@ =~= (MachineState { memory: self@.memory, ..s1 }),
                        self@.memory.len() == 4096,
                        forall|k: int|
                            0 <= k < 4096 && !(s1.register_i <= k < s1.register_i + j)
                                ==> self@.memory[k] == s1.memory[k],
                        forall|k: int|
                            s1.register_i <= k < s1.register_i + j ==> self@.memory[k]
                                == s1.registers[k - s1.register_i],
                    decreases x as usize + 1 - j,
                {
                    self.memory[base + j] = self.registers[j];
                    j = j + 1;
                }
                proof {
                    assert(self@.memory =~= Seq::new(
                        4096,
                        |k: int|
                            if s1.register_i <= k <= s1.register_i + x {
                                s1.registers[k - s1.register_i]
                            } else {
                                s1.memory[k]
                            },
                    ));
                    assert(self@ =~= MachineState {
                        memory: Seq::new(
                            4096,
                            |k: int|
                                if s1.register_i <= k <= s1.register_i + x {
                                    s1.registers[k - s1.register_i]
                                } else {
                                    s1.memory[k]
                                },
                        ),
                        ..s1
                    });
                }
                Ok(())
            },
            Instr::Load { x } => {
                if (self.register_i as usize) + (x as usize) > 4095 {
                    return Err(ExecError::MemoryOutOfRange);
                }
                self.pc = next_pc;
                let base = self.register_i as usize;
                let mut j: usize = 0;
                while j <= x as usize
                    invariant
                        self.wf(),
                        j <= x as usize + 1,
                        x < 16,
                        base == s1.register_i as usize,
                        s1.register_i + x <= 4095,
                        state_wf(s1),
                        self@ =~= (MachineState { registers: self@.registers, ..s1 }),
                        self@.registers.len() == 16,
                        forall|k: int|
                            0 <= k < 16 && !(k < j) ==> self@.registers[k] == s1.registers[k],
                        forall|k: int|
                            0 <= k < j ==> self@.registers[k] == s1.memory[s1.register_i + k],
                    decreases x as usize + 1 - j,
                {
                    self.registers[j] = self.memory[base + j];
                    j = j + 1;
                }
                proof {
                    assert(self@.registers =~= Seq::new(
                        16,
                        |k: int|
                            if 0 <= k <= x {
                                s1.memory[s1.register_i + k]
                            } else {
                                s1.registers[k]
                            },
                    ));
                    assert(self@ =~= MachineState {
                        registers: Seq::new(
                            16,
                            |k: int|
                                if 0 <= k <= x {
                                    s1.memory[s1.register_i + k]
                                } else {
                                    s1.registers[k]
                                },
                        ),
                        ..s1
                    });
                }
                Ok(())
            },
            Instr::Unknown { op: unknown_op } => {
                self.pc = next_pc;
                proof {
                    assert(self@ =~= s1);
                }
                Ok(())
            },
        }
    }

    /// Runs one instruction cycle, drawing the random byte for `RND` from
    /// the system generator: some execution of `spec_step`.
    pub fn step(&mut self) -> (r: Result<(), ExecError>)
        requires
            old(self).wf(),
        ensures
            final(self).wf(),
            exists|rnd: u8|
                match r {
                    Ok(()) => spec_step(old(self)@, rnd) == Ok::<MachineState, ExecError>(
                        final(self)@,
                    ),
                    Err(e) => spec_step(old(self)@, rnd) == Err::<MachineState, ExecError>(e)
                        && final(self)@ == old(self)@,
                },
    {
        let rnd: u8 = rand::random();
        let r = self.step_with(rnd);
        proof {
            assert(match r {
                Ok(()) => spec_step(old(self)@, rnd) == Ok::<MachineState, ExecError>(self@),
                Err(e) => spec_step(old(self)@, rnd) == Err::<MachineState, ExecError>(e) && self@
                    == old(self)@,
            });
        }
        r
    }

    /// Runs one whole frame: ticks both timers once, then - unless the
    /// machine is waiting for a key - runs the frame's budget of eight
    /// instruction cycles, honouring clear-display requests as it goes.
    /// Stops at the first fatal error.
    pub fn run_frame(&mut self) -> (r: Result<(), ExecError>)
        requires
            old(self).wf(),
        ensures
            final(self).wf(),
            exists|rnds: Seq<u8>|
                rnds.len() == 8 && match r {
                    Ok(()) => spec_frame(old(self)@, rnds) == Ok::<MachineState, ExecError>(
                        final(self)@,
                    ),
                    Err(e) => spec_frame(old(self)@, rnds) == Err::<MachineState, ExecError>(e),
                },
    {
        self.tick_timers();
        let ghost t = self@;
        if self.hold_for_key.is_some() {
            proof {
                let witness = Seq::new(8, |i: int| 0u8);
                assert(witness.len() == 8 && spec_frame(old(self)@, witness) == Ok::<
                    MachineState,
                    ExecError,
                >(self@));
            }
            return Ok(());
        }
        let mut rnds: Vec<u8> = Vec::new();
        while rnds.len() < 8
            invariant
                rnds@.len() <= 8,
            decreases 8 - rnds@.len(),
        {
            let b: u8 = rand::random();
            rnds.push(b);
        }
        let mut j: usize = 0;
        while j < 8
            invariant
                self.wf(),
                j <= 8,
                rnds@.len() == 8,
                t == Machine::spec_tick(old(self)@),
                t.hold_for_key is None,
                spec_frame_iter(t, rnds@, j as nat) == Ok::<MachineState, ExecError>(self@),
            decreases 8 - j,
        {
            let ghost before = self@;
            if self.pc < 4094 {
                match self.step_with(rnds[j]) {
                    Ok(()) => {},
                    Err(e) => {
                        proof {
                            assert(spec_frame_iter(t, rnds@, (j + 1) as nat)
                                == Err::<MachineState, ExecError>(e));
                            lemma_frame_iter_err(t, rnds@, (j + 1) as nat, 8);
                            assert(spec_frame(old(self)@, rnds@) == Err::<
                                MachineState,
                                ExecError,
                            >(e));
                        }
                        return Err(e);
                    },
                }
            }
            self.apply_clear();
            proof {
                assert(spec_frame_iter(t, rnds@, (j + 1) as nat) == Ok::<
                    MachineState,
                    ExecError,
                >(self@));
            }
            j = j + 1;
        }
        proof {
            assert(spec_frame(old(self)@, rnds@) == Ok::<MachineState, ExecError>(self@));
        }
        Ok(())
    }
}

/// The two sides of the opcode table meet in the engine: a machine whose
/// memory holds the big-endian encoding of a well-formed instruction at
/// the program counter executes exactly that instruction. Together with
/// the assembler's contract this is the round trip from mnemonic form
/// through the encoding to the dispatched register and memory mutation.
pub proof fn lemma_step_executes_encoded(s: MachineState, i: Instr, rnd: u8)
    requires
        state_wf(s),
        crate::instr::instr_wf(i),
        s.hold_for_key is None,
        s.pc + 1 < 4096,
        s.memory[s.pc as int] == crate::instr::spec_encode(i) / 256,
        s.memory[s.pc as int + 1] == crate::instr::spec_encode(i) % 256,
    ensures
        spec_step(s, rnd) == spec_exec_instr(MachineState { pc: (s.pc + 2) as u16, ..s }, i, rnd),
{
    crate::instr::lemma_decode_of_encode(i);
    let e = crate::instr::spec_encode(i);
    vstd::arithmetic::div_mod::lemma_fundamental_div_mod(e, 256);
    vstd::arithmetic::div_mod::lemma_mod_bound(e, 256);
    assert((e / 256) * 256 + e % 256 == e);
    assert((s.memory[s.pc as int] * 256 + s.memory[s.pc as int + 1]) as u16 == e as u16);
}

/// While the machine is suspended waiting for a key press, an instruction
/// cycle changes nothing: the program counter does not advance until the
/// key wait is resolved.
pub proof fn lemma_key_wait_halts(s: MachineState, rnd: u8)
    requires
        s.hold_for_key is Some,
    ensures
        spec_step(s, rnd) == Ok::<MachineState, ExecError>(s),
{
}

/// `SUB Vx, Vy` never wraps below zero: the result is `Vx - Vy` saturated
/// at 0, and the flag register reads 1 exactly when `Vx > Vy` - so equal
/// operands yield flag 0 and result 0. Stated for destination and source
/// registers other than `VF` itself, which the flag write would alias.
pub proof fn lemma_sub_semantics(s: MachineState, x: u8, y: u8, rnd: u8)
    requires
        state_wf(s),
        x < 15,
        y < 15,
    ensures
        ({
            let r = spec_exec_instr(s, Instr::Sub { x, y }, rnd);
            let vx = s.registers[x as int];
            let vy = s.registers[y as int];
            &&& r is Ok
            &&& r->Ok_0.registers[x as int] == spec_sat_sub(vx, vy)
            &&& r->Ok_0.registers[15] == spec_sub_flag(vx, vy)
            &&& spec_sat_sub(vx, vy) == if vx >= vy { (vx - vy) as u8 } else { 0u8 }
            &&& (spec_sub_flag(vx, vy) == 1 <==> vx > vy)
            &&& (vx == vy ==> spec_sub_flag(vx, vy) == 0 && spec_sat_sub(vx, vy) == 0)
        }),
{
}

/// `SUBN Vx, Vy` is symmetric: the result is `Vy - Vx` saturated at 0 and
/// the flag reads 1 exactly when `Vy > Vx`.
pub proof fn lemma_subn_semantics(s: MachineState, x: u8, y: u8, rnd: u8)
    requires
        state_wf(s),
        x < 15,
        y < 15,
    ensures
        ({
            let r = spec_exec_instr(s, Instr::Subn { x, y }, rnd);
            let vx = s.registers[x as int];
            let vy = s.registers[y as int];
            &&& r is Ok
            &&& r->Ok_0.registers[x as int] == spec_sat_sub(vy, vx)
            &&& r->Ok_0.registers[15] == spec_sub_flag(vy, vx)
            &&& spec_sat_sub(vy, vx) == if vy >= vx { (vy - vx) as u8 } else { 0u8 }
            &&& (spec_sub_flag(vy, vx) == 1 <==> vy > vx)
        }),
{
}

/// Sprite drawing wraps around the display edges rather than indexing out
/// of bounds: every target coordinate is reduced modulo the display
/// dimension, and a start coordinate on the last column or row wraps to
/// column or row 0 one pixel later.
pub proof fn lemma_draw_coordinates_wrap(x0: u8, y0: u8, col: int, row: int)
    requires
        0 <= col,
        0 <= row,
    ensures
        0 <= spec_px_col(x0, col) < 64,
        0 <= spec_px_row(y0, row) < 32,
        x0 % 64 == 63 ==> spec_px_col(x0, 1) == 0,
        y0 % 32 == 31 ==> spec_px_row(y0, 1) == 0,
{
}

/// `LD [I], Vx` copies exactly the registers `V0..=Vx` - `x + 1` of them -
/// into the memory cells `I..=I+x`, leaves every other memory cell alone,
/// and leaves `I` itself and all registers unchanged.
pub proof fn lemma_store_touches_exactly(s: MachineState, x: u8, rnd: u8)
    requires
        state_wf(s),
        x < 16,
        s.register_i + x <= 4095,
    ensures
        ({
            let r = spec_exec_instr(s, Instr::Store { x }, rnd);
            &&& r is Ok
            &&& r->Ok_0.register_i == s.register_i
            &&& r->Ok_0.registers == s.registers
            &&& (forall|k: int|
                s.register_i <= k <= s.register_i + x ==> r->Ok_0.memory[k] == s.registers[
                    k - s.register_i
                ])
            &&& (forall|k: int|
                0 <= k < 4096 && !(s.register_i <= k <= s.register_i + x) ==> r->Ok_0.memory[k]
                    == s.memory[k])
        }),
{
}

/// `LD Vx, [I]` fills exactly the registers `V0..=Vx` - `x + 1` of them -
/// from the memory cells `I..=I+x`, leaves the higher registers alone, and
/// leaves `I` itself and all of memory unchanged.
pub proof fn lemma_load_touches_exactly(s: MachineState, x: u8, rnd: u8)
    requires
        state_wf(s),
        x < 16,
        s.register_i + x <= 4095,
    ensures
        ({
            let r = spec_exec_instr(s, Instr::Load { x }, rnd);
            &&& r is Ok
            &&& r->Ok_0.register_i == s.register_i
            &&& r->Ok_0.memory == s.memory
            &&& (forall|k: int|
                0 <= k <= x ==> r->Ok_0.registers[k] == s.memory[s.register_i + k])
            &&& (forall|k: int| x < k < 16 ==> r->Ok_0.registers[k] == s.registers[k])
        }),
{
}

} // verus!
