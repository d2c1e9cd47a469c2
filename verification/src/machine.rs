//! The CHIP-8 machine state: memory, registers, stack, timers, display and
//! key state, together with the collaborator-facing operations that do not
//! belong to the instruction cycle itself (timer ticks, key events, the
//! clear-display request, program loading).

use vstd::prelude::*;

verus! {

/// The number of addressable memory cells.
pub const MEMORY_SIZE: usize = 4096;

/// Lowest address available to program code and data; everything below is
/// reserved for interpreter data such as the built-in font.
pub const PROGRAM_BASE: usize = 0x200;

/// Display width in pixels.
pub const DISPLAY_WIDTH: usize = 64;

/// Display height in pixels.
pub const DISPLAY_HEIGHT: usize = 32;

/// The mathematical model of a machine: every component as a sequence or
/// plain value. All contracts of the execution engine are stated over this
/// model.
#[verifier::ext_equal]
pub struct MachineState {
    /// 4096 bytes of addressable memory.
    pub memory: Seq<u8>,
    /// The 16 general-purpose 8-bit registers `V0`-`VF`.
    pub registers: Seq<u8>,
    /// The 16-bit address register `I`.
    pub register_i: u16,
    /// Delay timer, decremented once per external tick.
    pub timer_delay: u8,
    /// Sound timer, decremented once per external tick; sound plays while
    /// it is nonzero.
    pub timer_sound: u8,
    /// The program counter.
    pub pc: u16,
    /// The stack pointer: index of the topmost occupied stack slot, 0 when
    /// the stack is empty (slot 0 is never occupied).
    pub sp: u16,
    /// 16 return-address slots.
    pub stack: Seq<u16>,
    /// 64x32 one-bit pixels stored row-major as bytes valued 0 or 1.
    pub display: Seq<u8>,
    /// Key-down state of the 16 CHIP-8 keys.
    pub keys: Seq<bool>,
    /// Pending clear-display request, set by the clear opcode and consumed
    /// by `apply_clear`.
    pub needs_clear: bool,
    /// When `Some(x)`, execution is suspended until a key press stores the
    /// key index into register `x`.
    pub hold_for_key: Option<u8>,
}

/// Well-formedness of a machine state: every component has its fixed size,
/// the stack pointer stays inside the 16 slots, pixels are one-bit values
/// and a pending key wait names a real register.
pub open spec fn state_wf(s: MachineState) -> bool {
    &&& s.memory.len() == 4096
    &&& s.registers.len() == 16
    &&& s.stack.len() == 16
    &&& s.display.len() == 2048
    &&& s.keys.len() == 16
    &&& s.sp <= 15
    &&& (forall|i: int| 0 <= i < 2048 ==> s.display[i] <= 1)
    &&& (s.hold_for_key matches Some(r) ==> r < 16)
}

/// The machine itself: pure data, exclusively owned and mutated by the
/// execution engine and the collaborator-facing operations below.
pub struct Machine {
    /// 4096 bytes of addressable memory.
    pub memory: Vec<u8>,
    /// The 16 general-purpose 8-bit registers `V0`-`VF`.
    pub registers: Vec<u8>,
    /// The 16-bit address register `I`.
    pub register_i: u16,
    /// Delay timer.
    pub timer_delay: u8,
    /// Sound timer.
    pub timer_sound: u8,
    /// The program counter.
    pub pc: u16,
    /// The stack pointer.
    pub sp: u16,
    /// 16 return-address slots.
    pub stack: Vec<u16>,
    /// 64x32 pixels stored row-major as bytes valued 0 or 1.
    pub display: Vec<u8>,
    /// Key-down state of the 16 keys.
    pub keys: Vec<bool>,
    /// Pending clear-display request.
    pub needs_clear: bool,
    /// Pending key wait, if any.
    pub hold_for_key: Option<u8>,
}

impl View for Machine {
    type V = MachineState;

    open spec fn view(&self) -> MachineState {
        MachineState {
            memory: self.memory@,
            registers: self.registers@,
            register_i: self.register_i,
            timer_delay: self.timer_delay,
            timer_sound: self.timer_sound,
            pc: self.pc,
            sp: self.sp,
            stack: self.stack@,
            display: self.display@,
            keys: self.keys@,
            needs_clear: self.needs_clear,
            hold_for_key: self.hold_for_key,
        }
    }
}

/// The built-in font: 16 glyphs for the hex digits `0`-`F`, 5 bytes each,
/// loaded at address 0 of every fresh machine.
pub open spec fn spec_digit_sprites() -> Seq<u8> {
    seq![
        0xF0u8, 0x90, 0x90, 0x90, 0xF0, 0x20, 0x60, 0x20, 0x20, 0x70, 0xF0, 0x10, 0xF0, 0x80, 0xF0,
        0xF0, 0x10, 0xF0, 0x10, 0xF0, 0x90, 0x90, 0xF0, 0x10, 0x10, 0xF0, 0x80, 0xF0, 0x10, 0xF0,
        0xF0, 0x80, 0xF0, 0x90, 0xF0, 0xF0, 0x10, 0x20, 0x40, 0x40, 0xF0, 0x90, 0xF0, 0x90, 0xF0,
        0xF0, 0x90, 0xF0, 0x10, 0xF0, 0xF0, 0x90, 0xF0, 0x90, 0x90, 0xE0, 0x90, 0xE0, 0x90, 0xE0,
        0xF0, 0x80, 0x80, 0x80, 0xF0, 0xE0, 0x90, 0x90, 0x90, 0xE0, 0xF0, 0x80, 0xF0, 0x80, 0xF0,
        0xF0, 0x80, 0xF0, 0x80, 0x80,
    ]
}

/// The 80-byte font table of 5-byte glyphs for the hex digits `0`-`F`.
pub fn get_digit_sprites() -> (v: Vec<u8>)
    ensures
        v@ == spec_digit_sprites(),
{
    let v: Vec<u8> = vec![
        0xF0u8, 0x90, 0x90, 0x90, 0xF0, 0x20, 0x60, 0x20, 0x20, 0x70, 0xF0, 0x10, 0xF0, 0x80, 0xF0,
        0xF0, 0x10, 0xF0, 0x10, 0xF0, 0x90, 0x90, 0xF0, 0x10, 0x10, 0xF0, 0x80, 0xF0, 0x10, 0xF0,
        0xF0, 0x80, 0xF0, 0x90, 0xF0, 0xF0, 0x10, 0x20, 0x40, 0x40, 0xF0, 0x90, 0xF0, 0x90, 0xF0,
        0xF0, 0x90, 0xF0, 0x10, 0xF0, 0xF0, 0x90, 0xF0, 0x90, 0x90, 0xE0, 0x90, 0xE0, 0x90, 0xE0,
        0xF0, 0x80, 0x80, 0x80, 0xF0, 0xE0, 0x90, 0x90, 0x90, 0xE0, 0xF0, 0x80, 0xF0, 0x80, 0xF0,
        0xF0, 0x80, 0xF0, 0x80, 0x80,
    ];
    proof {
        assert(v@ =~= spec_digit_sprites());
    }
    v
}

/// A fresh machine: font at address 0, everything else zeroed, program
/// counter at the program base address.
pub open spec fn spec_new_machine() -> MachineState {
    MachineState {
        memory: Seq::new(4096, |i: int| if 0 <= i < 80 { spec_digit_sprites()[i] } else { 0u8 }),
        registers: Seq::new(16, |i: int| 0u8),
        register_i: 0,
        timer_delay: 0,
        timer_sound: 0,
        pc: 0x200,
        sp: 0,
        stack: Seq::new(16, |i: int| 0u16),
        display: Seq::new(2048, |i: int| 0u8),
        keys: Seq::new(16, |i: int| false),
        needs_clear: false,
        hold_for_key: None,
    }
}

/// Memory after loading `prog` contiguously at the program base address.
pub open spec fn spec_loaded_memory(memory: Seq<u8>, prog: Seq<u8>) -> Seq<u8> {
    Seq::new(
        4096,
        |i: int|
            if 0x200 <= i < 0x200 + prog.len() {
                prog[i - 0x200]
            } else {
                memory[i]
            },
    )
}

impl Machine {
    /// Builds a fresh machine with the font loaded and all state cleared.
    pub fn new() -> (m: Machine)
        ensures
            m@ == spec_new_machine(),
            state_wf(m@),
    {
        let sprites = get_digit_sprites();
        let mut memory: Vec<u8> = vec![0u8; 4096];
        let mut i: usize = 0;
        while i < 80
            invariant
                sprites@ == spec_digit_sprites(),
                memory@.len() == 4096,
                i <= 80,
                forall|j: int| 0 <= j < i ==> memory@[j] == spec_digit_sprites()[j],
                forall|j: int| i <= j < 4096 ==> memory@[j] == 0u8,
            decreases 80 - i,
        {
            memory[i] = sprites[i];
            i += 1;
        }
        let m = Machine {
            memory,
            registers: vec![0u8; 16],
            register_i: 0,
            timer_delay: 0,
            timer_sound: 0,
            pc: 0x200,
            sp: 0,
            stack: vec![0u16; 16],
            display: vec![0u8; 2048],
            keys: vec![false; 16],
            needs_clear: false,
            hold_for_key: None,
        };
        proof {
            assert(m@.memory =~= spec_new_machine().memory);
            assert(m@.registers =~= spec_new_machine().registers);
            assert(m@.stack =~= spec_new_machine().stack);
            assert(m@.display =~= spec_new_machine().display);
            assert(m@.keys =~= spec_new_machine().keys);
            assert(m@ =~= spec_new_machine());
        }
        m
    }

    /// Whether this machine is well formed; established by `new` and
    /// preserved by every operation.
    pub open spec fn wf(&self) -> bool {
        state_wf(self@)
    }

    /// Loads a program image at the program base address. Returns `false`,
    /// leaving the machine unchanged, when the image would not fit in the
    /// 0xE00 bytes of program memory.
    pub fn load_program(&mut self, prog: &Vec<u8>) -> (ok: bool)
        requires
            old(self).wf(),
        ensures
            final(self).wf(),
            ok <==> prog@.len() <= 0xE00,
            ok ==> final(self)@ == (MachineState {
                memory: spec_loaded_memory(old(self)@.memory, prog@),
                ..old(self)@
            }),
            !ok ==> final(self)@ == old(self)@,
    {
        if prog.len() > 0xE00 {
            return false;
        }
        let mut i: usize = 0;
        while i < prog.len()
            invariant
                self.wf(),
                prog@.len() <= 0xE00,
                i <= prog@.len(),
                self@.memory.len() == 4096,
                forall|j: int|
                    0 <= j < 4096 && !(0x200 <= j < 0x200 + i) ==> self@.memory[j] == old(
                        self,
                    )@.memory[j],
                forall|j: int| 0x200 <= j < 0x200 + i ==> self@.memory[j] == prog@[j - 0x200],
                self@.registers == old(self)@.registers,
                self@.register_i == old(self)@.register_i,
                self@.timer_delay == old(self)@.timer_delay,
                self@.timer_sound == old(self)@.timer_sound,
                self@.pc == old(self)@.pc,
                self@.sp == old(self)@.sp,
                self@.stack == old(self)@.stack,
                self@.display == old(self)@.display,
                self@.keys == old(self)@.keys,
                self@.needs_clear == old(self)@.needs_clear,
                self@.hold_for_key == old(self)@.hold_for_key,
            decreases prog@.len() - i,
        {
            self.memory[0x200 + i] = prog[i];
            i += 1;
        }
        proof {
            assert(self@.memory =~= spec_loaded_memory(old(self)@.memory, prog@));
            assert(self@ =~= MachineState {
                memory: spec_loaded_memory(old(self)@.memory, prog@),
                ..old(self)@
            });
        }
        true
    }

    /// A machine after one external timer tick: both timers decremented,
    /// stopping at zero.
    pub open spec fn spec_tick(s: MachineState) -> MachineState {
        MachineState {
            timer_delay: if s.timer_delay > 0 {
                (s.timer_delay - 1) as u8
            } else {
                0
            },
            timer_sound: if s.timer_sound > 0 {
                (s.timer_sound - 1) as u8
            } else {
                0
            },
            ..s
        }
    }

    /// One external 60Hz tick: decrements both timers, stopping at zero.
    /// Driven by the collaborator once per frame, independently of how many
    /// instruction cycles run in that frame.
    pub fn tick_timers(&mut self)
        requires
            old(self).wf(),
        ensures
            final(self).wf(),
            final(self)@ == Machine::spec_tick(old(self)@),
    {
        if self.timer_delay > 0 {
            self.timer_delay = self.timer_delay - 1;
        }
        if self.timer_sound > 0 {
            self.timer_sound = self.timer_sound - 1;
        }
        proof {
            assert(self@ =~= Machine::spec_tick(old(self)@));
        }
    }

    /// Whether a tone should currently be playing: exactly while the sound
    /// timer is nonzero.
    pub fn sound_playing(&self) -> (r: bool)
        ensures
            r <==> self@.timer_sound > 0,
    {
        self.timer_sound > 0
    }

    /// A machine after recording that key `index` is down or up. A key
    /// index outside the 16 keys changes nothing.
    pub open spec fn spec_set_key(s: MachineState, index: u8, pressed: bool) -> MachineState {
        if index < 16 {
            MachineState { keys: s.keys.update(index as int, pressed), ..s }
        } else {
            s
        }
    }

    /// Records the key-down state of key `index`; indices outside the 16
    /// keys are ignored.
    pub fn set_key(&mut self, index: u8, pressed: bool)
        requires
            old(self).wf(),
        ensures
            final(self).wf(),
            final(self)@ == Machine::spec_set_key(old(self)@, index, pressed),
    {
        if index < 16 {
            self.keys[index as usize] = pressed;
        }
        proof {
            assert(self@ =~= Machine::spec_set_key(old(self)@, index, pressed));
        }
    }

    /// A machine after a press of key `index`: the key goes down, and a
    /// pending key wait is resolved by storing the key index in the waiting
    /// register and returning to normal execution.
    pub open spec fn spec_press_key(s: MachineState, index: u8) -> MachineState {
        if index < 16 {
            let resolved = match s.hold_for_key {
                Some(r) => MachineState {
                    registers: s.registers.update(r as int, index),
                    hold_for_key: None,
                    ..s
                },
                None => s,
            };
            MachineState { keys: resolved.keys.update(index as int, true), ..resolved }
        } else {
            s
        }
    }

    /// A key-press event: marks key `index` as down and, if the machine is
    /// suspended waiting for a key, stores the index into the waiting
    /// register and resumes execution. Indices outside the 16 keys are
    /// ignored.
    pub fn press_key(&mut self, index: u8)
        requires
            old(self).wf(),
        ensures
            final(self).wf(),
            final(self)@ == Machine::spec_press_key(old(self)@, index),
    {
        if index < 16 {
            if let Some(r) = self.hold_for_key {
                self.registers[r as usize] = index;
                self.hold_for_key = None;
            }
            self.keys[index as usize] = true;
        }
        proof {
            assert(self@ =~= Machine::spec_press_key(old(self)@, index));
        }
    }

    /// A machine after honouring a pending clear-display request: all
    /// pixels cleared and the request reset. Without a pending request,
    /// unchanged.
    pub open spec fn spec_apply_clear(s: MachineState) -> MachineState {
        if s.needs_clear {
            MachineState {
                display: Seq::new(2048, |i: int| 0u8),
                needs_clear: false,
                ..s
            }
        } else {
            s
        }
    }

    /// Honours a pending clear-display request by blanking the display.
    pub fn apply_clear(&mut self)
        requires
            old(self).wf(),
        ensures
            final(self).wf(),
            final(self)@ == Machine::spec_apply_clear(old(self)@),
    {
        if self.needs_clear {
            self.display = vec![0u8; 2048];
            self.needs_clear = false;
            proof {
                assert(self@.display =~= Machine::spec_apply_clear(old(self)@).display);
            }
        }
        proof {
            assert(self@ =~= Machine::spec_apply_clear(old(self)@));
        }
    }
}

} // verus!
