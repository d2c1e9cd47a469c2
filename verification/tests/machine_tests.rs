use chip8::assembler::assemble;
use chip8::cpu::ExecError;
use chip8::instr::{decode_instr, encode_instr, Instr};
use chip8::machine::{get_digit_sprites, Machine};

fn machine_with(words: &[u16]) -> Machine {
    let mut bytes: Vec<u8> = Vec::new();
    for w in words {
        bytes.push((w / 256) as u8);
        bytes.push((w % 256) as u8);
    }
    let mut m = Machine::new();
    assert!(m.load_program(&bytes));
    m
}

#[test]
fn new_machine_has_font_and_reset_state() {
    let m = Machine::new();
    let font = get_digit_sprites();
    assert_eq!(font.len(), 80);
    for i in 0..80 {
        assert_eq!(m.memory[i], font[i]);
    }
    for i in 80..4096 {
        assert_eq!(m.memory[i], 0);
    }
    assert_eq!(m.pc, 0x200);
    assert_eq!(m.sp, 0);
    assert_eq!(m.registers, vec![0u8; 16]);
    assert_eq!(m.display.len(), 2048);
    assert_eq!(m.hold_for_key, None);
}

#[test]
fn load_program_rejects_oversized_image() {
    let mut m = Machine::new();
    let too_big = vec![0u8; 0xE01];
    assert!(!m.load_program(&too_big));
    let fits = vec![0xAAu8; 0xE00];
    assert!(m.load_program(&fits));
    assert_eq!(m.memory[0x200], 0xAA);
    assert_eq!(m.memory[0xFFF], 0xAA);
}

#[test]
fn assembled_program_runs_two_cycles() {
    // Assemble, load at 0x200, run two cycles: V0 holds 5 + 3 and the
    // program counter sits past both instructions.
    let bytes = assemble("LD V0, 0x05\nADD V0, 0x03\n").unwrap();
    let mut m = Machine::new();
    assert!(m.load_program(&bytes));
    m.step_with(0).unwrap();
    m.step_with(0).unwrap();
    assert_eq!(m.registers[0], 0x08);
    assert_eq!(m.pc, 0x204);
}

#[test]
fn key_wait_halts_until_a_key_press_resolves_it() {
    // LD V4, K suspends the cycle loop; the program counter must not
    // advance until a key press stores the key index in V4.
    let mut m = machine_with(&[0xF40A, 0x7401]);
    m.step_with(0).unwrap();
    assert_eq!(m.pc, 0x202);
    assert_eq!(m.hold_for_key, Some(4));
    for _ in 0..5 {
        m.step_with(0).unwrap();
        assert_eq!(m.pc, 0x202);
    }
    m.press_key(0xB);
    assert_eq!(m.hold_for_key, None);
    assert_eq!(m.registers[4], 0xB);
    assert!(m.keys[0xB]);
    m.step_with(0).unwrap();
    assert_eq!(m.pc, 0x204);
    assert_eq!(m.registers[4], 0xC);
}

#[test]
fn sub_saturates_and_sets_not_borrow_flag() {
    // 9 - 5: no borrow, flag 1.
    let mut m = machine_with(&[0x8015]);
    m.registers[0] = 9;
    m.registers[1] = 5;
    m.step_with(0).unwrap();
    assert_eq!(m.registers[0], 4);
    assert_eq!(m.registers[0xF], 1);

    // 5 - 9: borrow, flag 0, result saturated to 0 rather than wrapped.
    let mut m = machine_with(&[0x8015]);
    m.registers[0] = 5;
    m.registers[1] = 9;
    m.step_with(0).unwrap();
    assert_eq!(m.registers[0], 0);
    assert_eq!(m.registers[0xF], 0);

    // Equal values: flag 0 and result 0.
    let mut m = machine_with(&[0x8015]);
    m.registers[0] = 7;
    m.registers[1] = 7;
    m.step_with(0).unwrap();
    assert_eq!(m.registers[0], 0);
    assert_eq!(m.registers[0xF], 0);
}

#[test]
fn subn_saturates_with_reversed_operands() {
    let mut m = machine_with(&[0x8017]);
    m.registers[0] = 2;
    m.registers[1] = 9;
    m.step_with(0).unwrap();
    assert_eq!(m.registers[0], 7);
    assert_eq!(m.registers[0xF], 1);

    let mut m = machine_with(&[0x8017]);
    m.registers[0] = 9;
    m.registers[1] = 2;
    m.step_with(0).unwrap();
    assert_eq!(m.registers[0], 0);
    assert_eq!(m.registers[0xF], 0);
}

#[test]
fn add_reg_sets_carry_and_truncates() {
    let mut m = machine_with(&[0x8014]);
    m.registers[0] = 0xFF;
    m.registers[1] = 0x02;
    m.step_with(0).unwrap();
    assert_eq!(m.registers[0], 0x01);
    assert_eq!(m.registers[0xF], 1);

    let mut m = machine_with(&[0x8014]);
    m.registers[0] = 0x10;
    m.registers[1] = 0x02;
    m.step_with(0).unwrap();
    assert_eq!(m.registers[0], 0x12);
    assert_eq!(m.registers[0xF], 0);
}

#[test]
fn add_byte_truncates_without_flag() {
    let mut m = machine_with(&[0x70FF]);
    m.registers[0] = 0x02;
    m.registers[0xF] = 0xAB;
    m.step_with(0).unwrap();
    assert_eq!(m.registers[0], 0x01);
    assert_eq!(m.registers[0xF], 0xAB);
}

#[test]
fn shifts_capture_the_bit_shifted_out() {
    // SHR: low bit to the flag, value halved.
    let mut m = machine_with(&[0x8106]);
    m.registers[1] = 0x05;
    m.step_with(0).unwrap();
    assert_eq!(m.registers[1], 0x02);
    assert_eq!(m.registers[0xF], 1);

    // SHL: high bit to the flag, value doubled with truncation.
    let mut m = machine_with(&[0x810E]);
    m.registers[1] = 0x81;
    m.step_with(0).unwrap();
    assert_eq!(m.registers[1], 0x02);
    assert_eq!(m.registers[0xF], 1);
}

#[test]
fn skips_and_jumps_steer_the_program_counter() {
    let mut m = machine_with(&[0x3007]);
    m.registers[0] = 7;
    m.step_with(0).unwrap();
    assert_eq!(m.pc, 0x204);

    let mut m = machine_with(&[0x3007]);
    m.registers[0] = 8;
    m.step_with(0).unwrap();
    assert_eq!(m.pc, 0x202);

    let mut m = machine_with(&[0x1400]);
    m.step_with(0).unwrap();
    assert_eq!(m.pc, 0x400);

    let mut m = machine_with(&[0xB3F0]);
    m.registers[0] = 0x0A;
    m.step_with(0).unwrap();
    assert_eq!(m.pc, 0x3FA);
}

#[test]
fn call_and_ret_use_the_stack() {
    let mut m = machine_with(&[0x2206, 0x0000, 0x0000, 0x00EE]);
    m.step_with(0).unwrap();
    assert_eq!(m.pc, 0x206);
    assert_eq!(m.sp, 1);
    assert_eq!(m.stack[1], 0x202);
    m.step_with(0).unwrap();
    assert_eq!(m.pc, 0x202);
    assert_eq!(m.sp, 0);
}

#[test]
fn stack_underflow_and_overflow_are_fatal() {
    let mut m = machine_with(&[0x00EE]);
    assert_eq!(m.step_with(0), Err(ExecError::StackUnderflow));
    assert_eq!(m.pc, 0x200);

    // Each CALL jumps back to itself; the sixteenth push exceeds the
    // fifteen available frames.
    let mut m = machine_with(&[0x2200]);
    for _ in 0..15 {
        m.step_with(0).unwrap();
    }
    assert_eq!(m.sp, 15);
    assert_eq!(m.step_with(0), Err(ExecError::StackOverflow));
}

#[test]
fn rnd_masks_the_random_byte() {
    // With mask 0x00 every random byte yields zero.
    let mut m = machine_with(&[0xC500]);
    m.registers[5] = 0xAA;
    m.step_with(0xFF).unwrap();
    assert_eq!(m.registers[5], 0x00);

    // The supplied byte is masked with kk.
    let mut m = machine_with(&[0xC50F]);
    m.step_with(0xAB).unwrap();
    assert_eq!(m.registers[5], 0x0B);
}

#[test]
fn drw_draws_xors_and_reports_collision() {
    let mut m = machine_with(&[0xD011, 0xD011]);
    m.memory[0x300] = 0b1010_0000;
    m.register_i = 0x300;
    m.registers[0] = 4;
    m.registers[1] = 2;
    m.step_with(0).unwrap();
    assert_eq!(m.display[2 * 64 + 4], 1);
    assert_eq!(m.display[2 * 64 + 5], 0);
    assert_eq!(m.display[2 * 64 + 6], 1);
    assert_eq!(m.registers[0xF], 0);
    // Drawing the same sprite again erases it: every pixel collides.
    m.step_with(0).unwrap();
    assert_eq!(m.display[2 * 64 + 4], 0);
    assert_eq!(m.display[2 * 64 + 6], 0);
    assert_eq!(m.registers[0xF], 1);
}

#[test]
fn drw_wraps_at_the_display_edges() {
    // A 2x2 sprite drawn at the last column and row lands on all four
    // display corners instead of indexing out of bounds.
    let mut m = machine_with(&[0xD012]);
    m.memory[0x300] = 0b1100_0000;
    m.memory[0x301] = 0b1100_0000;
    m.register_i = 0x300;
    m.registers[0] = 63;
    m.registers[1] = 31;
    m.step_with(0).unwrap();
    assert_eq!(m.display[31 * 64 + 63], 1);
    assert_eq!(m.display[31 * 64 + 0], 1);
    assert_eq!(m.display[0 * 64 + 63], 1);
    assert_eq!(m.display[0 * 64 + 0], 1);
    assert_eq!(m.registers[0xF], 0);
}

#[test]
fn block_transfers_touch_exactly_x_plus_one_cells() {
    // LD [I], V2 stores V0..=V2 and nothing else; I is unchanged.
    let mut m = machine_with(&[0xF255]);
    m.registers[0] = 0x11;
    m.registers[1] = 0x22;
    m.registers[2] = 0x33;
    m.registers[3] = 0x44;
    m.register_i = 0x400;
    m.step_with(0).unwrap();
    assert_eq!(m.memory[0x400], 0x11);
    assert_eq!(m.memory[0x401], 0x22);
    assert_eq!(m.memory[0x402], 0x33);
    assert_eq!(m.memory[0x403], 0x00);
    assert_eq!(m.register_i, 0x400);

    // LD V2, [I] fills V0..=V2 and leaves V3 alone; I is unchanged.
    let mut m = machine_with(&[0xF265]);
    m.memory[0x400] = 0xA1;
    m.memory[0x401] = 0xA2;
    m.memory[0x402] = 0xA3;
    m.memory[0x403] = 0xA4;
    m.registers[3] = 0x77;
    m.register_i = 0x400;
    m.step_with(0).unwrap();
    assert_eq!(m.registers[0], 0xA1);
    assert_eq!(m.registers[1], 0xA2);
    assert_eq!(m.registers[2], 0xA3);
    assert_eq!(m.registers[3], 0x77);
    assert_eq!(m.register_i, 0x400);
}

#[test]
fn bcd_stores_three_decimal_digits() {
    let mut m = machine_with(&[0xF333]);
    m.registers[3] = 254;
    m.register_i = 0x500;
    m.step_with(0).unwrap();
    assert_eq!(m.memory[0x500], 2);
    assert_eq!(m.memory[0x501], 5);
    assert_eq!(m.memory[0x502], 4);
}

#[test]
fn font_addressing_and_timers() {
    let mut m = machine_with(&[0xF729, 0xF715, 0xF818]);
    m.registers[7] = 0x0A;
    m.registers[8] = 2;
    m.step_with(0).unwrap();
    assert_eq!(m.register_i, 50);
    m.step_with(0).unwrap();
    assert_eq!(m.timer_delay, 0x0A);
    m.step_with(0).unwrap();
    assert_eq!(m.timer_sound, 2);
    assert!(m.sound_playing());
    m.tick_timers();
    assert_eq!(m.timer_delay, 0x09);
    assert_eq!(m.timer_sound, 1);
    m.tick_timers();
    m.tick_timers();
    assert_eq!(m.timer_sound, 0);
    assert!(!m.sound_playing());
}

#[test]
fn add_i_widens_without_masking() {
    let mut m = machine_with(&[0xF01E]);
    m.register_i = 0xFFE;
    m.registers[0] = 5;
    m.step_with(0).unwrap();
    assert_eq!(m.register_i, 0x1003);
}

#[test]
fn key_skips_consult_the_key_state() {
    let mut m = machine_with(&[0xE59E]);
    m.registers[5] = 3;
    m.set_key(3, true);
    m.step_with(0).unwrap();
    assert_eq!(m.pc, 0x204);

    let mut m = machine_with(&[0xE5A1]);
    m.registers[5] = 3;
    m.step_with(0).unwrap();
    assert_eq!(m.pc, 0x204);

    let mut m = machine_with(&[0xE59E]);
    m.registers[5] = 0x20;
    assert_eq!(m.step_with(0), Err(ExecError::KeyOutOfRange));
}

#[test]
fn cls_requests_a_clear_and_apply_clear_honours_it() {
    let mut m = machine_with(&[0x00E0]);
    m.display[100] = 1;
    m.step_with(0).unwrap();
    assert!(m.needs_clear);
    assert_eq!(m.display[100], 1);
    m.apply_clear();
    assert!(!m.needs_clear);
    assert_eq!(m.display[100], 0);
}

#[test]
fn unknown_opcodes_are_no_ops() {
    for w in [0x5001u16, 0x8008, 0x9005, 0xE000, 0xF0FF, 0x0123] {
        let mut m = machine_with(&[w]);
        let regs = m.registers.clone();
        m.step_with(0).unwrap();
        assert_eq!(m.pc, 0x202);
        assert_eq!(m.registers, regs);
    }
}

#[test]
fn fetch_past_end_of_memory_is_fatal() {
    let mut m = Machine::new();
    m.pc = 0xFFF;
    assert_eq!(m.step_with(0), Err(ExecError::MemoryOutOfRange));
}

#[test]
fn drw_read_past_end_of_memory_is_fatal() {
    let mut m = machine_with(&[0xD015]);
    m.register_i = 0xFFE;
    assert_eq!(m.step_with(0), Err(ExecError::MemoryOutOfRange));
}

#[test]
fn run_frame_runs_eight_cycles_and_ticks_timers() {
    // Ten ADD V0, 1 instructions; one frame executes exactly eight.
    let words = [0x7001u16; 10];
    let mut m = machine_with(&words);
    m.timer_delay = 5;
    m.run_frame().unwrap();
    assert_eq!(m.registers[0], 8);
    assert_eq!(m.pc, 0x210);
    assert_eq!(m.timer_delay, 4);
}

#[test]
fn run_frame_halts_while_waiting_for_a_key() {
    let mut m = machine_with(&[0xF00A, 0x7001]);
    m.run_frame().unwrap();
    assert_eq!(m.hold_for_key, Some(0));
    let pc = m.pc;
    m.run_frame().unwrap();
    assert_eq!(m.pc, pc);
    assert_eq!(m.registers[0], 0);
}

#[test]
fn opcode_words_survive_the_decode_encode_round_trip() {
    for w in [
        0x00E0u16, 0x00EE, 0x0FE9, 0x1E13, 0x25C1, 0x35FE, 0x4CD1, 0x51F0, 0x6D92, 0x70FF,
        0x8030, 0x8121, 0x8512, 0x82A3, 0x8CF4, 0x8085, 0x8106, 0x81C6, 0x8A67, 0x820E, 0x821E,
        0x90E0, 0xA46E, 0xBF12, 0xC4BC, 0xD5FC, 0xE59E, 0xEFA1, 0xFA07, 0xFA0A, 0xF415, 0xF418,
        0xFF1E, 0xFC29, 0xFB33, 0xFD55, 0xFC65, 0x5001, 0x800F, 0xFFFF,
    ] {
        let i = decode_instr(w);
        assert_eq!(encode_instr(&i), w);
    }
}

#[test]
fn decode_recognizes_documented_shapes() {
    assert_eq!(decode_instr(0x8106), Instr::Shr { x: 1, y: 0 });
    assert_eq!(decode_instr(0x81C6), Instr::Shr { x: 1, y: 0xC });
    assert_eq!(decode_instr(0xFD55), Instr::Store { x: 0xD });
    assert_eq!(decode_instr(0xFC65), Instr::Load { x: 0xC });
    assert_eq!(decode_instr(0xD5FC), Instr::Drw { x: 5, y: 0xF, n: 0xC });
    assert_eq!(decode_instr(0x35FE), Instr::SeByte { x: 5, kk: 0xFE });
    assert!(matches!(decode_instr(0x8009), Instr::Unknown { .. }));
}

#[test]
fn assembled_opcodes_execute_as_their_mnemonics_mean() {
    // The mnemonic form, assembled and then dispatched by the engine,
    // must reproduce the intended register mutation.
    let bytes = assemble("LD V1, 0x0A\nLD V2, 0x03\nSUB V1, V2\nSHL V1\n").unwrap();
    let mut m = Machine::new();
    assert!(m.load_program(&bytes));
    for _ in 0..4 {
        m.step_with(0).unwrap();
    }
    assert_eq!(m.registers[1], 14);
    assert_eq!(m.registers[0xF], 0);
}

#[test]
fn step_draws_a_random_byte_for_rnd() {
    // RND V0 with mask 0x00 stores 0 whatever byte the generator
    // returns; the cycle still advances the program counter.
    let mut m = machine_with(&[0xC000]);
    m.registers[0] = 0xAA;
    m.step().unwrap();
    assert_eq!(m.registers[0], 0);
    assert_eq!(m.pc, 0x202);

    // Whatever comes back, the stored value never exceeds the mask.
    let mut m = machine_with(&[0xC50F]);
    m.step().unwrap();
    assert!(m.registers[5] <= 0x0F);
}
