use chip8::error::Chip8Error;
use chip8::machine::{Chip8, StepOutcome};
use chip8::stack::Stack;
use chip8::timers::Timers;

fn continued(redraw: bool) -> StepOutcome {
    StepOutcome::Continued { redraw }
}

#[test]
fn stack_round_trip() {
    let mut stack = Stack::new();
    stack.push(200);
    assert_eq!(stack.ret(), Ok(200));
    assert_eq!(stack.stack().len(), 0);
    assert_eq!(stack.ret(), Err(Chip8Error::StackUnderflow));
}

#[test]
fn ret_on_empty_stack_faults() {
    let mut chip8 = Chip8::new();
    let program = vec![0x00, 0xEE];
    chip8.load_from_vec(&program).unwrap();

    let outcome = chip8.step(false);
    assert_eq!(
        outcome,
        StepOutcome::Faulted(Chip8Error::StackUnderflow),
        "a return with nothing on the stack is a fatal fault, not a silent no-op"
    );
}

#[test]
fn timers_count_down_to_zero_and_stay() {
    let mut timers = Timers::new();
    timers.set_delay(5);
    for _ in 0..5 {
        timers.tick();
    }
    assert_eq!(timers.delay(), 0);
    timers.tick();
    assert_eq!(timers.delay(), 0, "a sixth tick must not wrap below zero");
    assert_eq!(timers.sound(), 0);
}

#[test]
fn add_registers_end_to_end() {
    // load 10 into V0, 5 into V1, add V1 into V0
    let mut chip8 = Chip8::new();
    let program = vec![0x60, 0x0A, 0x61, 0x05, 0x80, 0x14];
    chip8.load_from_vec(&program).unwrap();

    for _ in 0..3 {
        let outcome = chip8.step(false);
        assert_eq!(outcome, continued(false));
    }
    assert_eq!(chip8.v[0], 15);
    assert_eq!(chip8.v[0xF], 0);
}

#[test]
fn add_registers_overflow_end_to_end() {
    // V[0xF] = 255, V0 = 1, add V[0xF] into V0: wraps to 0 with the flag set
    let mut chip8 = Chip8::new();
    let program = vec![0x6F, 0xFF, 0x60, 0x01, 0x80, 0xF4];
    chip8.load_from_vec(&program).unwrap();

    for _ in 0..3 {
        chip8.step(false);
    }
    assert_eq!(chip8.v[0], 0);
    assert_eq!(chip8.v[0xF], 1);
}

#[test]
fn self_jump_never_halts() {
    // jump to 0x200, which is the jump itself
    let mut chip8 = Chip8::new();
    let program = vec![0x12, 0x00];
    chip8.load_from_vec(&program).unwrap();

    for _ in 0..100 {
        let outcome = chip8.step(true);
        assert_eq!(outcome, continued(false));
        assert_eq!(chip8.pc, 0x200);
    }
}

#[test]
fn running_off_the_end_halts() {
    let mut chip8 = Chip8::new();
    chip8.pc = 4095;
    assert_eq!(chip8.step(false), StepOutcome::Halted);
    assert_eq!(chip8.pc, 4095, "a halted machine does not move");
}

#[test]
fn draw_sets_pixels_and_reports_collision() {
    let mut chip8 = Chip8::new();
    // one sprite row 0xF0 at I = 0x300, drawn at (0, 0)
    chip8.memory[0x300] = 0xF0;
    chip8.i = 0x300;
    chip8.opcode.set_from_u16(0xD011);

    chip8.drw_dxyn().unwrap();
    for col in 0..4 {
        assert_eq!(chip8.screen.vram()[0][col], 1);
    }
    for col in 4..64 {
        assert_eq!(chip8.screen.vram()[0][col], 0);
    }
    assert_eq!(chip8.v[0xF], 0, "nothing was set before, so no collision");
    assert!(chip8.need_redraw);
}

#[test]
fn draw_twice_restores_the_screen() {
    let mut chip8 = Chip8::new();
    chip8.memory[0x300] = 0xA5;
    chip8.memory[0x301] = 0x5A;
    chip8.i = 0x300;
    chip8.v[0] = 3;
    chip8.v[1] = 7;
    chip8.opcode.set_from_u16(0xD012);

    chip8.drw_dxyn().unwrap();
    assert_eq!(chip8.v[0xF], 0);
    chip8.drw_dxyn().unwrap();
    assert_eq!(
        chip8.v[0xF], 1,
        "the second draw collides with everything the first one set"
    );
    let blank = vec![vec![0u8; 64]; 32];
    assert_eq!(chip8.screen.vram(), &blank);
}

#[test]
fn draw_wraps_at_the_far_corner() {
    let mut chip8 = Chip8::new();
    // sprite 0xC0: columns 0 and 1 set; drawn at (63, 31)
    chip8.memory[0x300] = 0xC0;
    chip8.i = 0x300;
    chip8.v[0] = 63;
    chip8.v[1] = 31;
    chip8.opcode.set_from_u16(0xD011);

    chip8.drw_dxyn().unwrap();
    assert_eq!(chip8.screen.vram()[31][63], 1);
    assert_eq!(chip8.screen.vram()[31][0], 1, "column 64 wraps to column 0");
    let lit: usize = chip8
        .screen
        .vram()
        .iter()
        .map(|row| row.iter().filter(|&&p| p == 1).count())
        .sum();
    assert_eq!(lit, 2, "no other pixel is touched");
}

#[test]
fn draw_out_of_bounds_faults() {
    let mut chip8 = Chip8::new();
    chip8.i = 4095;
    chip8.opcode.set_from_u16(0xD012);
    assert_eq!(chip8.drw_dxyn(), Err(Chip8Error::OutOfBounds));
}

#[test]
fn random_masked_with_zero_is_zero() {
    // the random byte is ANDed with nn; nn = 0 forces V0 = 0
    let mut chip8 = Chip8::new();
    chip8.v[0] = 0xFF;
    chip8.opcode.set_from_u16(0xC000);
    chip8.rnd_cxnn();
    assert_eq!(chip8.v[0], 0);
}

#[test]
fn random_masked_with_one_bit() {
    let mut chip8 = Chip8::new();
    chip8.opcode.set_from_u16(0xC001);
    chip8.rnd_cxnn();
    assert!(chip8.v[0] <= 1);
}

#[test]
fn load_program_too_large_is_rejected() {
    let mut chip8 = Chip8::new();
    let too_big = vec![0u8; 4096 - 0x200 + 1];
    assert_eq!(
        chip8.load_from_vec(&too_big),
        Err(Chip8Error::ProgramTooLarge)
    );
    assert_eq!(chip8.memory[0x200], 0, "a rejected load writes nothing");

    let just_fits = vec![0x11u8; 4096 - 0x200];
    assert_eq!(chip8.load_from_vec(&just_fits), Ok(()));
    assert_eq!(chip8.memory[0x200], 0x11);
    assert_eq!(chip8.memory[4095], 0x11);
}

#[test]
fn bcd_stores_three_digits() {
    let mut chip8 = Chip8::new();
    chip8.v[2] = 254;
    chip8.i = 0x300;
    chip8.opcode.set_from_u16(0xF233);
    chip8.ld_fx33().unwrap();
    assert_eq!(chip8.memory[0x300], 2);
    assert_eq!(chip8.memory[0x301], 5);
    assert_eq!(chip8.memory[0x302], 4);
}

#[test]
fn bcd_out_of_bounds_faults() {
    let mut chip8 = Chip8::new();
    chip8.i = 4094;
    chip8.opcode.set_from_u16(0xF033);
    assert_eq!(chip8.ld_fx33(), Err(Chip8Error::OutOfBounds));
}

#[test]
fn register_dump_and_load_round_trip() {
    let mut chip8 = Chip8::new();
    for k in 0..4 {
        chip8.v[k] = (10 + k) as u8;
    }
    chip8.i = 0x300;
    chip8.opcode.set_from_u16(0xF355);
    chip8.ld_fx55().unwrap();
    for k in 0..4 {
        assert_eq!(chip8.memory[0x300 + k], (10 + k) as u8);
    }
    assert_eq!(chip8.memory[0x304], 0, "V4 is not dumped by x = 3");

    for k in 0..4 {
        chip8.v[k] = 0;
    }
    chip8.opcode.set_from_u16(0xF365);
    chip8.ld_fx65().unwrap();
    for k in 0..4 {
        assert_eq!(chip8.v[k], (10 + k) as u8);
    }
}

#[test]
fn glyph_index_points_into_the_font() {
    let mut chip8 = Chip8::new();
    chip8.v[3] = 0xA;
    chip8.opcode.set_from_u16(0xF329);
    chip8.ld_fx29();
    assert_eq!(chip8.i, 0xA * 5);
    // the glyph for 0xA starts with row 0xF0 in the reserved region
    assert_eq!(chip8.memory[chip8.i], 0xF0);
}

#[test]
fn add_index_keeps_sixteen_bits() {
    let mut chip8 = Chip8::new();
    chip8.i = 0xFFFF;
    chip8.v[0] = 2;
    chip8.opcode.set_from_u16(0xF01E);
    chip8.add_fx1e();
    assert_eq!(chip8.i, 1, "the index register wraps at 16 bits");
}

#[test]
fn wait_key_suspends_until_a_fresh_press() {
    // wait for a key, store it in V0
    let mut chip8 = Chip8::new();
    let program = vec![0xF0, 0x0A];
    chip8.load_from_vec(&program).unwrap();

    assert_eq!(chip8.step(false), continued(false));
    assert_eq!(chip8.pc, 0x202);

    // no key: the machine stays suspended and pc does not move
    assert_eq!(chip8.step(false), continued(false));
    assert_eq!(chip8.pc, 0x202);
    assert_eq!(chip8.v[0], 0);

    // a held key without an edge is not enough: report it twice
    let mut held = vec![false; 16];
    held[5] = true;
    chip8.set_keys(&held);
    chip8.set_keys(&held);
    assert_eq!(chip8.step(false), continued(false));
    assert_eq!(chip8.v[0], 0, "a held key is not a fresh press");

    // release, then press again: that edge resumes the machine
    let released = vec![false; 16];
    chip8.set_keys(&released);
    chip8.set_keys(&held);
    assert_eq!(chip8.step(false), continued(false));
    assert_eq!(chip8.v[0], 5);

    // and the machine keeps stepping normally afterwards
    assert_eq!(chip8.step(false), StepOutcome::Continued { redraw: false });
    assert_eq!(chip8.pc, 0x204);
}

#[test]
fn timers_keep_counting_while_suspended() {
    let mut chip8 = Chip8::new();
    let program = vec![0xF0, 0x0A];
    chip8.load_from_vec(&program).unwrap();
    chip8.timers.set_delay(3);

    chip8.step(true);
    chip8.step(true);
    assert_eq!(chip8.timers.delay(), 1);
}

#[test]
fn skip_if_key_pressed() {
    let mut chip8 = Chip8::new();
    chip8.v[0] = 4;
    let mut keys = vec![false; 16];
    keys[4] = true;
    chip8.set_keys(&keys);

    chip8.opcode.set_from_u16(0xE09E);
    let pc = chip8.pc;
    chip8.skp_ex9e();
    assert_eq!(chip8.pc, pc + 2);

    let pc = chip8.pc;
    chip8.sknp_exa1();
    assert_eq!(chip8.pc, pc, "the key is down, so skip-if-released stays");

    chip8.v[0] = 7;
    let pc = chip8.pc;
    chip8.skp_ex9e();
    assert_eq!(chip8.pc, pc);
    chip8.sknp_exa1();
    assert_eq!(chip8.pc, pc + 2);
}

#[test]
fn delay_timer_reads_back_through_registers() {
    let mut chip8 = Chip8::new();
    // V0 = 7, set delay from V0, read delay into V3
    let program = vec![0x60, 0x07, 0xF0, 0x15, 0xF3, 0x07];
    chip8.load_from_vec(&program).unwrap();
    for _ in 0..3 {
        chip8.step(false);
    }
    assert_eq!(chip8.v[3], 7);
    assert_eq!(chip8.timers.delay(), 7);
}

#[test]
fn sound_active_follows_the_sound_timer() {
    let mut chip8 = Chip8::new();
    assert!(!chip8.sound_active());
    chip8.timers.set_sound(2);
    assert!(chip8.sound_active());
    chip8.timers.tick();
    chip8.timers.tick();
    assert!(!chip8.sound_active());
}

#[test]
fn redraw_signal_is_set_by_drawing_and_cleared_by_the_host() {
    let mut chip8 = Chip8::new();
    // clear-screen marks a redraw
    let program = vec![0x00, 0xE0];
    chip8.load_from_vec(&program).unwrap();
    assert_eq!(chip8.step(false), continued(true));
    assert!(chip8.need_redraw);
    chip8.clear_redraw();
    assert!(!chip8.need_redraw);
    assert_eq!(chip8.framebuffer_snapshot()[0][0], 0);
}

#[test]
fn unknown_opcodes_are_no_ops() {
    let mut chip8 = Chip8::new();
    // 0x0123, 0x8AB8, 0xE0FF, 0xF0FF: unknown patterns inside known families
    let program = vec![0x01, 0x23, 0x8A, 0xB8, 0xE0, 0xFF, 0xF0, 0xFF];
    chip8.load_from_vec(&program).unwrap();
    let v_before = chip8.v.clone();
    for k in 0..4 {
        assert_eq!(chip8.step(false), continued(false));
        assert_eq!(chip8.pc, 0x202 + 2 * k);
    }
    assert_eq!(chip8.v, v_before);
}
