use chip8::cpu::{Cpu, Fault, LoadError};

fn boot(program: &[u8]) -> Cpu {
    let mut cpu = Cpu::new();
    cpu.load_program(&program.to_vec()).unwrap();
    cpu
}

fn run(cpu: &mut Cpu, cycles: usize) {
    for _ in 0..cycles {
        cpu.execute_cycle();
    }
}

#[test]
fn ld_then_add_registers() {
    let mut cpu = boot(&[0x60, 0x0A, 0x61, 0x14, 0x80, 0x14]);
    cpu.execute_cycle();
    assert_eq!(cpu.get_register_v()[0], 0x0A);
    cpu.execute_cycle();
    assert_eq!(cpu.get_register_v()[1], 0x14);
    cpu.execute_cycle();
    assert_eq!(cpu.get_register_v()[0], 0x1E);
    assert_eq!(cpu.get_register_v()[0xF], 0);
    assert_eq!(cpu.get_register_pc(), 0x206);
}

#[test]
fn call_then_ret() {
    let mut cpu = boot(&[0x22, 0x04, 0x00, 0x00, 0x00, 0xEE]);
    run(&mut cpu, 2);
    assert_eq!(cpu.get_sp(), 0);
    assert_eq!(cpu.get_register_pc(), 0x202);
}

#[test]
fn draw_reports_collision_and_restores() {
    // LD I,0x210; DRW V0,V0,5; JP 0x202; sprite of five 0xFF rows at 0x210.
    let mut program = vec![0xA2, 0x10, 0xD0, 0x05, 0x12, 0x02];
    program.resize(0x10, 0x00);
    program.extend_from_slice(&[0xFF, 0xFF, 0xFF, 0xFF, 0xFF]);
    let mut cpu = boot(&program);
    run(&mut cpu, 2);
    for y in 0..5 {
        for x in 0..8 {
            assert_eq!(cpu.get_display()[x + y * 64], 1);
        }
    }
    assert_eq!(cpu.get_register_v()[0xF], 0);
    run(&mut cpu, 2); // jump back, draw the same sprite again
    for y in 0..5 {
        for x in 0..8 {
            assert_eq!(cpu.get_display()[x + y * 64], 0);
        }
    }
    assert_eq!(cpu.get_register_v()[0xF], 1);
}

#[test]
fn draw_wraps_horizontally() {
    let mut program = vec![0x60, 0x3E, 0xA2, 0x10, 0xD0, 0x11];
    program.resize(0x10, 0x00);
    program.push(0xFF);
    let mut cpu = boot(&program);
    run(&mut cpu, 3);
    for j in 0..8 {
        let col = (62 + j) % 64;
        assert_eq!(cpu.get_display()[col], 1, "column {col}");
    }
    assert_eq!(cpu.get_display()[6], 0);
}

#[test]
fn bcd_spells_decimal_digits() {
    let mut cpu = boot(&[0x60, 0xAD, 0xA3, 0x00, 0xF0, 0x33]);
    run(&mut cpu, 3);
    assert_eq!(&cpu.get_memory()[0x300..0x303], &[1, 7, 3]);
}

#[test]
fn bcd_of_zero() {
    let mut cpu = boot(&[0x60, 0x00, 0xA3, 0x00, 0xF0, 0x33]);
    run(&mut cpu, 3);
    assert_eq!(&cpu.get_memory()[0x300..0x303], &[0, 0, 0]);
}

#[test]
fn key_wait_stalls_until_key_down() {
    let mut cpu = boot(&[0xF0, 0x0A]);
    cpu.execute_cycle();
    assert_eq!(cpu.get_register_pc(), 0x202);
    run(&mut cpu, 100);
    assert_eq!(cpu.get_register_pc(), 0x202);
    assert_eq!(cpu.get_register_v()[0], 0);
    cpu.key_down(7);
    cpu.execute_cycle();
    assert_eq!(cpu.get_register_v()[0], 7);
    // running again: the latch is cleared, the next opcode executes
    cpu.execute_cycle();
    assert_eq!(cpu.get_register_pc(), 0x204);
}

#[test]
fn key_held_at_latch_does_not_resolve() {
    let mut cpu = boot(&[0xF0, 0x0A]);
    cpu.key_down(4);
    cpu.execute_cycle(); // latch set while key 4 is already down
    run(&mut cpu, 10);
    assert_eq!(cpu.get_register_v()[0], 0);
    cpu.key_down(4); // no transition: still down
    run(&mut cpu, 10);
    assert_eq!(cpu.get_register_v()[0], 0);
    cpu.key_down(9);
    cpu.execute_cycle();
    assert_eq!(cpu.get_register_v()[0], 9);
}

#[test]
fn sub_with_borrow() {
    let mut cpu = boot(&[0x60, 0x05, 0x61, 0x0A, 0x80, 0x15]);
    run(&mut cpu, 3);
    assert_eq!(cpu.get_register_v()[0], 0xFB);
    assert_eq!(cpu.get_register_v()[0xF], 0);
}

#[test]
fn add_with_carry() {
    let mut cpu = boot(&[0x60, 0xFF, 0x61, 0x02, 0x80, 0x14]);
    run(&mut cpu, 3);
    assert_eq!(cpu.get_register_v()[0], 0x01);
    assert_eq!(cpu.get_register_v()[0xF], 1);
}

#[test]
fn shr_keeps_low_bit_in_vf() {
    let mut cpu = boot(&[0x60, 0x05, 0x80, 0x06]);
    run(&mut cpu, 2);
    assert_eq!(cpu.get_register_v()[0], 0x02);
    assert_eq!(cpu.get_register_v()[0xF], 1);
}

#[test]
fn shl_keeps_high_bit_in_vf() {
    let mut cpu = boot(&[0x60, 0x81, 0x80, 0x0E]);
    run(&mut cpu, 2);
    assert_eq!(cpu.get_register_v()[0], 0x02);
    assert_eq!(cpu.get_register_v()[0xF], 1);
}

#[test]
fn subn_subtracts_reversed() {
    let mut cpu = boot(&[0x60, 0x0A, 0x61, 0x0F, 0x80, 0x17]);
    run(&mut cpu, 3);
    assert_eq!(cpu.get_register_v()[0], 0x05);
    assert_eq!(cpu.get_register_v()[0xF], 1);
}

#[test]
fn or_and_xor() {
    let mut cpu = boot(&[0x60, 0x0C, 0x61, 0x0A, 0x80, 0x11]);
    run(&mut cpu, 3);
    assert_eq!(cpu.get_register_v()[0], 0x0E);
    let mut cpu = boot(&[0x60, 0x0C, 0x61, 0x0A, 0x80, 0x12]);
    run(&mut cpu, 3);
    assert_eq!(cpu.get_register_v()[0], 0x08);
    let mut cpu = boot(&[0x60, 0x0C, 0x61, 0x0A, 0x80, 0x13]);
    run(&mut cpu, 3);
    assert_eq!(cpu.get_register_v()[0], 0x06);
}

#[test]
fn pc_advances_by_two_outside_jumps() {
    let mut cpu = boot(&[0x65, 0x42]);
    cpu.execute_cycle();
    assert_eq!(cpu.get_register_pc(), 0x202);
    assert_eq!(cpu.get_register_v()[5], 0x42);
}

#[test]
fn skip_equal_immediate() {
    let mut cpu = boot(&[0x30, 0x00, 0x60, 0xFF, 0x60, 0x07]);
    run(&mut cpu, 2);
    assert_eq!(cpu.get_register_v()[0], 0x07);
    assert_eq!(cpu.get_register_pc(), 0x206);
}

#[test]
fn skip_on_key_state() {
    let mut cpu = boot(&[0x60, 0x03, 0xE0, 0x9E]);
    cpu.key_down(3);
    run(&mut cpu, 2);
    assert_eq!(cpu.get_register_pc(), 0x206);
    let mut cpu = boot(&[0x60, 0x03, 0xE0, 0x9E]);
    run(&mut cpu, 2);
    assert_eq!(cpu.get_register_pc(), 0x204);
    let mut cpu = boot(&[0x60, 0x03, 0xE0, 0xA1]);
    run(&mut cpu, 2);
    assert_eq!(cpu.get_register_pc(), 0x206);
}

#[test]
fn font_lookup_points_at_glyph() {
    let mut cpu = boot(&[0x60, 0x0B, 0xF0, 0x29]);
    run(&mut cpu, 2);
    assert_eq!(cpu.get_register_i(), 55);
    assert_eq!(&cpu.get_memory()[55..60], &[0xE0, 0x90, 0xE0, 0x90, 0xE0]);
}

#[test]
fn jump_with_offset() {
    let mut cpu = boot(&[0x60, 0x10, 0xB3, 0x00]);
    run(&mut cpu, 2);
    assert_eq!(cpu.get_register_pc(), 0x310);
}

#[test]
fn add_to_index() {
    let mut cpu = boot(&[0x60, 0x05, 0xA0, 0xFF, 0xF0, 0x1E]);
    run(&mut cpu, 3);
    assert_eq!(cpu.get_register_i(), 0x104);
}

#[test]
fn store_and_load_registers() {
    let mut cpu = boot(&[0x60, 0x11, 0x61, 0x22, 0xA3, 0x00, 0xF1, 0x55]);
    run(&mut cpu, 4);
    assert_eq!(&cpu.get_memory()[0x300..0x302], &[0x11, 0x22]);
    let mut cpu = boot(&[0xA2, 0x00, 0xF1, 0x65]);
    run(&mut cpu, 2);
    assert_eq!(cpu.get_register_v()[0], 0xA2);
    assert_eq!(cpu.get_register_v()[1], 0x00);
}

#[test]
fn delay_timer_saturates_at_zero() {
    let mut cpu = boot(&[0x60, 0x3C, 0xF0, 0x15, 0xF1, 0x07]);
    run(&mut cpu, 2);
    cpu.decrement_timers();
    cpu.decrement_timers();
    cpu.decrement_timers();
    cpu.execute_cycle();
    assert_eq!(cpu.get_register_v()[1], 57);
    assert_eq!(cpu.get_delay_timer(), 57);
    let mut idle = Cpu::new();
    idle.decrement_timers();
    assert_eq!(idle.get_delay_timer(), 0);
}

#[test]
fn rnd_masks_and_is_reproducible() {
    let mut cpu = boot(&[0xC0, 0x0F]);
    cpu.execute_cycle();
    let first = cpu.get_register_v()[0];
    assert!(first < 16);
    let mut again = boot(&[0xC0, 0x0F]);
    again.execute_cycle();
    assert_eq!(again.get_register_v()[0], first);
}

#[test]
fn cls_clears_display() {
    let mut program = vec![0xA2, 0x10, 0xD0, 0x01, 0x00, 0xE0];
    program.resize(0x10, 0x00);
    program.push(0xFF);
    let mut cpu = boot(&program);
    run(&mut cpu, 2);
    assert_eq!(cpu.get_display()[0], 1);
    cpu.execute_cycle();
    assert!(cpu.get_display().iter().all(|&p| p == 0));
}

#[test]
fn ret_with_empty_stack_faults() {
    let mut cpu = boot(&[0x00, 0xEE, 0x60, 0x01]);
    cpu.execute_cycle();
    assert!(cpu.is_faulted());
    assert_eq!(cpu.get_fault(), Some(Fault::StackUnderflow));
    let pc = cpu.get_register_pc();
    cpu.execute_cycle(); // halted: a no-op
    assert_eq!(cpu.get_register_pc(), pc);
    assert_eq!(cpu.get_register_v()[0], 0);
}

#[test]
fn call_past_sixteen_frames_faults() {
    let mut cpu = boot(&[0x22, 0x00]);
    for _ in 0..16 {
        cpu.execute_cycle();
        assert!(!cpu.is_faulted());
    }
    assert_eq!(cpu.get_sp(), 16);
    cpu.execute_cycle();
    assert_eq!(cpu.get_fault(), Some(Fault::StackOverflow));
    assert_eq!(cpu.get_sp(), 16);
}

#[test]
fn unknown_opcode_faults_with_location() {
    let mut cpu = boot(&[0x5A, 0xB1]);
    cpu.execute_cycle();
    assert_eq!(
        cpu.get_fault(),
        Some(Fault::UnknownOpcode { opcode: 0x5AB1, pc: 0x200 })
    );
}

#[test]
fn load_rejects_oversized_program() {
    let mut cpu = Cpu::new();
    assert_eq!(cpu.load_program(&vec![0u8; 3585]), Err(LoadError::TooLarge));
    assert_eq!(cpu.load_program(&vec![0u8; 3584]), Ok(()));
    assert_eq!(cpu.load_program(&Vec::new()), Ok(()));
}

#[test]
fn reset_restores_initial_state() {
    let mut cpu = boot(&[0x00, 0xEE]);
    cpu.key_down(2);
    cpu.execute_cycle();
    assert!(cpu.is_faulted());
    cpu.reset();
    assert!(!cpu.is_faulted());
    assert_eq!(cpu.get_register_pc(), 0x200);
    assert_eq!(cpu.get_sp(), 0);
    assert_eq!(cpu.get_register_i(), 0);
    assert_eq!(cpu.get_memory()[0], 0xF0); // font reloaded
    assert_eq!(cpu.get_memory()[0x200], 0); // program image gone
    assert!(cpu.get_display().iter().all(|&p| p == 0));
}

#[test]
fn ld_vx_vy_copies() {
    let mut cpu = boot(&[0x61, 0x2A, 0x80, 0x10]);
    run(&mut cpu, 2);
    assert_eq!(cpu.get_register_v()[0], 0x2A);
}

#[test]
fn add_immediate_wraps_without_touching_vf() {
    let mut cpu = boot(&[0x60, 0xF0, 0x70, 0x20]);
    run(&mut cpu, 2);
    assert_eq!(cpu.get_register_v()[0], 0x10);
    assert_eq!(cpu.get_register_v()[0xF], 0);
}
