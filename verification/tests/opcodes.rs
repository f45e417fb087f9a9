use chip8::cpu::Cpu;
use chip8::display::Display;
use chip8::memory::Memory;

#[test]
fn clear_display() {
    let mut memory: Memory = Memory::new();
    let mut display: Display = Display::new();
    display.pixels[0][0] = 1;
    display.pixels[63][31] = 1;
    memory.write_u16(0x200, 0x00E0);
    let mut cpu = Cpu::new(memory, display);

    cpu.cycle().unwrap();

    assert_eq!(cpu.display.pixels[0][0], 0);
    assert_eq!(cpu.display.pixels[63][31], 0);
}

#[test]
fn return_from_a_subroutine() {
    let mut memory: Memory = Memory::new();
    let display: Display = Display::new();
    memory.write_u16(0x200, 0x0EE);
    let mut cpu = Cpu::new(memory, display);
    cpu.stack[0] = 0x0001;
    cpu.sp = 1;

    cpu.cycle().unwrap();

    assert_eq!(cpu.sp, 0);
    assert_eq!(cpu.pc, 0x0001);
}

#[test]
fn jump_to_location() {
    let mut memory: Memory = Memory::new();
    let display: Display = Display::new();
    memory.write_u16(0x200, 0x1234);
    let mut cpu = Cpu::new(memory, display);

    cpu.cycle().unwrap();

    assert_eq!(cpu.pc, 0x234);
}

#[test]
fn call_subroutine() {
    let mut memory: Memory = Memory::new();
    let display: Display = Display::new();
    memory.write_u16(0x200, 0x2312);
    let mut cpu = Cpu::new(memory, display);

    cpu.cycle().unwrap();

    assert_eq!(cpu.sp, 1);
    assert_eq!(cpu.stack[0], 0x200 + 2);
    assert_eq!(cpu.pc, 0x312);
}

#[test]
fn skip_next_instruction_if_vx_equals_kk() {
    let mut memory: Memory = Memory::new();
    let display: Display = Display::new();
    memory.write_u16(0x200, 0x3144);
    let mut cpu = Cpu::new(memory, display);
    cpu.registers.set(1, 0x44);

    cpu.cycle().unwrap();

    assert_eq!(cpu.pc, 0x200 + 4);
}

#[test]
fn skip_next_instruction_if_vx_not_equals_kk() {
    let mut memory: Memory = Memory::new();
    let display: Display = Display::new();
    memory.write_u16(0x200, 0x4144);
    let mut cpu = Cpu::new(memory, display);
    cpu.registers.set(1, 0x43);

    cpu.cycle().unwrap();

    assert_eq!(cpu.pc, 0x200 + 4);
}

#[test]
fn skip_next_instruction_if_vx_equals_vy() {
    let mut memory: Memory = Memory::new();
    let display: Display = Display::new();
    memory.write_u16(0x200, 0x5120);
    let mut cpu = Cpu::new(memory, display);
    cpu.registers.set(1, 0x44);
    cpu.registers.set(2, 0x44);

    cpu.cycle().unwrap();

    assert_eq!(cpu.pc, 0x200 + 4);
}

#[test]
fn set_vx_to_kk() {
    let mut memory: Memory = Memory::new();
    let display: Display = Display::new();
    memory.write_u16(0x200, 0x6622);
    let mut cpu = Cpu::new(memory, display);

    cpu.cycle().unwrap();

    assert_eq!(cpu.registers.get(6), 0x22);
}

#[test]
fn set_vx_to_vx_plus_kk() {
    let mut memory: Memory = Memory::new();
    let display: Display = Display::new();
    memory.write_u16(0x200, 0x7422);
    let mut cpu = Cpu::new(memory, display);
    cpu.registers.set(4, 0x22);

    cpu.cycle().unwrap();

    assert_eq!(cpu.registers.get(4), 0x22 + 0x22);
}

#[test]
fn set_vx_to_vy() {
    let mut memory: Memory = Memory::new();
    let display: Display = Display::new();
    memory.write_u16(0x200, 0x8420);
    let mut cpu = Cpu::new(memory, display);
    cpu.registers.set(2, 0x22);

    cpu.cycle().unwrap();

    assert_eq!(cpu.registers.get(4), 0x22);
}

#[test]
fn set_vx_to_vx_or_vy() {
    let mut memory: Memory = Memory::new();
    let display: Display = Display::new();
    memory.write_u16(0x200, 0x8011);
    let mut cpu = Cpu::new(memory, display);
    cpu.registers.set(0, 0x22);
    cpu.registers.set(1, 0x11);

    cpu.cycle().unwrap();

    assert_eq!(cpu.registers.get(0), 51);
}

#[test]
fn set_vx_to_vx_and_vy() {
    let mut memory: Memory = Memory::new();
    let display: Display = Display::new();
    memory.write_u16(0x200, 0x8452);
    let mut cpu = Cpu::new(memory, display);
    cpu.registers.set(4, 0x12);
    cpu.registers.set(5, 0x11);

    cpu.cycle().unwrap();

    assert_eq!(cpu.registers.get(4), 16);
}

#[test]
fn set_vx_to_vx_xor_vy() {
    let mut memory: Memory = Memory::new();
    let display: Display = Display::new();
    memory.write_u16(0x200, 0x8453);
    let mut cpu = Cpu::new(memory, display);
    cpu.registers.set(4, 0x12);
    cpu.registers.set(5, 0x11);

    cpu.cycle().unwrap();

    assert_eq!(cpu.registers.get(4), 3);
}

#[test]
fn set_vx_to_vx_plus_vy() {
    let mut memory: Memory = Memory::new();
    let display: Display = Display::new();
    memory.write_u16(0x200, 0x8454);
    memory.write_u16(0x400, 0x8124);

    let mut cpu = Cpu::new(memory, display);
    cpu.registers.set(4, 0x12);
    cpu.registers.set(5, 0x11);

    cpu.cycle().unwrap();

    assert_eq!(cpu.registers.get(4), 35);
    assert_eq!(cpu.registers.get(0xF), 0);

    cpu.registers.set(1, 0xFF);
    cpu.registers.set(2, 0xFF);
    cpu.pc = 0x400;

    cpu.cycle().unwrap();

    assert_eq!(cpu.registers.get(0xF), 1);
}

#[test]
fn set_vx_to_vx_minus_vy() {
    let mut memory: Memory = Memory::new();
    let display: Display = Display::new();
    memory.write_u16(0x200, 0x8455);
    memory.write_u16(0x400, 0x8125);

    let mut cpu = Cpu::new(memory, display);
    cpu.registers.set(4, 0x12);
    cpu.registers.set(5, 0x11);

    cpu.cycle().unwrap();

    assert_eq!(cpu.registers.get(4), 1);
    assert_eq!(cpu.registers.get(0xF), 1);

    cpu.registers.set(1, 0xFF);
    cpu.registers.set(2, 0xFF);
    cpu.pc = 0x400;

    cpu.cycle().unwrap();

    assert_eq!(cpu.registers.get(0xF), 0);
}

#[test]
fn set_vx_to_vx_shr_1() {
    let mut memory: Memory = Memory::new();
    let display: Display = Display::new();
    memory.write_u16(0x200, 0x8456);
    memory.write_u16(0x400, 0x8126);

    let mut cpu = Cpu::new(memory, display);
    cpu.registers.set(4, 0x12);

    cpu.cycle().unwrap();

    assert_eq!(cpu.registers.get(0xF), 0);
    assert_eq!(cpu.registers.get(4), 9);

    cpu.registers.set(1, 0xFF);
    cpu.pc = 0x400;

    cpu.cycle().unwrap();

    assert_eq!(cpu.registers.get(0xF), 1);
    assert_eq!(cpu.registers.get(1), 127);
}

#[test]
fn set_vx_to_vx_shl_1() {
    let mut memory: Memory = Memory::new();
    let display: Display = Display::new();
    memory.write_u16(0x200, 0x845E);
    memory.write_u16(0x400, 0x812E);

    let mut cpu = Cpu::new(memory, display);
    cpu.registers.set(4, 0x01);

    cpu.cycle().unwrap();

    assert_eq!(cpu.registers.get(0xF), 0);
    assert_eq!(cpu.registers.get(4), 2);

    cpu.registers.set(1, 0xFF);
    cpu.pc = 0x400;

    cpu.cycle().unwrap();

    assert_eq!(cpu.registers.get(0xF), 1);
}

#[test]
fn skip_next_instruction_if_vx_not_equals_vy() {
    let mut memory: Memory = Memory::new();
    let display: Display = Display::new();
    memory.write_u16(0x200, 0x9450);
    memory.write_u16(0x400, 0x9120);

    let mut cpu = Cpu::new(memory, display);
    cpu.registers.set(4, 0x01);
    cpu.registers.set(5, 0x01);

    cpu.cycle().unwrap();

    assert_eq!(cpu.pc, 0x200 + 2);

    cpu.registers.set(1, 0x12);
    cpu.registers.set(2, 0x13);
    cpu.pc = 0x400;

    cpu.cycle().unwrap();

    assert_eq!(cpu.pc, 0x400 + 4);
}

#[test]
fn set_i_to_nnn() {
    let mut memory: Memory = Memory::new();
    let display: Display = Display::new();
    memory.write_u16(0x200, 0xA123);
    let mut cpu = Cpu::new(memory, display);

    cpu.cycle().unwrap();

    assert_eq!(cpu.i, 0x123);
}

#[test]
fn jump_to_location_nnn_plus_v0() {
    let mut memory: Memory = Memory::new();
    let display: Display = Display::new();
    memory.write_u16(0x200, 0xB123);
    let mut cpu = Cpu::new(memory, display);
    cpu.registers.set(0, 1);

    cpu.cycle().unwrap();

    assert_eq!(cpu.pc, 0x124);
}

#[test]
fn set_vx_to_delay() {
    let mut memory: Memory = Memory::new();
    let display: Display = Display::new();
    memory.write_u16(0x200, 0xF107);
    let mut cpu = Cpu::new(memory, display);
    cpu.delay = 0x76;

    cpu.cycle().unwrap();

    assert_eq!(cpu.registers.get(1), 0x76);
}

#[test]
fn set_delay_to_vx() {
    let mut memory: Memory = Memory::new();
    let display: Display = Display::new();
    memory.write_u16(0x200, 0xF115);
    let mut cpu = Cpu::new(memory, display);
    cpu.registers.set(1, 0x76);

    cpu.cycle().unwrap();

    assert_eq!(cpu.delay, 0x76);
}

#[test]
fn set_sound_to_vx() {
    let mut memory: Memory = Memory::new();
    let display: Display = Display::new();
    memory.write_u16(0x200, 0xF818);
    let mut cpu = Cpu::new(memory, display);
    cpu.registers.set(8, 0x11);

    cpu.cycle().unwrap();

    assert_eq!(cpu.sound, 0x11);
}

#[test]
fn set_i_to_i_plus_vx() {
    let mut memory: Memory = Memory::new();
    let display: Display = Display::new();
    memory.write_u16(0x200, 0xF31E);
    let mut cpu = Cpu::new(memory, display);
    cpu.i = 0x05;
    cpu.registers.set(3, 0x11);

    cpu.cycle().unwrap();

    assert_eq!(cpu.i, 22);
}
