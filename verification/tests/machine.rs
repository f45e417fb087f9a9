use chip8::cpu::Cpu;
use chip8::display::Display;
use chip8::memory::Memory;
use chip8::state::Fault;

fn fresh_cpu() -> Cpu {
    Cpu::new(Memory::new(), Display::new())
}

#[test]
fn register_set_then_get_round_trip() {
    let mut cpu = fresh_cpu();
    for r in 0..16u8 {
        for &v in &[0u8, 1, 0x7F, 0x80, 0xFF] {
            cpu.registers.set(r, v);
            assert_eq!(cpu.registers.get(r), v);
        }
    }
}

#[test]
fn add_wraps_around_with_carry() {
    let mut memory = Memory::new();
    memory.write_u16(0x200, 0x8124);
    let mut cpu = Cpu::new(memory, Display::new());
    cpu.registers.set(1, 0xFF);
    cpu.registers.set(2, 0x01);

    cpu.cycle().unwrap();

    assert_eq!(cpu.registers.get(1), 0x00);
    assert_eq!(cpu.registers.get(0xF), 1);
}

#[test]
fn sub_wraps_around_with_borrow() {
    let mut memory = Memory::new();
    memory.write_u16(0x200, 0x8125);
    let mut cpu = Cpu::new(memory, Display::new());
    cpu.registers.set(1, 0x00);
    cpu.registers.set(2, 0x01);

    cpu.cycle().unwrap();

    assert_eq!(cpu.registers.get(1), 0xFF);
    assert_eq!(cpu.registers.get(0xF), 0);
}

#[test]
fn call_then_return_restores_pc_and_depth() {
    let mut memory = Memory::new();
    memory.write_u16(0x200, 0x2312);
    memory.write_u16(0x312, 0x00EE);
    let mut cpu = Cpu::new(memory, Display::new());

    cpu.cycle().unwrap();
    assert_eq!(cpu.pc, 0x312);
    assert_eq!(cpu.sp, 1);

    cpu.cycle().unwrap();
    assert_eq!(cpu.pc, 0x202);
    assert_eq!(cpu.sp, 0);
}

#[test]
fn skips_not_taken_advance_by_two() {
    let mut memory = Memory::new();
    memory.write_u16(0x200, 0x3144);
    memory.write_u16(0x400, 0x4143);
    memory.write_u16(0x500, 0x5120);
    let mut cpu = Cpu::new(memory, Display::new());
    cpu.registers.set(1, 0x43);
    cpu.registers.set(2, 0x44);

    cpu.cycle().unwrap();
    assert_eq!(cpu.pc, 0x202);

    cpu.pc = 0x400;
    cpu.cycle().unwrap();
    assert_eq!(cpu.pc, 0x402);

    cpu.pc = 0x500;
    cpu.cycle().unwrap();
    assert_eq!(cpu.pc, 0x502);
}

#[test]
fn skip_on_key_state() {
    let mut memory = Memory::new();
    memory.write_u16(0x200, 0xE19E);
    memory.write_u16(0x400, 0xE1A1);
    let mut cpu = Cpu::new(memory, Display::new());
    cpu.registers.set(1, 0x7);
    cpu.keys.set_key(0x7, true);

    cpu.cycle().unwrap();
    assert_eq!(cpu.pc, 0x204);

    cpu.pc = 0x400;
    cpu.cycle().unwrap();
    assert_eq!(cpu.pc, 0x402);

    cpu.keys.set_key(0x7, false);
    cpu.pc = 0x400;
    cpu.cycle().unwrap();
    assert_eq!(cpu.pc, 0x404);
}

#[test]
fn draw_twice_collides_and_clears() {
    let mut memory = Memory::new();
    memory.write_u16(0x200, 0xD122);
    memory.write_u16(0x400, 0xD122);
    memory.write_u8(0x600, 0b1010_0000);
    memory.write_u8(0x601, 0b0100_0000);
    let mut cpu = Cpu::new(memory, Display::new());
    cpu.i = 0x600;
    cpu.registers.set(1, 10);
    cpu.registers.set(2, 5);

    cpu.cycle().unwrap();
    assert_eq!(cpu.registers.get(0xF), 0);
    assert_eq!(cpu.display.pixels[10][5], 1);
    assert_eq!(cpu.display.pixels[11][5], 0);
    assert_eq!(cpu.display.pixels[12][5], 1);
    assert_eq!(cpu.display.pixels[11][6], 1);

    cpu.pc = 0x400;
    cpu.cycle().unwrap();
    assert_eq!(cpu.registers.get(0xF), 1);
    assert_eq!(cpu.display.pixels[10][5], 0);
    assert_eq!(cpu.display.pixels[12][5], 0);
    assert_eq!(cpu.display.pixels[11][6], 0);
}

#[test]
fn draw_wraps_at_both_edges() {
    let mut memory = Memory::new();
    memory.write_u16(0x200, 0xD122);
    memory.write_u8(0x600, 0b1100_0000);
    memory.write_u8(0x601, 0b1100_0000);
    let mut cpu = Cpu::new(memory, Display::new());
    cpu.i = 0x600;
    cpu.registers.set(1, 63);
    cpu.registers.set(2, 31);

    cpu.cycle().unwrap();

    assert_eq!(cpu.registers.get(0xF), 0);
    assert_eq!(cpu.display.pixels[63][31], 1);
    assert_eq!(cpu.display.pixels[0][31], 1);
    assert_eq!(cpu.display.pixels[63][0], 1);
    assert_eq!(cpu.display.pixels[0][0], 1);
    assert_eq!(cpu.display.pixels[1][0], 0);
}

#[test]
fn draw_position_wraps_modulo_screen() {
    let mut memory = Memory::new();
    memory.write_u16(0x200, 0xD121);
    memory.write_u8(0x600, 0b1000_0000);
    let mut cpu = Cpu::new(memory, Display::new());
    cpu.i = 0x600;
    cpu.registers.set(1, 64 + 3);
    cpu.registers.set(2, 32 + 2);

    cpu.cycle().unwrap();

    assert_eq!(cpu.display.pixels[3][2], 1);
}

#[test]
fn bcd_store_writes_decimal_digits() {
    let mut memory = Memory::new();
    memory.write_u16(0x200, 0xF133);
    let mut cpu = Cpu::new(memory, Display::new());
    cpu.i = 0x300;
    cpu.registers.set(1, 123);

    cpu.cycle().unwrap();

    assert_eq!(cpu.memory.read_u8(0x300), 1);
    assert_eq!(cpu.memory.read_u8(0x301), 2);
    assert_eq!(cpu.memory.read_u8(0x302), 3);
}

#[test]
fn font_glyph_address_end_to_end() {
    let mut cpu = fresh_cpu();
    cpu.init(vec![0x6A, 0x05, 0xFA, 0x29]);

    cpu.cycle().unwrap();
    assert_eq!(cpu.registers.get(0xA), 5);

    cpu.cycle().unwrap();
    assert_eq!(cpu.i, 25);
    assert_eq!(cpu.memory.read_u8(25), 0xF0);
    assert_eq!(cpu.memory.read_u8(0), 0xF0);
    assert_eq!(cpu.memory.read_u8(79), 0x80);
}

#[test]
fn init_loads_program_at_load_address() {
    let mut cpu = fresh_cpu();
    cpu.init(vec![0xAB, 0xCD, 0xEF]);

    assert_eq!(cpu.memory.read_u8(0x200), 0xAB);
    assert_eq!(cpu.memory.read_u8(0x201), 0xCD);
    assert_eq!(cpu.memory.read_u8(0x202), 0xEF);
    assert_eq!(cpu.memory.read_u8(0x203), 0);
}

#[test]
fn store_and_load_registers() {
    let mut memory = Memory::new();
    memory.write_u16(0x200, 0xF355);
    memory.write_u16(0x400, 0xF365);
    let mut cpu = Cpu::new(memory, Display::new());
    cpu.i = 0x600;
    cpu.registers.set(0, 0x10);
    cpu.registers.set(1, 0x21);
    cpu.registers.set(2, 0x32);
    cpu.registers.set(3, 0x43);
    cpu.registers.set(4, 0x54);

    cpu.cycle().unwrap();

    assert_eq!(cpu.memory.read_u8(0x600), 0x10);
    assert_eq!(cpu.memory.read_u8(0x601), 0x21);
    assert_eq!(cpu.memory.read_u8(0x602), 0x32);
    assert_eq!(cpu.memory.read_u8(0x603), 0x43);
    assert_eq!(cpu.memory.read_u8(0x604), 0);

    for r in 0..4u8 {
        cpu.registers.set(r, 0);
    }
    cpu.pc = 0x400;
    cpu.cycle().unwrap();

    assert_eq!(cpu.registers.get(0), 0x10);
    assert_eq!(cpu.registers.get(1), 0x21);
    assert_eq!(cpu.registers.get(2), 0x32);
    assert_eq!(cpu.registers.get(3), 0x43);
    assert_eq!(cpu.registers.get(4), 0x54);
}

#[test]
fn random_byte_is_masked() {
    let mut memory = Memory::new();
    memory.write_u16(0x200, 0xC100);
    memory.write_u16(0x400, 0xC20F);
    let mut cpu = Cpu::new(memory, Display::new());
    cpu.registers.set(1, 0xAA);

    cpu.cycle().unwrap();
    assert_eq!(cpu.registers.get(1), 0);

    cpu.pc = 0x400;
    cpu.cycle().unwrap();
    assert!(cpu.registers.get(2) <= 0x0F);
}

#[test]
fn wait_for_key_sets_flag() {
    let mut memory = Memory::new();
    memory.write_u16(0x200, 0xF10A);
    let mut cpu = Cpu::new(memory, Display::new());
    assert!(!cpu.waiting_for_input);

    cpu.cycle().unwrap();

    assert!(cpu.waiting_for_input);
    assert_eq!(cpu.pc, 0x202);
}

#[test]
fn unsupported_opcode_faults() {
    let mut memory = Memory::new();
    memory.write_u16(0x200, 0x0000);
    let mut cpu = Cpu::new(memory, Display::new());

    assert_eq!(cpu.cycle(), Err(Fault::UnsupportedInstruction));
    assert_eq!(cpu.pc, 0x200);
}

#[test]
fn unsupported_alu_suboperation_faults() {
    let mut memory = Memory::new();
    memory.write_u16(0x200, 0x8128);
    let mut cpu = Cpu::new(memory, Display::new());

    assert_eq!(cpu.cycle(), Err(Fault::UnsupportedInstruction));
}

#[test]
fn return_with_empty_stack_faults() {
    let mut memory = Memory::new();
    memory.write_u16(0x200, 0x00EE);
    let mut cpu = Cpu::new(memory, Display::new());

    assert_eq!(cpu.cycle(), Err(Fault::StackUnderflow));
    assert_eq!(cpu.pc, 0x200);
}

#[test]
fn call_with_full_stack_faults() {
    let mut memory = Memory::new();
    memory.write_u16(0x200, 0x2312);
    let mut cpu = Cpu::new(memory, Display::new());
    cpu.sp = 16;

    assert_eq!(cpu.cycle(), Err(Fault::StackOverflow));
    assert_eq!(cpu.sp, 16);
    assert_eq!(cpu.pc, 0x200);
}

#[test]
fn sprite_read_out_of_range_faults() {
    let mut memory = Memory::new();
    memory.write_u16(0x200, 0xD125);
    let mut cpu = Cpu::new(memory, Display::new());
    cpu.i = 0xFFE;

    assert_eq!(cpu.cycle(), Err(Fault::AddressOutOfRange));
}

#[test]
fn fetch_out_of_range_faults() {
    let mut cpu = fresh_cpu();
    cpu.pc = 0xFFF;

    assert_eq!(cpu.cycle(), Err(Fault::AddressOutOfRange));
    assert_eq!(cpu.pc, 0xFFF);
}

#[test]
fn key_index_out_of_range_faults() {
    let mut memory = Memory::new();
    memory.write_u16(0x200, 0xE19E);
    let mut cpu = Cpu::new(memory, Display::new());
    cpu.registers.set(1, 16);

    assert_eq!(cpu.cycle(), Err(Fault::AddressOutOfRange));
}

#[test]
fn bcd_store_out_of_range_faults() {
    let mut memory = Memory::new();
    memory.write_u16(0x200, 0xF133);
    let mut cpu = Cpu::new(memory, Display::new());
    cpu.i = 0xFFE;
    cpu.registers.set(1, 255);

    assert_eq!(cpu.cycle(), Err(Fault::AddressOutOfRange));
}

#[test]
fn memory_word_round_trip() {
    let mut memory = Memory::new();
    memory.write_u16(0x300, 0xBEEF);

    assert_eq!(memory.read_u8(0x300), 0xBE);
    assert_eq!(memory.read_u8(0x301), 0xEF);
    assert_eq!(memory.read_u16(0x300), 0xBEEF);
}

#[test]
fn index_add_wraps_at_sixteen_bits() {
    let mut memory = Memory::new();
    memory.write_u16(0x200, 0xF11E);
    let mut cpu = Cpu::new(memory, Display::new());
    cpu.i = 0xFFFF;
    cpu.registers.set(1, 2);

    cpu.cycle().unwrap();

    assert_eq!(cpu.i, 1);
}
