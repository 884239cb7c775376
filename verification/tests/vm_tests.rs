use chip_p::vm::{ChipP, VmFault};

fn boot(rom: &[u8]) -> ChipP {
    let mut vm = ChipP::new();
    vm.load_rom_raw(rom);
    vm
}

fn run_to_halt(vm: &mut ChipP) {
    while vm.step() {}
}

#[test]
fn mov_loads_immediate() {
    let mut vm = boot(&[0x01, 0x00, 0xDE, 0xAD, 0xBE, 0xEF, 0xFF]);
    assert!(vm.step());
    assert_eq!(vm.registers[0], 0xDEADBEEF);
    assert_eq!(vm.pc, 6);
    assert!(vm.fault.is_none());
}

#[test]
fn mov_every_register() {
    let mut rom: Vec<u8> = Vec::new();
    for r in 0u8..32 {
        rom.extend_from_slice(&[0x01, r, 0x00, 0x00, 0x00, r]);
    }
    rom.push(0xFF);
    let mut vm = boot(&rom);
    run_to_halt(&mut vm);
    for r in 0usize..32 {
        assert_eq!(vm.registers[r], r as u32);
    }
    assert!(vm.fault.is_none());
}

#[test]
fn add_wraps_on_overflow() {
    // r0 = 0xFFFFFFFF, r1 = 2, r0 += r1
    let mut vm = boot(&[
        0x01, 0x00, 0xFF, 0xFF, 0xFF, 0xFF, 0x01, 0x01, 0x00, 0x00, 0x00, 0x02, 0x06, 0x00,
        0x01, 0xFF,
    ]);
    run_to_halt(&mut vm);
    assert_eq!(vm.registers[0], 1);
    assert!(vm.fault.is_none());
}

#[test]
fn add_i_wraps() {
    let mut vm = boot(&[0x01, 0x03, 0xFF, 0xFF, 0xFF, 0xFE, 0x07, 0x03, 0x00, 0x00, 0x00, 0x05, 0xFF]);
    run_to_halt(&mut vm);
    assert_eq!(vm.registers[3], 3);
}

#[test]
fn sub_wraps_below_zero() {
    // r0 = 0, r1 = 1, r0 -= r1
    let mut vm = boot(&[
        0x01, 0x00, 0x00, 0x00, 0x00, 0x00, 0x01, 0x01, 0x00, 0x00, 0x00, 0x01, 0x08, 0x00,
        0x01, 0xFF,
    ]);
    run_to_halt(&mut vm);
    assert_eq!(vm.registers[0], 0xFFFFFFFF);
    assert!(vm.fault.is_none());
}

#[test]
fn sub_i_exact() {
    let mut vm = boot(&[0x01, 0x02, 0x00, 0x00, 0x00, 0x09, 0x09, 0x02, 0x00, 0x00, 0x00, 0x04, 0xFF]);
    run_to_halt(&mut vm);
    assert_eq!(vm.registers[2], 5);
}

#[test]
fn mul_wraps() {
    // r0 = 0x10000, r1 = 0x10001, product = 0x100010000 -> wraps to 0x10000
    let mut vm = boot(&[
        0x01, 0x00, 0x00, 0x01, 0x00, 0x00, 0x01, 0x01, 0x00, 0x01, 0x00, 0x01, 0x0A, 0x00,
        0x01, 0xFF,
    ]);
    run_to_halt(&mut vm);
    assert_eq!(vm.registers[0], 0x10000);
}

#[test]
fn div_integer_quotient() {
    let mut vm = boot(&[
        0x01, 0x00, 0x00, 0x00, 0x00, 0x11, 0x01, 0x01, 0x00, 0x00, 0x00, 0x05, 0x0B, 0x00,
        0x01, 0xFF,
    ]);
    run_to_halt(&mut vm);
    assert_eq!(vm.registers[0], 3);
}

#[test]
fn div_by_zero_is_fatal() {
    // r0 = 7, r1 stays 0, DIV r0 / r1
    let mut vm = boot(&[0x01, 0x00, 0x00, 0x00, 0x00, 0x07, 0x0B, 0x00, 0x01, 0xFF]);
    assert!(vm.step());
    assert!(!vm.step());
    assert_eq!(vm.fault, Some(VmFault::ArithmeticFault));
    // no silent result: the dividend register is untouched
    assert_eq!(vm.registers[0], 7);
    // the machine stays halted
    assert!(!vm.step());
}

#[test]
fn store_load_roundtrip_via_registers() {
    // r0 = value, r1 = address, STORE r0 -> [r1], LOAD r2 <- [r1]
    let mut vm = boot(&[
        0x01, 0x00, 0x12, 0x34, 0x56, 0x78, 0x01, 0x01, 0x00, 0x00, 0x10, 0x00, 0x04, 0x00,
        0x01, 0x05, 0x02, 0x01, 0xFF,
    ]);
    run_to_halt(&mut vm);
    assert_eq!(vm.registers[2], 0x12345678);
    assert_eq!(vm.memory[0x1000], 0x12);
    assert_eq!(vm.memory[0x1001], 0x34);
    assert_eq!(vm.memory[0x1002], 0x56);
    assert_eq!(vm.memory[0x1003], 0x78);
    assert!(vm.fault.is_none());
}

#[test]
fn store_i_load_i_roundtrip() {
    let mut vm = boot(&[
        0x01, 0x05, 0xCA, 0xFE, 0xBA, 0xBE, 0x02, 0x05, 0x00, 0x00, 0x00, 0x40, 0x03, 0x06,
        0x00, 0x00, 0x00, 0x40, 0xFF,
    ]);
    run_to_halt(&mut vm);
    assert_eq!(vm.registers[6], 0xCAFEBABE);
    assert!(vm.fault.is_none());
}

#[test]
fn store_beyond_memory_is_memory_fault() {
    // address 65533: a 4-byte store would run past the end of RAM
    let mut vm = boot(&[0x01, 0x00, 0x00, 0x00, 0xFF, 0xFD, 0x04, 0x01, 0x00, 0xFF]);
    assert!(vm.step());
    assert!(!vm.step());
    assert_eq!(vm.fault, Some(VmFault::MemoryFault));
}

#[test]
fn register_index_out_of_range_is_register_fault() {
    let mut vm = boot(&[0x01, 0x20, 0x00, 0x00, 0x00, 0x01, 0xFF]);
    assert!(!vm.step());
    assert_eq!(vm.fault, Some(VmFault::RegisterFault));
}

#[test]
fn truncated_operands_are_rom_fault() {
    // MOV with only two of its five operand bytes present
    let mut vm = boot(&[0x01, 0x00, 0x01]);
    assert!(!vm.step());
    assert_eq!(vm.fault, Some(VmFault::RomFault));
}

#[test]
fn jmp_moves_counter() {
    let mut vm = boot(&[0x0C, 0x00, 0x00, 0x00, 0x06, 0xFF, 0x01, 0x00, 0x00, 0x00, 0x00, 0x2A, 0xFF]);
    run_to_halt(&mut vm);
    assert_eq!(vm.registers[0], 42);
}

#[test]
fn jeq_taken_and_not_taken() {
    // r0 == r1 (both 0): jump over the MOV that would set r2
    let mut vm = boot(&[
        0x0D, 0x00, 0x01, 0x00, 0x00, 0x00, 0x0D, 0x01, 0x02, 0x00, 0x00, 0x00, 0x01, 0xFF,
    ]);
    run_to_halt(&mut vm);
    assert_eq!(vm.registers[2], 0);
    assert!(vm.fault.is_none());

    // r0 != r1: fall through and set r2
    let mut vm2 = boot(&[
        0x01, 0x00, 0x00, 0x00, 0x00, 0x05, 0x0D, 0x00, 0x01, 0x00, 0x00, 0x00, 0x14, 0x01,
        0x02, 0x00, 0x00, 0x00, 0x09, 0xFF,
    ]);
    run_to_halt(&mut vm2);
    assert_eq!(vm2.registers[2], 9);
}

#[test]
fn jne_taken_when_different() {
    let mut vm = boot(&[
        0x01, 0x00, 0x00, 0x00, 0x00, 0x05, 0x0E, 0x00, 0x01, 0x00, 0x00, 0x00, 0x13, 0x01,
        0x02, 0x00, 0x00, 0x00, 0x09, 0xFF,
    ]);
    run_to_halt(&mut vm);
    // the jump lands on the final HALT, skipping the MOV
    assert_eq!(vm.registers[2], 0);
    assert!(vm.fault.is_none());
}

#[test]
fn jgt_compares_unsigned() {
    // r0 = 5 > r1 = 3: jump over the MOV
    let mut vm = boot(&[
        0x01, 0x00, 0x00, 0x00, 0x00, 0x05, 0x01, 0x01, 0x00, 0x00, 0x00, 0x03, 0x17, 0x00,
        0x01, 0x00, 0x00, 0x00, 0x19, 0x01, 0x02, 0x00, 0x00, 0x00, 0x07, 0xFF,
    ]);
    run_to_halt(&mut vm);
    assert_eq!(vm.registers[2], 0);
    assert!(vm.fault.is_none());
}

#[test]
fn call_then_return_restores_counter() {
    // CALL 6 jumps to RETURN at offset 6, which pops back to offset 5 (HALT)
    let mut vm = boot(&[0x12, 0x00, 0x00, 0x00, 0x06, 0xFF, 0x13]);
    assert!(vm.step());
    assert_eq!(vm.pc, 6);
    assert_eq!(vm.stack, vec![5]);
    assert!(vm.step());
    assert_eq!(vm.pc, 5);
    assert!(vm.stack.is_empty());
    assert!(!vm.step());
    assert!(vm.fault.is_none());
}

#[test]
fn nested_calls_restore_in_order() {
    // main calls 10, which calls 16, which returns twice up the chain
    let mut vm = boot(&[
        0x12, 0x00, 0x00, 0x00, 0x0A, // 0: CALL 10
        0x01, 0x00, 0x00, 0x00, 0x00, // 5..9: unused filler (never executed as code)
        0x12, 0x00, 0x00, 0x00, 0x10, // 10: CALL 16
        0x13, // 15: RETURN
        0x13, // 16: RETURN
    ]);
    assert!(vm.step());
    assert_eq!(vm.pc, 10);
    assert!(vm.step());
    assert_eq!(vm.pc, 16);
    assert_eq!(vm.stack, vec![5, 15]);
    assert!(vm.step());
    assert_eq!(vm.pc, 15);
    assert!(vm.step());
    assert_eq!(vm.pc, 5);
    assert!(vm.stack.is_empty());
}

#[test]
fn call_at_capacity_is_stack_fault() {
    let mut vm = boot(&[0x12, 0x00, 0x00, 0x00, 0x00, 0xFF]);
    vm.stack = vec![0u32; 1024];
    assert!(!vm.step());
    assert_eq!(vm.fault, Some(VmFault::StackFault));
    assert_eq!(vm.stack.len(), 1024);
}

#[test]
fn return_on_empty_stack_is_stack_fault() {
    let mut vm = boot(&[
        0x01, 0x00, 0x00, 0x00, 0x00, 0x2A, 0x02, 0x00, 0x00, 0x00, 0x00, 0x10, 0x13, 0xFF,
    ]);
    assert!(vm.step());
    assert!(vm.step());
    let regs_before = vm.registers.clone();
    let mem_before = vm.memory.clone();
    assert!(!vm.step());
    assert_eq!(vm.fault, Some(VmFault::StackFault));
    // the fault corrupts nothing observed before it
    assert_eq!(vm.registers, regs_before);
    assert_eq!(vm.memory, mem_before);
    assert!(!vm.step());
}

#[test]
fn store_str_copies_with_terminator() {
    // STORE_STR src=10 dst=0x100; string "OK\0" sits at offset 10
    let mut vm = boot(&[
        0x0F, 0x00, 0x00, 0x00, 0x0A, 0x00, 0x00, 0x01, 0x00, 0xFF, b'O', b'K', 0x00,
    ]);
    assert!(vm.step());
    assert_eq!(vm.memory[0x100], b'O');
    assert_eq!(vm.memory[0x101], b'K');
    assert_eq!(vm.memory[0x102], 0x00);
    assert!(vm.fault.is_none());
}

#[test]
fn store_str_without_terminator_is_rom_fault() {
    let mut vm = boot(&[0x0F, 0x00, 0x00, 0x00, 0x09, 0x00, 0x00, 0x01, 0x00, b'A', b'B']);
    assert!(!vm.step());
    assert_eq!(vm.fault, Some(VmFault::RomFault));
}

#[test]
fn store_str_then_print_mem_reproduces_string() {
    // STORE_STR src=19 dst=0x200, PRINT_MEM 0x200, HALT, then "HI!\0"
    let mut vm = boot(&[
        0x0F, 0x00, 0x00, 0x00, 0x13, 0x00, 0x00, 0x02, 0x00, // STORE_STR
        0x10, 0x00, 0x00, 0x02, 0x00, // PRINT_MEM
        0xFF, 0x00, 0x00, 0x00, 0x00, // HALT + padding
        b'H', b'I', b'!', 0x00,
    ]);
    run_to_halt(&mut vm);
    assert_eq!(vm.output, b"HI!".to_vec());
    assert!(vm.fault.is_none());
}

#[test]
fn print_rom_emits_exact_bytes() {
    // PRINT_ROM of "HI" at offset 6, no trailing newline
    let mut vm = boot(&[0x11, 0x00, 0x00, 0x00, 0x06, 0xFF, b'H', b'I', 0x00]);
    run_to_halt(&mut vm);
    assert_eq!(vm.output, b"HI".to_vec());
    assert_eq!(vm.take_output(), b"HI".to_vec());
    assert!(vm.output.is_empty());
}

#[test]
fn print_mem_outside_ram_is_memory_fault() {
    // PRINT_MEM of address 0xFFFFFFFF, which lies outside RAM entirely
    let mut vm = boot(&[0x10, 0xFF, 0xFF, 0xFF, 0xFF, 0xFF]);
    assert!(!vm.step());
    assert_eq!(vm.fault, Some(VmFault::MemoryFault));
}

#[test]
fn idle_opcode_spins_in_place() {
    let mut vm = boot(&[0x00, 0xFF]);
    assert!(vm.step());
    assert_eq!(vm.pc, 0);
    assert_eq!(vm.steps_since_start, 1);
    assert!(vm.step());
    assert_eq!(vm.pc, 0);
    assert_eq!(vm.steps_since_start, 2);
}

#[test]
fn unknown_opcode_is_a_no_op() {
    let mut vm = boot(&[0x42, 0xFF]);
    assert!(vm.step());
    assert_eq!(vm.pc, 1);
    assert_eq!(vm.steps_since_start, 1);
    assert!(!vm.step());
    assert!(vm.fault.is_none());
}

#[test]
fn halt_stops_without_counting_a_step() {
    let mut vm = boot(&[0xFF]);
    assert!(!vm.step());
    assert_eq!(vm.pc, 1);
    assert_eq!(vm.opcode, 0xFF);
    assert_eq!(vm.steps_since_start, 0);
}

#[test]
fn counter_past_rom_end_stops() {
    let mut vm = boot(&[0x0C, 0x00, 0x00, 0x01, 0x00]);
    assert!(vm.step());
    assert_eq!(vm.pc, 0x100);
    assert!(!vm.step());
    assert!(vm.fault.is_none());
}

#[test]
fn swap_buffers_toggles_draw_target() {
    // draw at (0,0) color 1, swap, draw at (0,0) color 2
    let mut vm = boot(&[
        0x15, 0x00, 0x01, 0x00, 0x00, 0x00, 0x01, // DRAW_PIXEL r0,r1 color 1
        0x14, // SWAP_BUFFERS
        0x15, 0x00, 0x01, 0x00, 0x00, 0x00, 0x02, // DRAW_PIXEL r0,r1 color 2
        0xFF,
    ]);
    assert_eq!(vm.current_buffer(), 1);
    assert!(vm.step());
    // surface 1 is presented, so the first pixel lands on surface 0
    assert_eq!(vm.surface_pixels(0)[0], 1);
    assert_eq!(vm.surface_pixels(1)[0], 0);
    assert!(vm.step());
    // after the swap, the freshly drawn surface 0 is presented
    assert_eq!(vm.current_buffer(), 0);
    assert!(vm.step());
    assert_eq!(vm.surface_pixels(0)[0], 1);
    assert_eq!(vm.surface_pixels(1)[0], 2);
}

#[test]
fn draw_pixel_wraps_coordinates() {
    // r0 = 321 -> x = 1, r1 = 241 -> y = 1
    let mut vm = boot(&[
        0x01, 0x00, 0x00, 0x00, 0x01, 0x41, 0x01, 0x01, 0x00, 0x00, 0x00, 0xF1, 0x15, 0x00,
        0x01, 0x00, 0xAB, 0xCD, 0xEF, 0xFF,
    ]);
    run_to_halt(&mut vm);
    assert_eq!(vm.surface_pixels(0)[320 + 1], 0x00ABCDEF);
    assert!(vm.fault.is_none());
}

#[test]
fn draw_sprite_blits_and_caches_once() {
    // sprite at offset 8: 2x1, pixels red-ish and green-ish
    let mut vm = boot(&[
        0x16, 0x00, 0x01, 0x00, 0x00, 0x00, 0x08, // DRAW_SPRITE r0,r1 addr 8
        0xFF, // HALT
        0x00, 0x02, 0x00, 0x01, // width 2, height 1
        0xAA, 0xBB, 0xCC, 0xDD, 0x11, 0x22, 0x33, 0x44,
    ]);
    assert!(vm.step());
    assert_eq!(vm.surface_pixels(0)[0], 0xAABBCCDD);
    assert_eq!(vm.surface_pixels(0)[1], 0x11223344);
    assert_eq!(vm.sprites.len(), 1);

    // a second reference hits the cache and produces the same pixels
    vm.pc = 0;
    assert!(vm.step());
    assert_eq!(vm.sprites.len(), 1);
    assert_eq!(vm.surface_pixels(0)[0], 0xAABBCCDD);
    assert_eq!(vm.surface_pixels(0)[1], 0x11223344);
    assert!(vm.fault.is_none());
}

#[test]
fn draw_sprite_truncated_record_is_rom_fault() {
    let mut vm = boot(&[
        0x16, 0x00, 0x01, 0x00, 0x00, 0x00, 0x08, 0xFF, 0x00, 0x02, 0x00, 0x02, 0xAA,
    ]);
    assert!(!vm.step());
    assert_eq!(vm.fault, Some(VmFault::RomFault));
    assert_eq!(vm.sprites.len(), 0);
}

#[test]
fn load_rom_raw_resets_sprite_cache() {
    let mut vm = boot(&[
        0x16, 0x00, 0x01, 0x00, 0x00, 0x00, 0x08, 0xFF, 0x00, 0x01, 0x00, 0x01, 0x01, 0x02,
        0x03, 0x04,
    ]);
    assert!(vm.step());
    assert_eq!(vm.sprites.len(), 1);
    vm.load_rom_raw(&[0xFF]);
    assert_eq!(vm.sprites.len(), 0);
    assert_eq!(vm.pc, 7);
}

#[test]
fn rom_program_runs_to_completion() {
    // MOV r0 <- 5, MOV r1 <- 3, ADD r0 += r1, HALT
    let rom = [
        0x01, 0x00, 0x00, 0x00, 0x00, 0x05, 0x01, 0x01, 0x00, 0x00, 0x00, 0x03, 0x06, 0x00,
        0x01, 0xFF,
    ];
    let mut vm = boot(&rom);
    run_to_halt(&mut vm);
    assert_eq!(vm.registers[0], 8);
    assert_eq!(vm.pc as usize, rom.len());
    assert!(!vm.step());
    assert!(vm.fault.is_none());
}

#[test]
fn rom_accessors_read_big_endian() {
    let mut vm = boot(&[0x01, 0x02, 0x03, 0x04, 0x05]);
    assert_eq!(vm.peek8rom(1), 0x02);
    assert_eq!(vm.peek16rom(1), 0x0203);
    assert_eq!(vm.peek32rom(1), 0x02030405);
    assert_eq!(vm.get8rom(), 0x01);
    assert_eq!(vm.pc, 1);
    assert_eq!(vm.get16rom(), 0x0203);
    assert_eq!(vm.pc, 3);
    vm.pc = 0;
    assert_eq!(vm.get32rom(), 0x01020304);
    assert_eq!(vm.pc, 4);
}

#[test]
fn memory_accessors_read_big_endian() {
    let mut vm = ChipP::new();
    vm.memory[16] = 0xAA;
    vm.memory[17] = 0xBB;
    vm.memory[18] = 0xCC;
    vm.memory[19] = 0xDD;
    assert_eq!(vm.get8(16), 0xAA);
    assert_eq!(vm.get16(16), 0xAABB);
    assert_eq!(vm.get32(16), 0xAABBCCDD);
}
