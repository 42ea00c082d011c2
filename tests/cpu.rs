use mos6502::{Active, Bus, BusAccess, DecodingError, Mos6502, What};
use std::cell::RefCell;

struct Ram {
    mem: Vec<u8>,
    log: RefCell<Vec<BusAccess>>,
}

impl Ram {
    fn new() -> Ram {
        Ram { mem: vec![0; 65536], log: RefCell::new(Vec::new()) }
    }

    fn with_program(start: u16, program: &[u8]) -> Ram {
        let mut ram = Ram::new();
        ram.mem[0xFFFC] = (start & 0xFF) as u8;
        ram.mem[0xFFFD] = (start >> 8) as u8;
        for (i, b) in program.iter().enumerate() {
            ram.mem[start as usize + i] = *b;
        }
        ram
    }

    fn accesses(&self) -> usize {
        self.log.borrow().len()
    }
}

impl Bus for Ram {
    fn read_8(&self, addr: u16) -> u8 {
        let value = self.mem[addr as usize];
        self.log.borrow_mut().push(BusAccess::Read { addr, value, what: What::Data });
        value
    }

    fn write_8(&mut self, addr: u16, value: u8) {
        self.mem[addr as usize] = value;
        self.log.borrow_mut().push(BusAccess::Write { addr, value });
    }
}

fn booted(ram: &mut Ram) -> Mos6502 {
    let mut cpu = Mos6502::new();
    for _ in 0..7 {
        cpu.step(ram).unwrap();
    }
    cpu
}

fn is_opcode_fetch(cpu: &Mos6502) -> bool {
    matches!(cpu.last_access(), BusAccess::Read { what: What::Opcode, .. })
}

/// Runs one instruction and counts its cycles, opcode fetch included; returns
/// right after the next instruction's opcode fetch.
fn instruction_cycles(cpu: &mut Mos6502, ram: &mut Ram) -> usize {
    if !is_opcode_fetch(cpu) {
        cpu.step(ram).unwrap();
        assert!(is_opcode_fetch(cpu));
    }
    let mut n = 1;
    loop {
        cpu.step(ram).unwrap();
        if is_opcode_fetch(cpu) {
            return n;
        }
        n += 1;
        assert!(n < 20);
    }
}

#[test]
fn it_works() {}

#[test]
fn new_has_power_on_state_and_no_bus_activity() {
    let cpu = Mos6502::new();
    assert_eq!((cpu.a, cpu.x, cpu.y, cpu.s, cpu.pc), (0, 0, 0, 0, 0));
    assert_eq!(cpu.p, 0b0010_0010);
    assert_eq!(cpu.last_access(), BusAccess::Idle);
    assert_eq!(cpu.engine().active, Active::Reset);
    assert_eq!(cpu.cycles(), 0);
}

#[test]
fn reset_loads_vector_in_seven_cycles() {
    let mut ram = Ram::with_program(0x1234, &[0xEA]);
    let mut cpu = Mos6502::new();
    for _ in 0..6 {
        cpu.step(&mut ram).unwrap();
    }
    assert_eq!(cpu.last_access(), BusAccess::Read { addr: 0xFFFC, value: 0x34, what: What::Data });
    cpu.step(&mut ram).unwrap();
    assert_eq!(cpu.last_access(), BusAccess::Read { addr: 0xFFFD, value: 0x12, what: What::Adh });
    assert_eq!(cpu.pc, 0x1234);
    assert_ne!(cpu.p & 0b0000_0100, 0);
    assert_eq!(cpu.s, 0xFD);
    assert_eq!(cpu.cycles(), 7);
    assert_eq!(ram.accesses(), 7);
    cpu.step(&mut ram).unwrap();
    assert_eq!(cpu.last_access(), BusAccess::Read { addr: 0x1234, value: 0xEA, what: What::Opcode });
}

#[test]
fn reset_stack_pointer_wraps() {
    let mut ram = Ram::with_program(0x0200, &[0xEA]);
    let mut cpu = Mos6502::new();
    cpu.s = 0x01;
    for _ in 0..7 {
        cpu.step(&mut ram).unwrap();
    }
    assert_eq!(cpu.s, 0xFE);
}

#[test]
fn clc_clears_carry_in_two_cycles() {
    let mut ram = Ram::with_program(0x0200, &[0x18, 0x77]);
    let mut cpu = booted(&mut ram);
    cpu.p |= 0b0000_0001;
    let before = cpu.p;
    let log_start = ram.accesses();
    cpu.step(&mut ram).unwrap();
    assert_eq!(cpu.last_access(), BusAccess::Read { addr: 0x0200, value: 0x18, what: What::Opcode });
    cpu.step(&mut ram).unwrap();
    assert_eq!(cpu.last_access(), BusAccess::Read { addr: 0x0201, value: 0x77, what: What::DiscardOpcode });
    assert_eq!(cpu.p & 1, 0);
    assert_eq!(cpu.p, before & !1);
    assert_eq!(ram.accesses() - log_start, 2);
    assert_eq!(cpu.pc, 0x0201);
}

#[test]
fn unimplemented_opcode_is_a_decoding_error() {
    let mut ram = Ram::with_program(0x0200, &[0x02]);
    let mut cpu = booted(&mut ram);
    cpu.step(&mut ram).unwrap();
    assert_eq!(cpu.opcode(), 0x02);
    let accesses = ram.accesses();
    let (a, x, y, s, pc, p) = (cpu.a, cpu.x, cpu.y, cpu.s, cpu.pc, cpu.p);
    assert_eq!(cpu.step(&mut ram), Err(DecodingError { opcode: 0x02 }));
    assert_eq!(ram.accesses(), accesses);
    assert_eq!((cpu.a, cpu.x, cpu.y, cpu.s, cpu.pc, cpu.p), (a, x, y, s, pc, p));
    assert_eq!(cpu.step(&mut ram), Err(DecodingError { opcode: 0x02 }));
    assert_eq!(ram.accesses(), accesses);
}

#[test]
fn irq_waits_for_instruction_boundary() {
    // CLI; NOP; NOP
    let mut ram = Ram::with_program(0x0200, &[0x58, 0xEA, 0xEA]);
    ram.mem[0xFFFE] = 0x00;
    ram.mem[0xFFFF] = 0x30;
    let mut cpu = booted(&mut ram);
    cpu.s = 0xFF;
    assert_eq!(instruction_cycles(&mut cpu, &mut ram), 2);
    // the NOP's opcode was fetched on the last step
    assert_eq!(cpu.pc, 0x0202);
    cpu.irq();
    cpu.step(&mut ram).unwrap();
    assert_eq!(cpu.engine().active, Active::Instruction);
    assert_eq!(cpu.last_access(), BusAccess::Read { addr: 0x0202, value: 0xEA, what: What::DiscardOpcode });
    cpu.step(&mut ram).unwrap();
    assert_eq!(cpu.engine().active, Active::Irq);
    for _ in 0..6 {
        cpu.step(&mut ram).unwrap();
    }
    assert_eq!(cpu.pc, 0x3000);
    assert_ne!(cpu.p & 0b0000_0100, 0);
    assert_eq!(ram.mem[0x01FF], 0x02);
    assert_eq!(ram.mem[0x01FE], 0x02);
    assert_eq!(ram.mem[0x01FD] & 0b0001_0000, 0);
    assert_eq!(cpu.s, 0xFC);
}

#[test]
fn irq_ignored_while_interrupts_disabled() {
    let mut ram = Ram::with_program(0x0200, &[0xEA, 0xEA]);
    let mut cpu = booted(&mut ram);
    cpu.irq();
    assert_eq!(instruction_cycles(&mut cpu, &mut ram), 2);
    assert_eq!(cpu.engine().active, Active::Fetch);
    assert_eq!(cpu.pc, 0x0202);
}

#[test]
fn nmi_serviced_even_with_interrupts_disabled() {
    let mut ram = Ram::with_program(0x0200, &[0xEA, 0xEA]);
    ram.mem[0xFFFA] = 0x00;
    ram.mem[0xFFFB] = 0x40;
    let mut cpu = booted(&mut ram);
    cpu.nmi();
    cpu.step(&mut ram).unwrap();
    assert_eq!(cpu.engine().active, Active::Nmi);
    for _ in 0..6 {
        cpu.step(&mut ram).unwrap();
    }
    assert_eq!(cpu.pc, 0x4000);
    cpu.step(&mut ram).unwrap();
    assert_eq!(cpu.engine().active, Active::Fetch);
}

#[test]
fn documented_cycle_counts() {
    // LDA #; LDA zp; LDA zp,X; LDA abs; STA abs; LDA (zp,X); INX; JMP abs
    let program = [
        0xA9, 0x05, 0xA5, 0x10, 0xB5, 0x10, 0xAD, 0x00, 0x30, 0x8D, 0x00, 0x30, 0xA1, 0x20, 0xE8,
        0x4C, 0x00, 0x05,
    ];
    let mut ram = Ram::with_program(0x0200, &program);
    let mut cpu = booted(&mut ram);
    let expected = [2, 3, 4, 4, 4, 6, 2, 3];
    for n in expected.iter() {
        assert_eq!(instruction_cycles(&mut cpu, &mut ram), *n);
    }
    assert_eq!(cpu.pc, 0x0501);
}

#[test]
fn jmp_indirect_stays_in_page() {
    let mut ram = Ram::with_program(0x0200, &[0x6C, 0xFF, 0x30]);
    ram.mem[0x30FF] = 0x80;
    ram.mem[0x3000] = 0x40;
    ram.mem[0x3100] = 0x99;
    let mut cpu = booted(&mut ram);
    assert_eq!(instruction_cycles(&mut cpu, &mut ram), 5);
    assert_eq!(cpu.pc, 0x4081);
}

#[test]
fn absolute_indexed_read_page_cross() {
    // LDX #; LDA abs,X; LDA abs,X
    let mut ram = Ram::with_program(0x0200, &[0xA2, 0x10, 0xBD, 0x00, 0x30, 0xBD, 0xF8, 0x30]);
    ram.mem[0x3010] = 0x42;
    ram.mem[0x3108] = 0x84;
    let mut cpu = booted(&mut ram);
    assert_eq!(instruction_cycles(&mut cpu, &mut ram), 2);
    assert_eq!(instruction_cycles(&mut cpu, &mut ram), 4);
    assert_eq!(cpu.a, 0x42);
    assert_eq!(instruction_cycles(&mut cpu, &mut ram), 5);
    assert_eq!(cpu.a, 0x84);
    assert_ne!(cpu.p & 0b1000_0000, 0);
}

#[test]
fn absolute_indexed_dummy_read_before_fix() {
    let mut ram = Ram::with_program(0x0200, &[0xA0, 0x10, 0xB9, 0xF8, 0x30]);
    let mut cpu = booted(&mut ram);
    instruction_cycles(&mut cpu, &mut ram);
    let start = ram.accesses();
    for _ in 0..4 {
        cpu.step(&mut ram).unwrap();
    }
    let log = ram.log.borrow();
    let addrs: Vec<u16> = log[start..]
        .iter()
        .map(|a| match a {
            BusAccess::Read { addr, .. } => *addr,
            BusAccess::Write { addr, .. } => *addr,
            BusAccess::Idle => 0,
        })
        .collect();
    assert_eq!(addrs, vec![0x0203, 0x0204, 0x3008, 0x3108]);
}

#[test]
fn absolute_indexed_store_always_five_cycles() {
    // LDA #; STA abs,X (no cross); LDX #; STA abs,X (cross)
    let mut ram = Ram::with_program(0x0200, &[0xA9, 0x99, 0x9D, 0x00, 0x30, 0xA2, 0x10, 0x9D, 0xF8, 0x30]);
    let mut cpu = booted(&mut ram);
    instruction_cycles(&mut cpu, &mut ram);
    assert_eq!(instruction_cycles(&mut cpu, &mut ram), 5);
    assert_eq!(ram.mem[0x3000], 0x99);
    instruction_cycles(&mut cpu, &mut ram);
    assert_eq!(instruction_cycles(&mut cpu, &mut ram), 5);
    assert_eq!(ram.mem[0x3108], 0x99);
}

#[test]
fn indirect_indexed_read_page_cross() {
    // LDY #; LDA (zp),Y; LDA (zp),Y
    let mut ram = Ram::with_program(0x0200, &[0xA0, 0x20, 0xB1, 0x40, 0xB1, 0x42]);
    ram.mem[0x40] = 0x00;
    ram.mem[0x41] = 0x30;
    ram.mem[0x42] = 0xF0;
    ram.mem[0x43] = 0x30;
    ram.mem[0x3020] = 0x11;
    ram.mem[0x3110] = 0x22;
    let mut cpu = booted(&mut ram);
    instruction_cycles(&mut cpu, &mut ram);
    assert_eq!(instruction_cycles(&mut cpu, &mut ram), 5);
    assert_eq!(cpu.a, 0x11);
    assert_eq!(instruction_cycles(&mut cpu, &mut ram), 6);
    assert_eq!(cpu.a, 0x22);
}

#[test]
fn branch_cycle_counts() {
    // BCC taken within the page; BCS not taken; BCC taken across a page
    let mut ram = Ram::with_program(0x02F0, &[0x90, 0x02, 0x00, 0x00, 0xB0, 0x10, 0x90, 0x10]);
    let mut cpu = booted(&mut ram);
    assert_eq!(instruction_cycles(&mut cpu, &mut ram), 3);
    assert_eq!(cpu.pc, 0x02F5);
    assert_eq!(instruction_cycles(&mut cpu, &mut ram), 2);
    assert_eq!(instruction_cycles(&mut cpu, &mut ram), 4);
    // 0x02F8 + 0x10 = 0x0308, and the next opcode fetch has advanced PC
    assert_eq!(cpu.pc, 0x0309);
}

#[test]
fn branch_backward_within_page() {
    // BCC -0x80 from 0x02F8 lands on 0x0278, in the same page
    let mut ram = Ram::with_program(0x02F6, &[0x90, 0x80]);
    let mut cpu = booted(&mut ram);
    assert_eq!(instruction_cycles(&mut cpu, &mut ram), 3);
    assert_eq!(cpu.pc, 0x0279);
}

#[test]
fn branch_backward_across_page() {
    // BCC -0x10 from 0x0202 lands on 0x01F2
    let mut ram = Ram::with_program(0x0200, &[0x90, 0xF0]);
    let mut cpu = booted(&mut ram);
    assert_eq!(instruction_cycles(&mut cpu, &mut ram), 4);
    assert_eq!(cpu.pc, 0x01F3);
}

#[test]
fn transfers_and_counters_set_flags() {
    // LDX #0; DEX; TXA; INY; TXS; TSX
    let mut ram = Ram::with_program(0x0200, &[0xA2, 0x00, 0xCA, 0x8A, 0xC8, 0x9A, 0xBA]);
    let mut cpu = booted(&mut ram);
    instruction_cycles(&mut cpu, &mut ram);
    assert_ne!(cpu.p & 0b0000_0010, 0);
    instruction_cycles(&mut cpu, &mut ram);
    assert_eq!(cpu.x, 0xFF);
    assert_ne!(cpu.p & 0b1000_0000, 0);
    assert_eq!(cpu.p & 0b0000_0010, 0);
    instruction_cycles(&mut cpu, &mut ram);
    assert_eq!(cpu.a, 0xFF);
    instruction_cycles(&mut cpu, &mut ram);
    assert_eq!(cpu.y, 1);
    instruction_cycles(&mut cpu, &mut ram);
    assert_eq!(cpu.s, 0xFF);
    assert_eq!(cpu.p & 0b1000_0000, 0);
}

#[test]
fn zero_page_indexed_wraps_in_page_zero() {
    // LDX #; LDA zp,X
    let mut ram = Ram::with_program(0x0200, &[0xA2, 0x20, 0xB5, 0xF0]);
    ram.mem[0x0010] = 0x5A;
    ram.mem[0x0110] = 0xA5;
    let mut cpu = booted(&mut ram);
    instruction_cycles(&mut cpu, &mut ram);
    assert_eq!(instruction_cycles(&mut cpu, &mut ram), 4);
    assert_eq!(cpu.a, 0x5A);
}
