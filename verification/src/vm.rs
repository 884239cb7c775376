//! The interpreter core: a register file, byte-addressable RAM, a call
//! stack, a program counter into an immutable ROM, the double-buffered
//! drawing surface, and a lazily populated sprite cache.
//!
//! `step` executes one instruction per call. Any out-of-bounds access,
//! register index outside the file, stack overflow or underflow, or
//! division by zero is a fault: the fault kind is recorded, the faulting
//! instruction leaves registers, memory and stack untouched beyond the
//! operands it consumed, and every later `step` refuses to run.

use vstd::prelude::*;
use vstd::pervasive::VecAdditionalExecFns;
use std::collections::HashMap;
use crate::bytes::{be16_at, be32_at, be32_bytes, be16_read, be32_read, be32_write, splice};
use crate::frame::{FbState, FrameBuffer, DISPLAY_H, DISPLAY_W};
use crate::sprite::{Sprite, SpriteData, sprite_decodable, sprite_decode};

verus! {

broadcast use vstd::std_specs::hash::group_hash_axioms;

/// Number of general-purpose registers.
pub const REG_COUNT: usize = 32;

/// Bytes of addressable RAM.
pub const MEM_SIZE: usize = 65536;

/// Saved program counters the call stack can hold.
pub const STACK_CAPACITY: usize = 1024;

/// Largest ROM the program counter can address: every offset fits in 32
/// bits. A longer byte source is rejected at load time.
pub const MAX_ROM_LEN: usize = 0xFFFF_FFFF;

/// A non-recoverable condition. Any fault halts the VM: `step` records
/// it and refuses to execute further instructions.
#[derive(Clone, Copy, Debug, PartialEq, Eq, Structural)]
pub enum VmFault {
    /// Program counter or ROM-relative address outside the ROM.
    RomFault,
    /// RAM address outside the memory.
    MemoryFault,
    /// Register index outside the register file.
    RegisterFault,
    /// Call-stack push beyond capacity, or pop when empty.
    StackFault,
    /// Division by a register holding zero.
    ArithmeticFault,
}

/// Mathematical model of the whole machine.
#[verifier::ext_equal]
pub struct VmState {
    pub registers: Seq<u32>,
    pub pc: u32,
    pub steps_since_start: u32,
    pub stack: Seq<u32>,
    pub rom: Seq<u8>,
    pub memory: Seq<u8>,
    pub frame: FbState,
    pub sprites: Map<u32, SpriteData>,
    pub output: Seq<u8>,
    pub opcode: u8,
    pub fault: Option<VmFault>,
}

impl VmState {
    /// Structural well-formedness: fixed sizes, a selector naming one of
    /// the two surfaces, a bounded stack, and a sprite cache that holds
    /// exactly the decodes of the current ROM at its cached addresses.
    pub open spec fn wf(self) -> bool {
        &&& self.registers.len() == REG_COUNT
        &&& self.memory.len() == MEM_SIZE
        &&& self.stack.len() <= STACK_CAPACITY
        &&& self.rom.len() <= MAX_ROM_LEN
        &&& self.frame.wf()
        &&& forall|a: u32|
            #[trigger] self.sprites.dom().contains(a) ==> sprite_decodable(self.rom, a as int)
                && self.sprites[a] == sprite_decode(self.rom, a as int)
    }
}

/// `s` with the given fault recorded.
pub open spec fn with_fault(s: VmState, f: VmFault) -> VmState {
    VmState { fault: Some(f), ..s }
}

/// The interpreter.
pub struct ChipP {
    pub registers: Vec<u32>,
    pub pc: u32,
    pub steps_since_start: u32,
    pub stack: Vec<u32>,
    pub rom: Vec<u8>,
    pub rom_size: usize,
    pub memory: Vec<u8>,
    pub frame: FrameBuffer,
    pub opcode: u8,
    pub sprites: HashMap<u32, Sprite>,
    pub output: Vec<u8>,
    pub fault: Option<VmFault>,
}

/// The cache as a map from ROM address to decoded sprite model.
pub open spec fn sprites_view(m: HashMap<u32, Sprite>) -> Map<u32, SpriteData> {
    m@.map_values(|s: Sprite| s@)
}

impl View for ChipP {
    type V = VmState;

    open spec fn view(&self) -> VmState {
        VmState {
            registers: self.registers@,
            pc: self.pc,
            steps_since_start: self.steps_since_start,
            stack: self.stack@,
            rom: self.rom@,
            memory: self.memory@,
            frame: self.frame@,
            sprites: sprites_view(self.sprites),
            output: self.output@,
            opcode: self.opcode,
            fault: self.fault,
        }
    }
}

/// A vector of `n` zero bytes.
fn zero_bytes(n: usize) -> (r: Vec<u8>)
    ensures
        r@.len() == n,
        forall|i: int| 0 <= i < r@.len() ==> r@[i] == 0u8,
{
    let mut v: Vec<u8> = Vec::new();
    let mut k: usize = 0;
    while k < n
        invariant
            k == v@.len(),
            k <= n,
            forall|i: int| 0 <= i < k ==> v@[i] == 0u8,
        decreases n - k,
    {
        v.push(0u8);
        k += 1;
    }
    v
}

impl ChipP {
    /// The machine-level invariant: the model is well-formed and the
    /// cached ROM length matches the ROM.
    pub open spec fn wf(&self) -> bool {
        &&& self@.wf()
        &&& self.rom_size == self.rom@.len()
    }

    /// A fresh machine: zeroed registers and memory, empty stack and
    /// ROM, program counter at zero, surface 1 presented, no cached
    /// sprites, no output, no fault.
    pub fn new() -> (r: ChipP)
        ensures
            r.wf(),
            r@.pc == 0,
            r@.steps_since_start == 0,
            r@.stack.len() == 0,
            r@.rom.len() == 0,
            r@.output.len() == 0,
            r@.fault is None,
            r@.frame.current == 1,
            r@.sprites.dom() == Set::<u32>::empty(),
            forall|i: int| 0 <= i < REG_COUNT ==> r@.registers[i] == 0u32,
            forall|i: int| 0 <= i < MEM_SIZE ==> r@.memory[i] == 0u8,
    {
        let mut registers: Vec<u32> = Vec::new();
        let mut k: usize = 0;
        while k < REG_COUNT
            invariant
                k == registers@.len(),
                k <= REG_COUNT,
                forall|i: int| 0 <= i < k ==> registers@[i] == 0u32,
            decreases REG_COUNT - k,
        {
            registers.push(0u32);
            k += 1;
        }
        let r = ChipP {
            registers,
            pc: 0,
            steps_since_start: 0,
            stack: Vec::new(),
            rom: Vec::new(),
            rom_size: 0,
            memory: zero_bytes(MEM_SIZE),
            frame: FrameBuffer::new(),
            opcode: 0,
            sprites: HashMap::new(),
            output: Vec::new(),
            fault: None,
        };
        proof {
            assert(sprites_view(r.sprites) =~= Map::<u32, SpriteData>::empty());
        }
        r
    }

    /// Install a program from a raw byte sequence. The sprite cache is
    /// reset, since cached decodes are tied to the ROM they came from.
    /// The caller must have checked the size bound; a longer source is a
    /// load error, to be rejected before this call.
    pub fn load_rom_raw(&mut self, rom: &[u8])
        requires
            old(self).wf(),
            rom@.len() <= MAX_ROM_LEN,
        ensures
            final(self).wf(),
            final(self)@ == (VmState {
                rom: rom@,
                sprites: Map::<u32, SpriteData>::empty(),
                ..old(self)@
            }),
    {
        let n: usize = rom.len();
        let mut data: Vec<u8> = Vec::new();
        let mut k: usize = 0;
        while k < n
            invariant
                k <= n,
                n == rom@.len(),
                data@ == rom@.subrange(0, k as int),
            decreases n - k,
        {
            data.push(rom[k]);
            assert(data@ =~= rom@.subrange(0, k + 1));
            k += 1;
        }
        assert(data@ =~= rom@);
        self.rom = data;
        self.rom_size = self.rom.len();
        self.sprites = HashMap::new();
        proof {
            assert(sprites_view(self.sprites) =~= Map::<u32, SpriteData>::empty());
            assert(self@ =~~= (VmState {
                rom: rom@,
                sprites: Map::<u32, SpriteData>::empty(),
                ..old(self)@
            }));
        }
    }

    /// Read the byte at the program counter and advance past it.
    pub fn get8rom(&mut self) -> (r: u8)
        requires
            old(self).wf(),
            old(self)@.pc < old(self)@.rom.len(),
        ensures
            final(self).wf(),
            r == old(self)@.rom[old(self)@.pc as int],
            final(self)@ == (VmState { pc: (old(self)@.pc + 1) as u32, ..old(self)@ }),
    {
        let out = self.rom[self.pc as usize];
        self.pc = self.pc + 1;
        out
    }

    /// Read a big-endian 16-bit integer at the program counter and
    /// advance past it.
    pub fn get16rom(&mut self) -> (r: u16)
        requires
            old(self).wf(),
            old(self)@.pc + 2 <= old(self)@.rom.len(),
        ensures
            final(self).wf(),
            r == be16_at(old(self)@.rom, old(self)@.pc as int),
            final(self)@ == (VmState { pc: (old(self)@.pc + 2) as u32, ..old(self)@ }),
    {
        let out = be16_read(&self.rom, self.pc as usize);
        self.pc = self.pc + 2;
        out
    }

    /// Read a big-endian 32-bit integer at the program counter and
    /// advance past it.
    pub fn get32rom(&mut self) -> (r: u32)
        requires
            old(self).wf(),
            old(self)@.pc + 4 <= old(self)@.rom.len(),
        ensures
            final(self).wf(),
            r == be32_at(old(self)@.rom, old(self)@.pc as int),
            final(self)@ == (VmState { pc: (old(self)@.pc + 4) as u32, ..old(self)@ }),
    {
        let out = be32_read(&self.rom, self.pc as usize);
        self.pc = self.pc + 4;
        out
    }

    /// Read the ROM byte at `addr` without moving the program counter.
    pub fn peek8rom(&mut self, addr: u32) -> (r: u8)
        requires
            old(self).wf(),
            addr < old(self)@.rom.len(),
        ensures
            final(self).wf(),
            final(self)@ == old(self)@,
            r == old(self)@.rom[addr as int],
    {
        self.rom[addr as usize]
    }

    /// Read a big-endian 16-bit ROM integer at `addr` without moving the
    /// program counter.
    pub fn peek16rom(&mut self, addr: u32) -> (r: u16)
        requires
            old(self).wf(),
            addr + 2 <= old(self)@.rom.len(),
        ensures
            final(self).wf(),
            final(self)@ == old(self)@,
            r == be16_at(old(self)@.rom, addr as int),
    {
        be16_read(&self.rom, addr as usize)
    }

    /// Read a big-endian 32-bit ROM integer at `addr` without moving the
    /// program counter.
    pub fn peek32rom(&mut self, addr: u32) -> (r: u32)
        requires
            old(self).wf(),
            addr + 4 <= old(self)@.rom.len(),
        ensures
            final(self).wf(),
            final(self)@ == old(self)@,
            r == be32_at(old(self)@.rom, addr as int),
    {
        be32_read(&self.rom, addr as usize)
    }

    /// Read the RAM byte at `addr`.
    pub fn get8(&mut self, addr: u32) -> (r: u8)
        requires
            old(self).wf(),
            addr < MEM_SIZE,
        ensures
            final(self).wf(),
            final(self)@ == old(self)@,
            r == old(self)@.memory[addr as int],
    {
        self.memory[addr as usize]
    }

    /// Read a big-endian 16-bit RAM integer at `addr`.
    pub fn get16(&mut self, addr: u32) -> (r: u16)
        requires
            old(self).wf(),
            addr + 2 <= MEM_SIZE,
        ensures
            final(self).wf(),
            final(self)@ == old(self)@,
            r == be16_at(old(self)@.memory, addr as int),
    {
        be16_read(&self.memory, addr as usize)
    }

    /// Read a big-endian 32-bit RAM integer at `addr`.
    pub fn get32(&mut self, addr: u32) -> (r: u32)
        requires
            old(self).wf(),
            addr + 4 <= MEM_SIZE,
        ensures
            final(self).wf(),
            final(self)@ == old(self)@,
            r == be32_at(old(self)@.memory, addr as int),
    {
        be32_read(&self.memory, addr as usize)
    }
}

// ---------------------------------------------------------------------
// Instruction semantics. Each `spec_op_*` takes the machine state with
// the program counter at the instruction's first operand byte (the
// opcode byte already consumed) and yields the state after the
// instruction. Operand bytes that would run past the end of ROM are a
// RomFault with nothing consumed; a bad register index, RAM address,
// stack move or zero divisor is a fault with the operands consumed and
// nothing else changed.
// ---------------------------------------------------------------------
/// MOV: register <- 32-bit immediate.
pub open spec fn spec_op_mov(s: VmState) -> VmState {
    if s.pc + 5 > s.rom.len() {
        with_fault(s, VmFault::RomFault)
    } else {
        let r = s.rom[s.pc as int];
        let v = be32_at(s.rom, s.pc + 1);
        let s1 = VmState { pc: (s.pc + 5) as u32, ..s };
        if r >= REG_COUNT {
            with_fault(s1, VmFault::RegisterFault)
        } else {
            VmState { registers: s1.registers.update(r as int, v), ..s1 }
        }
    }
}

/// STORE_I: memory[addr..addr+4] <- register, big-endian.
pub open spec fn spec_op_store_i(s: VmState) -> VmState {
    if s.pc + 5 > s.rom.len() {
        with_fault(s, VmFault::RomFault)
    } else {
        let r = s.rom[s.pc as int];
        let a = be32_at(s.rom, s.pc + 1);
        let s1 = VmState { pc: (s.pc + 5) as u32, ..s };
        if r >= REG_COUNT {
            with_fault(s1, VmFault::RegisterFault)
        } else if a + 4 > MEM_SIZE {
            with_fault(s1, VmFault::MemoryFault)
        } else {
            VmState {
                memory: splice(s1.memory, a as int, be32_bytes(s1.registers[r as int])),
                ..s1
            }
        }
    }
}

/// LOAD_I: register <- memory[addr..addr+4], big-endian.
pub open spec fn spec_op_load_i(s: VmState) -> VmState {
    if s.pc + 5 > s.rom.len() {
        with_fault(s, VmFault::RomFault)
    } else {
        let r = s.rom[s.pc as int];
        let a = be32_at(s.rom, s.pc + 1);
        let s1 = VmState { pc: (s.pc + 5) as u32, ..s };
        if r >= REG_COUNT {
            with_fault(s1, VmFault::RegisterFault)
        } else if a + 4 > MEM_SIZE {
            with_fault(s1, VmFault::MemoryFault)
        } else {
            VmState {
                registers: s1.registers.update(r as int, be32_at(s1.memory, a as int)),
                ..s1
            }
        }
    }
}

/// STORE: memory[register2..+4] <- register1, big-endian.
pub open spec fn spec_op_store(s: VmState) -> VmState {
    if s.pc + 2 > s.rom.len() {
        with_fault(s, VmFault::RomFault)
    } else {
        let r1 = s.rom[s.pc as int];
        let r2 = s.rom[s.pc + 1];
        let s1 = VmState { pc: (s.pc + 2) as u32, ..s };
        if r1 >= REG_COUNT || r2 >= REG_COUNT {
            with_fault(s1, VmFault::RegisterFault)
        } else {
            let a = s1.registers[r2 as int];
            if a + 4 > MEM_SIZE {
                with_fault(s1, VmFault::MemoryFault)
            } else {
                VmState {
                    memory: splice(s1.memory, a as int, be32_bytes(s1.registers[r1 as int])),
                    ..s1
                }
            }
        }
    }
}

/// LOAD: register1 <- memory[register2..+4], big-endian.
pub open spec fn spec_op_load(s: VmState) -> VmState {
    if s.pc + 2 > s.rom.len() {
        with_fault(s, VmFault::RomFault)
    } else {
        let r1 = s.rom[s.pc as int];
        let r2 = s.rom[s.pc + 1];
        let s1 = VmState { pc: (s.pc + 2) as u32, ..s };
        if r1 >= REG_COUNT || r2 >= REG_COUNT {
            with_fault(s1, VmFault::RegisterFault)
        } else {
            let a = s1.registers[r2 as int];
            if a + 4 > MEM_SIZE {
                with_fault(s1, VmFault::MemoryFault)
            } else {
                VmState {
                    registers: s1.registers.update(r1 as int, be32_at(s1.memory, a as int)),
                    ..s1
                }
            }
        }
    }
}

/// The state after a two-register arithmetic opcode whose result is
/// already computed: register1 <- v.
pub open spec fn reg_pair_result(s: VmState, r1: u8, v: u32) -> VmState {
    VmState { registers: s.registers.update(r1 as int, v), ..s }
}

/// ADD: register1 <- register1 + register2, wrapping.
pub open spec fn spec_op_add(s: VmState) -> VmState {
    if s.pc + 2 > s.rom.len() {
        with_fault(s, VmFault::RomFault)
    } else {
        let r1 = s.rom[s.pc as int];
        let r2 = s.rom[s.pc + 1];
        let s1 = VmState { pc: (s.pc + 2) as u32, ..s };
        if r1 >= REG_COUNT || r2 >= REG_COUNT {
            with_fault(s1, VmFault::RegisterFault)
        } else {
            reg_pair_result(
                s1,
                r1,
                ((s1.registers[r1 as int] + s1.registers[r2 as int]) % 0x1_0000_0000) as u32,
            )
        }
    }
}

/// ADD_I: register <- register + 32-bit immediate, wrapping.
pub open spec fn spec_op_add_i(s: VmState) -> VmState {
    if s.pc + 5 > s.rom.len() {
        with_fault(s, VmFault::RomFault)
    } else {
        let r = s.rom[s.pc as int];
        let v = be32_at(s.rom, s.pc + 1);
        let s1 = VmState { pc: (s.pc + 5) as u32, ..s };
        if r >= REG_COUNT {
            with_fault(s1, VmFault::RegisterFault)
        } else {
            reg_pair_result(s1, r, ((s1.registers[r as int] + v) % 0x1_0000_0000) as u32)
        }
    }
}

/// SUB: register1 <- register1 - register2, wrapping.
pub open spec fn spec_op_sub(s: VmState) -> VmState {
    if s.pc + 2 > s.rom.len() {
        with_fault(s, VmFault::RomFault)
    } else {
        let r1 = s.rom[s.pc as int];
        let r2 = s.rom[s.pc + 1];
        let s1 = VmState { pc: (s.pc + 2) as u32, ..s };
        if r1 >= REG_COUNT || r2 >= REG_COUNT {
            with_fault(s1, VmFault::RegisterFault)
        } else {
            reg_pair_result(
                s1,
                r1,
                ((s1.registers[r1 as int] - s1.registers[r2 as int]) % 0x1_0000_0000) as u32,
            )
        }
    }
}

/// SUB_I: register <- register - 32-bit immediate, wrapping.
pub open spec fn spec_op_sub_i(s: VmState) -> VmState {
    if s.pc + 5 > s.rom.len() {
        with_fault(s, VmFault::RomFault)
    } else {
        let r = s.rom[s.pc as int];
        let v = be32_at(s.rom, s.pc + 1);
        let s1 = VmState { pc: (s.pc + 5) as u32, ..s };
        if r >= REG_COUNT {
            with_fault(s1, VmFault::RegisterFault)
        } else {
            reg_pair_result(s1, r, ((s1.registers[r as int] - v) % 0x1_0000_0000) as u32)
        }
    }
}

/// MUL: register1 <- register1 * register2, wrapping.
pub open spec fn spec_op_mul(s: VmState) -> VmState {
    if s.pc + 2 > s.rom.len() {
        with_fault(s, VmFault::RomFault)
    } else {
        let r1 = s.rom[s.pc as int];
        let r2 = s.rom[s.pc + 1];
        let s1 = VmState { pc: (s.pc + 2) as u32, ..s };
        if r1 >= REG_COUNT || r2 >= REG_COUNT {
            with_fault(s1, VmFault::RegisterFault)
        } else {
            reg_pair_result(
                s1,
                r1,
                ((s1.registers[r1 as int] * s1.registers[r2 as int]) % 0x1_0000_0000) as u32,
            )
        }
    }
}

/// DIV: register1 <- register1 / register2; a zero divisor is fatal.
pub open spec fn spec_op_div(s: VmState) -> VmState {
    if s.pc + 2 > s.rom.len() {
        with_fault(s, VmFault::RomFault)
    } else {
        let r1 = s.rom[s.pc as int];
        let r2 = s.rom[s.pc + 1];
        let s1 = VmState { pc: (s.pc + 2) as u32, ..s };
        if r1 >= REG_COUNT || r2 >= REG_COUNT {
            with_fault(s1, VmFault::RegisterFault)
        } else if s1.registers[r2 as int] == 0 {
            with_fault(s1, VmFault::ArithmeticFault)
        } else {
            reg_pair_result(
                s1,
                r1,
                (s1.registers[r1 as int] / s1.registers[r2 as int]) as u32,
            )
        }
    }
}

/// JMP: counter <- addr.
pub open spec fn spec_op_jmp(s: VmState) -> VmState {
    if s.pc + 4 > s.rom.len() {
        with_fault(s, VmFault::RomFault)
    } else {
        VmState { pc: be32_at(s.rom, s.pc as int), ..s }
    }
}

/// The shared shape of JEQ, JNE and JGT: the counter moves to addr
/// exactly when `taken` relates the two register values.
pub open spec fn spec_cond_jump(s: VmState, taken: spec_fn(u32, u32) -> bool) -> VmState {
    if s.pc + 6 > s.rom.len() {
        with_fault(s, VmFault::RomFault)
    } else {
        let r1 = s.rom[s.pc as int];
        let r2 = s.rom[s.pc + 1];
        let a = be32_at(s.rom, s.pc + 2);
        let s1 = VmState { pc: (s.pc + 6) as u32, ..s };
        if r1 >= REG_COUNT || r2 >= REG_COUNT {
            with_fault(s1, VmFault::RegisterFault)
        } else if taken(s1.registers[r1 as int], s1.registers[r2 as int]) {
            VmState { pc: a, ..s1 }
        } else {
            s1
        }
    }
}

/// JEQ: jump when the registers are equal.
pub open spec fn spec_op_jeq(s: VmState) -> VmState {
    spec_cond_jump(s, |a: u32, b: u32| a == b)
}

/// JNE: jump when the registers differ.
pub open spec fn spec_op_jne(s: VmState) -> VmState {
    spec_cond_jump(s, |a: u32, b: u32| a != b)
}

/// JGT: jump when register1 is greater than register2.
pub open spec fn spec_op_jgt(s: VmState) -> VmState {
    spec_cond_jump(s, |a: u32, b: u32| a > b)
}

/// CALL: push the counter (already past the operand) and jump; a push
/// at capacity is fatal.
pub open spec fn spec_op_call(s: VmState) -> VmState {
    if s.pc + 4 > s.rom.len() {
        with_fault(s, VmFault::RomFault)
    } else {
        let a = be32_at(s.rom, s.pc as int);
        let s1 = VmState { pc: (s.pc + 4) as u32, ..s };
        if s1.stack.len() >= STACK_CAPACITY {
            with_fault(s1, VmFault::StackFault)
        } else {
            VmState { pc: a, stack: s1.stack.push(s1.pc), ..s1 }
        }
    }
}

/// RETURN: pop the counter; a pop when empty is fatal.
pub open spec fn spec_op_return(s: VmState) -> VmState {
    if s.stack.len() == 0 {
        with_fault(s, VmFault::StackFault)
    } else {
        VmState { pc: s.stack.last(), stack: s.stack.drop_last(), ..s }
    }
}

/// SWAP_BUFFERS: exchange the roles of the two surfaces.
pub open spec fn spec_op_swap_buffers(s: VmState) -> VmState {
    VmState { frame: FbState { current: s.frame.back(), ..s.frame }, ..s }
}

/// DRAW_PIXEL: plot one pixel on the back surface at the register-named
/// coordinates taken modulo the surface size.
pub open spec fn spec_op_draw_pixel(s: VmState) -> VmState {
    if s.pc + 6 > s.rom.len() {
        with_fault(s, VmFault::RomFault)
    } else {
        let rx = s.rom[s.pc as int];
        let ry = s.rom[s.pc + 1];
        let color = be32_at(s.rom, s.pc + 2);
        let s1 = VmState { pc: (s.pc + 6) as u32, ..s };
        if rx >= REG_COUNT || ry >= REG_COUNT {
            with_fault(s1, VmFault::RegisterFault)
        } else {
            let x = s1.registers[rx as int] as int % (DISPLAY_W as int);
            let y = s1.registers[ry as int] as int % (DISPLAY_H as int);
            VmState { frame: crate::frame::spec_plot(s1.frame, x, y, color), ..s1 }
        }
    }
}

impl ChipP {
    /// True when fewer than `n` operand bytes remain in ROM; if so, the
    /// RomFault is recorded with the counter left where it was.
    fn operands_missing(&mut self, n: u32) -> (r: bool)
        requires
            old(self).wf(),
        ensures
            final(self).wf(),
            r == (old(self)@.pc + n > old(self)@.rom.len()),
            r ==> final(self)@ == with_fault(old(self)@, VmFault::RomFault),
            !r ==> final(self)@ == old(self)@,
    {
        if self.pc as u64 + n as u64 > self.rom_size as u64 {
            self.fault = Some(VmFault::RomFault);
            true
        } else {
            false
        }
    }

    /// Record a fault.
    fn set_fault(&mut self, f: VmFault)
        requires
            old(self).wf(),
        ensures
            final(self).wf(),
            final(self)@ == with_fault(old(self)@, f),
    {
        self.fault = Some(f);
    }

    /// MOV: load a 32-bit immediate into a register.
    pub fn op_mov(&mut self)
        requires
            old(self).wf(),
        ensures
            final(self).wf(),
            final(self)@ == spec_op_mov(old(self)@),
    {
        if self.operands_missing(5) {
            return ;
        }
        let r = self.get8rom();
        let v = self.get32rom();
        if r as usize >= REG_COUNT {
            self.set_fault(VmFault::RegisterFault);
            return ;
        }
        self.registers.set(r as usize, v);
    }

    /// STORE_I: store a register into memory at an immediate address.
    pub fn op_store_i(&mut self)
        requires
            old(self).wf(),
        ensures
            final(self).wf(),
            final(self)@ == spec_op_store_i(old(self)@),
    {
        if self.operands_missing(5) {
            return ;
        }
        let r = self.get8rom();
        let a = self.get32rom();
        if r as usize >= REG_COUNT {
            self.set_fault(VmFault::RegisterFault);
            return ;
        }
        if a > MEM_SIZE as u32 - 4 {
            self.set_fault(VmFault::MemoryFault);
            return ;
        }
        let v = self.registers[r as usize];
        be32_write(&mut self.memory, a as usize, v);
    }

    /// LOAD_I: load a register from memory at an immediate address.
    pub fn op_load_i(&mut self)
        requires
            old(self).wf(),
        ensures
            final(self).wf(),
            final(self)@ == spec_op_load_i(old(self)@),
    {
        if self.operands_missing(5) {
            return ;
        }
        let r = self.get8rom();
        let a = self.get32rom();
        if r as usize >= REG_COUNT {
            self.set_fault(VmFault::RegisterFault);
            return ;
        }
        if a > MEM_SIZE as u32 - 4 {
            self.set_fault(VmFault::MemoryFault);
            return ;
        }
        let v = self.get32(a);
        self.registers.set(r as usize, v);
    }

    /// STORE: store register1 into memory at the address in register2.
    pub fn op_store(&mut self)
        requires
            old(self).wf(),
        ensures
            final(self).wf(),
            final(self)@ == spec_op_store(old(self)@),
    {
        if self.operands_missing(2) {
            return ;
        }
        let r1 = self.get8rom();
        let r2 = self.get8rom();
        if r1 as usize >= REG_COUNT || r2 as usize >= REG_COUNT {
            self.set_fault(VmFault::RegisterFault);
            return ;
        }
        let a = self.registers[r2 as usize];
        if a > MEM_SIZE as u32 - 4 {
            self.set_fault(VmFault::MemoryFault);
            return ;
        }
        let v = self.registers[r1 as usize];
        be32_write(&mut self.memory, a as usize, v);
    }

    /// LOAD: load register1 from memory at the address in register2.
    pub fn op_load(&mut self)
        requires
            old(self).wf(),
        ensures
            final(self).wf(),
            final(self)@ == spec_op_load(old(self)@),
    {
        if self.operands_missing(2) {
            return ;
        }
        let r1 = self.get8rom();
        let r2 = self.get8rom();
        if r1 as usize >= REG_COUNT || r2 as usize >= REG_COUNT {
            self.set_fault(VmFault::RegisterFault);
            return ;
        }
        let a = self.registers[r2 as usize];
        if a > MEM_SIZE as u32 - 4 {
            self.set_fault(VmFault::MemoryFault);
            return ;
        }
        let v = self.get32(a);
        self.registers.set(r1 as usize, v);
    }

    /// ADD: register1 <- register1 + register2, wrapping on overflow.
    pub fn op_add(&mut self)
        requires
            old(self).wf(),
        ensures
            final(self).wf(),
            final(self)@ == spec_op_add(old(self)@),
    {
        if self.operands_missing(2) {
            return ;
        }
        let r1 = self.get8rom();
        let r2 = self.get8rom();
        if r1 as usize >= REG_COUNT || r2 as usize >= REG_COUNT {
            self.set_fault(VmFault::RegisterFault);
            return ;
        }
        let a = self.registers[r1 as usize];
        let b = self.registers[r2 as usize];
        self.registers.set(r1 as usize, a.wrapping_add(b));
    }

    /// ADD_I: register <- register + immediate, wrapping on overflow.
    pub fn op_add_i(&mut self)
        requires
            old(self).wf(),
        ensures
            final(self).wf(),
            final(self)@ == spec_op_add_i(old(self)@),
    {
        if self.operands_missing(5) {
            return ;
        }
        let r = self.get8rom();
        let v = self.get32rom();
        if r as usize >= REG_COUNT {
            self.set_fault(VmFault::RegisterFault);
            return ;
        }
        let a = self.registers[r as usize];
        self.registers.set(r as usize, a.wrapping_add(v));
    }

    /// SUB: register1 <- register1 - register2, wrapping on underflow.
    pub fn op_sub(&mut self)
        requires
            old(self).wf(),
        ensures
            final(self).wf(),
            final(self)@ == spec_op_sub(old(self)@),
    {
        if self.operands_missing(2) {
            return ;
        }
        let r1 = self.get8rom();
        let r2 = self.get8rom();
        if r1 as usize >= REG_COUNT || r2 as usize >= REG_COUNT {
            self.set_fault(VmFault::RegisterFault);
            return ;
        }
        let a = self.registers[r1 as usize];
        let b = self.registers[r2 as usize];
        self.registers.set(r1 as usize, a.wrapping_sub(b));
    }

    /// SUB_I: register <- register - immediate, wrapping on underflow.
    pub fn op_sub_i(&mut self)
        requires
            old(self).wf(),
        ensures
            final(self).wf(),
            final(self)@ == spec_op_sub_i(old(self)@),
    {
        if self.operands_missing(5) {
            return ;
        }
        let r = self.get8rom();
        let v = self.get32rom();
        if r as usize >= REG_COUNT {
            self.set_fault(VmFault::RegisterFault);
            return ;
        }
        let a = self.registers[r as usize];
        self.registers.set(r as usize, a.wrapping_sub(v));
    }

    /// MUL: register1 <- register1 * register2, wrapping on overflow.
    pub fn op_mul(&mut self)
        requires
            old(self).wf(),
        ensures
            final(self).wf(),
            final(self)@ == spec_op_mul(old(self)@),
    {
        if self.operands_missing(2) {
            return ;
        }
        let r1 = self.get8rom();
        let r2 = self.get8rom();
        if r1 as usize >= REG_COUNT || r2 as usize >= REG_COUNT {
            self.set_fault(VmFault::RegisterFault);
            return ;
        }
        let a = self.registers[r1 as usize];
        let b = self.registers[r2 as usize];
        self.registers.set(r1 as usize, a.wrapping_mul(b));
    }

    /// DIV: register1 <- register1 / register2; a zero divisor is a
    /// fatal ArithmeticFault, never a silent result.
    pub fn op_div(&mut self)
        requires
            old(self).wf(),
        ensures
            final(self).wf(),
            final(self)@ == spec_op_div(old(self)@),
    {
        if self.operands_missing(2) {
            return ;
        }
        let r1 = self.get8rom();
        let r2 = self.get8rom();
        if r1 as usize >= REG_COUNT || r2 as usize >= REG_COUNT {
            self.set_fault(VmFault::RegisterFault);
            return ;
        }
        let b = self.registers[r2 as usize];
        if b == 0 {
            self.set_fault(VmFault::ArithmeticFault);
            return ;
        }
        let a = self.registers[r1 as usize];
        self.registers.set(r1 as usize, a / b);
    }

    /// JMP: unconditional jump to an immediate address.
    pub fn op_jmp(&mut self)
        requires
            old(self).wf(),
        ensures
            final(self).wf(),
            final(self)@ == spec_op_jmp(old(self)@),
    {
        if self.operands_missing(4) {
            return ;
        }
        let a = self.get32rom();
        self.pc = a;
    }

    /// JEQ: jump when the two registers are equal.
    pub fn op_jeq(&mut self)
        requires
            old(self).wf(),
        ensures
            final(self).wf(),
            final(self)@ == spec_op_jeq(old(self)@),
    {
        if self.operands_missing(6) {
            return ;
        }
        let r1 = self.get8rom();
        let r2 = self.get8rom();
        let a = self.get32rom();
        if r1 as usize >= REG_COUNT || r2 as usize >= REG_COUNT {
            self.set_fault(VmFault::RegisterFault);
            return ;
        }
        if self.registers[r1 as usize] == self.registers[r2 as usize] {
            self.pc = a;
        }
    }

    /// JNE: jump when the two registers differ.
    pub fn op_jne(&mut self)
        requires
            old(self).wf(),
        ensures
            final(self).wf(),
            final(self)@ == spec_op_jne(old(self)@),
    {
        if self.operands_missing(6) {
            return ;
        }
        let r1 = self.get8rom();
        let r2 = self.get8rom();
        let a = self.get32rom();
        if r1 as usize >= REG_COUNT || r2 as usize >= REG_COUNT {
            self.set_fault(VmFault::RegisterFault);
            return ;
        }
        if self.registers[r1 as usize] != self.registers[r2 as usize] {
            self.pc = a;
        }
    }

    /// JGT: jump when register1 is greater than register2.
    pub fn op_jgt(&mut self)
        requires
            old(self).wf(),
        ensures
            final(self).wf(),
            final(self)@ == spec_op_jgt(old(self)@),
    {
        if self.operands_missing(6) {
            return ;
        }
        let r1 = self.get8rom();
        let r2 = self.get8rom();
        let a = self.get32rom();
        if r1 as usize >= REG_COUNT || r2 as usize >= REG_COUNT {
            self.set_fault(VmFault::RegisterFault);
            return ;
        }
        if self.registers[r1 as usize] > self.registers[r2 as usize] {
            self.pc = a;
        }
    }

    /// CALL: push the counter of the next instruction and jump; pushing
    /// at capacity is a fatal StackFault.
    pub fn op_call(&mut self)
        requires
            old(self).wf(),
        ensures
            final(self).wf(),
            final(self)@ == spec_op_call(old(self)@),
    {
        if self.operands_missing(4) {
            return ;
        }
        let a = self.get32rom();
        if self.stack.len() >= STACK_CAPACITY {
            self.set_fault(VmFault::StackFault);
            return ;
        }
        self.stack.push(self.pc);
        self.pc = a;
    }

    /// RETURN: pop the saved counter; popping an empty stack is a fatal
    /// StackFault.
    pub fn op_return(&mut self)
        requires
            old(self).wf(),
        ensures
            final(self).wf(),
            final(self)@ == spec_op_return(old(self)@),
    {
        if self.stack.len() == 0 {
            self.set_fault(VmFault::StackFault);
            return ;
        }
        let a = self.stack.pop().unwrap();
        self.pc = a;
    }

    /// SWAP_BUFFERS: exchange which surface is presented and which is
    /// drawn into.
    pub fn op_swap_buffers(&mut self)
        requires
            old(self).wf(),
        ensures
            final(self).wf(),
            final(self)@ == spec_op_swap_buffers(old(self)@),
    {
        self.frame.swap();
    }

    /// DRAW_PIXEL: plot one pixel at the register-named coordinates,
    /// taken modulo the surface size, on the back surface.
    pub fn op_draw_pixel(&mut self)
        requires
            old(self).wf(),
        ensures
            final(self).wf(),
            final(self)@ == spec_op_draw_pixel(old(self)@),
    {
        if self.operands_missing(6) {
            return ;
        }
        let rx = self.get8rom();
        let ry = self.get8rom();
        let color = self.get32rom();
        if rx as usize >= REG_COUNT || ry as usize >= REG_COUNT {
            self.set_fault(VmFault::RegisterFault);
            return ;
        }
        let x = self.registers[rx as usize] % (DISPLAY_W as u32);
        let y = self.registers[ry as usize] % (DISPLAY_H as u32);
        self.frame.plot_pixel(x as usize, y as usize, color);
    }
}

/// STORE_STR: copy the null-terminated byte sequence at ROM[src] into
/// memory at dst, terminator included. A string with no terminator
/// before the end of ROM is a RomFault; one that will not fit below the
/// end of memory is a MemoryFault; either way memory is untouched.
pub open spec fn spec_op_store_str(s: VmState) -> VmState {
    if s.pc + 8 > s.rom.len() {
        with_fault(s, VmFault::RomFault)
    } else {
        let src = be32_at(s.rom, s.pc as int);
        let dst = be32_at(s.rom, s.pc + 4);
        let s1 = VmState { pc: (s.pc + 8) as u32, ..s };
        if !crate::bytes::has_nul(s1.rom, src as int) {
            with_fault(s1, VmFault::RomFault)
        } else {
            let end = crate::bytes::nul_end(s1.rom, src as int);
            if dst + (end - src) + 1 > MEM_SIZE {
                with_fault(s1, VmFault::MemoryFault)
            } else {
                VmState {
                    memory: splice(
                        s1.memory,
                        dst as int,
                        s1.rom.subrange(src as int, end + 1),
                    ),
                    ..s1
                }
            }
        }
    }
}

/// PRINT_MEM: append the null-terminated byte sequence at memory[addr]
/// to the output stream, terminator excluded.
pub open spec fn spec_op_print_str_mem(s: VmState) -> VmState {
    if s.pc + 4 > s.rom.len() {
        with_fault(s, VmFault::RomFault)
    } else {
        let a = be32_at(s.rom, s.pc as int);
        let s1 = VmState { pc: (s.pc + 4) as u32, ..s };
        if !crate::bytes::has_nul(s1.memory, a as int) {
            with_fault(s1, VmFault::MemoryFault)
        } else {
            VmState { output: s1.output + crate::bytes::cstr(s1.memory, a as int), ..s1 }
        }
    }
}

/// PRINT_ROM: append the null-terminated byte sequence at ROM[addr] to
/// the output stream, terminator excluded.
pub open spec fn spec_op_print_str_rom(s: VmState) -> VmState {
    if s.pc + 4 > s.rom.len() {
        with_fault(s, VmFault::RomFault)
    } else {
        let a = be32_at(s.rom, s.pc as int);
        let s1 = VmState { pc: (s.pc + 4) as u32, ..s };
        if !crate::bytes::has_nul(s1.rom, a as int) {
            with_fault(s1, VmFault::RomFault)
        } else {
            VmState { output: s1.output + crate::bytes::cstr(s1.rom, a as int), ..s1 }
        }
    }
}

/// Decode the sprite record at ROM address `a` into the cache. A record
/// that runs past the end of ROM is a RomFault.
pub open spec fn spec_load_sprite(s: VmState, a: u32) -> VmState {
    if !sprite_decodable(s.rom, a as int) {
        with_fault(s, VmFault::RomFault)
    } else {
        VmState { sprites: s.sprites.insert(a, sprite_decode(s.rom, a as int)), ..s }
    }
}

/// DRAW_SPRITE: decode-and-cache-if-absent the sprite at the ROM
/// address, then blit it with its top-left at the register-named
/// coordinates taken modulo the surface size.
pub open spec fn spec_op_draw_sprite(s: VmState) -> VmState {
    if s.pc + 6 > s.rom.len() {
        with_fault(s, VmFault::RomFault)
    } else {
        let rx = s.rom[s.pc as int];
        let ry = s.rom[s.pc + 1];
        let a = be32_at(s.rom, s.pc + 2);
        let s1 = VmState { pc: (s.pc + 6) as u32, ..s };
        if rx >= REG_COUNT || ry >= REG_COUNT {
            with_fault(s1, VmFault::RegisterFault)
        } else {
            let x = s1.registers[rx as int] as int % (DISPLAY_W as int);
            let y = s1.registers[ry as int] as int % (DISPLAY_H as int);
            let s2 = if s1.sprites.dom().contains(a) {
                s1
            } else {
                spec_load_sprite(s1, a)
            };
            if s2.fault is Some {
                s2
            } else {
                VmState {
                    frame: crate::frame::spec_blit(s2.frame, x, y, s2.sprites[a]),
                    ..s2
                }
            }
        }
    }
}

/// The sprite-cache view is the element-wise view of the hash map: same
/// addresses, each sprite seen through its model.
pub proof fn lemma_sprites_view(m: HashMap<u32, Sprite>)
    ensures
        sprites_view(m).dom() == m@.dom(),
        forall|a: u32| m@.dom().contains(a) ==> sprites_view(m)[a] == #[trigger] m@[a]@,
{
    assert(sprites_view(m).dom() =~= m@.dom());
}

impl ChipP {
    /// STORE_STR: copy a null-terminated string out of ROM into memory,
    /// terminator included. On a fault, memory is untouched.
    pub fn op_store_str(&mut self)
        requires
            old(self).wf(),
        ensures
            final(self).wf(),
            final(self)@ == spec_op_store_str(old(self)@),
    {
        if self.operands_missing(8) {
            return ;
        }
        let src = self.get32rom();
        let dst = self.get32rom();
        let ghost s1 = self@;
        let mut p: usize = src as usize;
        while p < self.rom_size && self.rom[p] != 0
            invariant
                self.wf(),
                self@ == s1,
                src as int <= p,
                forall|j: int| src as int <= j < p ==> s1.rom[j] != 0,
            decreases s1.rom.len() - p,
        {
            p += 1;
        }
        if p >= self.rom_size {
            proof {
                if src as int <= s1.rom.len() {
                    crate::bytes::lemma_nul_end_is(s1.rom, src as int, s1.rom.len() as int);
                }
            }
            self.set_fault(VmFault::RomFault);
            return ;
        }
        proof {
            crate::bytes::lemma_nul_end_is(s1.rom, src as int, p as int);
        }
        let n: usize = p - src as usize;
        if dst as u64 + n as u64 + 1 > MEM_SIZE as u64 {
            self.set_fault(VmFault::MemoryFault);
            return ;
        }
        let mut k: usize = 0;
        while k < n + 1
            invariant
                self.wf(),
                k <= n + 1,
                s1.wf(),
                dst + n + 1 <= MEM_SIZE,
                src + n < s1.rom.len(),
                n == p - src,
                src as int <= p < s1.rom.len(),
                self@ == (VmState {
                    memory: splice(
                        s1.memory,
                        dst as int,
                        s1.rom.subrange(src as int, src as int + k),
                    ),
                    ..s1
                }),
            decreases n + 1 - k,
        {
            let c = self.rom[src as usize + k];
            self.memory.set(dst as usize + k, c);
            proof {
                assert(self@.memory =~= splice(
                    s1.memory,
                    dst as int,
                    s1.rom.subrange(src as int, src as int + (k + 1)),
                ));
                assert(self@ =~~= (VmState {
                    memory: splice(
                        s1.memory,
                        dst as int,
                        s1.rom.subrange(src as int, src as int + (k + 1)),
                    ),
                    ..s1
                }));
            }
            k += 1;
        }
    }

    /// PRINT_MEM: append the null-terminated string at memory[addr] to
    /// the output stream, terminator excluded.
    pub fn op_print_str_mem(&mut self)
        requires
            old(self).wf(),
        ensures
            final(self).wf(),
            final(self)@ == spec_op_print_str_mem(old(self)@),
    {
        if self.operands_missing(4) {
            return ;
        }
        let a = self.get32rom();
        let ghost s1 = self@;
        let mut p: usize = a as usize;
        while p < MEM_SIZE && self.memory[p] != 0
            invariant
                self.wf(),
                self@ == s1,
                a as int <= p,
                forall|j: int| a as int <= j < p ==> s1.memory[j] != 0,
            decreases MEM_SIZE - p,
        {
            p += 1;
        }
        if p >= MEM_SIZE {
            proof {
                if a as int <= MEM_SIZE {
                    crate::bytes::lemma_nul_end_is(s1.memory, a as int, MEM_SIZE as int);
                }
            }
            self.set_fault(VmFault::MemoryFault);
            return ;
        }
        proof {
            crate::bytes::lemma_nul_end_is(s1.memory, a as int, p as int);
        }
        let n: usize = p - a as usize;
        let mut k: usize = 0;
        while k < n
            invariant
                self.wf(),
                k <= n,
                s1.wf(),
                n == p - a,
                a as int <= p < MEM_SIZE,
                self@ == (VmState {
                    output: s1.output + s1.memory.subrange(a as int, a as int + k),
                    ..s1
                }),
            decreases n - k,
        {
            let c = self.memory[a as usize + k];
            self.output.push(c);
            proof {
                assert(self@.output =~= s1.output + s1.memory.subrange(
                    a as int,
                    a as int + (k + 1),
                ));
                assert(self@ =~~= (VmState {
                    output: s1.output + s1.memory.subrange(a as int, a as int + (k + 1)),
                    ..s1
                }));
            }
            k += 1;
        }
        proof {
            assert(self@ =~~= spec_op_print_str_mem(old(self)@));
        }
    }

    /// PRINT_ROM: append the null-terminated string at ROM[addr] to the
    /// output stream, terminator excluded.
    pub fn op_print_str_rom(&mut self)
        requires
            old(self).wf(),
        ensures
            final(self).wf(),
            final(self)@ == spec_op_print_str_rom(old(self)@),
    {
        if self.operands_missing(4) {
            return ;
        }
        let a = self.get32rom();
        let ghost s1 = self@;
        let mut p: usize = a as usize;
        while p < self.rom_size && self.rom[p] != 0
            invariant
                self.wf(),
                self@ == s1,
                a as int <= p,
                forall|j: int| a as int <= j < p ==> s1.rom[j] != 0,
            decreases s1.rom.len() - p,
        {
            p += 1;
        }
        if p >= self.rom_size {
            proof {
                if a as int <= s1.rom.len() {
                    crate::bytes::lemma_nul_end_is(s1.rom, a as int, s1.rom.len() as int);
                }
            }
            self.set_fault(VmFault::RomFault);
            return ;
        }
        proof {
            crate::bytes::lemma_nul_end_is(s1.rom, a as int, p as int);
        }
        let n: usize = p - a as usize;
        let mut k: usize = 0;
        while k < n
            invariant
                self.wf(),
                k <= n,
                s1.wf(),
                n == p - a,
                a as int <= p < s1.rom.len(),
                self@ == (VmState {
                    output: s1.output + s1.rom.subrange(a as int, a as int + k),
                    ..s1
                }),
            decreases n - k,
        {
            let c = self.rom[a as usize + k];
            self.output.push(c);
            proof {
                assert(self@.output =~= s1.output + s1.rom.subrange(a as int, a as int + (k + 1)));
                assert(self@ =~~= (VmState {
                    output: s1.output + s1.rom.subrange(a as int, a as int + (k + 1)),
                    ..s1
                }));
            }
            k += 1;
        }
        proof {
            assert(self@ =~~= spec_op_print_str_rom(old(self)@));
        }
    }

    /// Decode the sprite record at ROM address `addr` and cache it. A
    /// record that runs past the end of ROM is a fatal RomFault.
    pub fn load_sprite(&mut self, addr: u32)
        requires
            old(self).wf(),
        ensures
            final(self).wf(),
            final(self)@ == spec_load_sprite(old(self)@, addr),
    {
        if addr as u64 + 4 > self.rom_size as u64 {
            self.set_fault(VmFault::RomFault);
            return ;
        }
        let w = self.peek16rom(addr);
        let h = self.peek16rom(addr + 2);
        proof {
            assert(w as int * h as int * 4 <= 0xFFFF * 0xFFFF * 4) by (nonlinear_arith)
                requires
                    w as int <= 0xFFFF,
                    h as int <= 0xFFFF,
            ;
        }
        if addr as u64 + 4 + (w as u64) * (h as u64) * 4 > self.rom_size as u64 {
            self.set_fault(VmFault::RomFault);
            return ;
        }
        let sp = Sprite::decode(&self.rom, addr);
        proof {
            lemma_sprites_view(self.sprites);
        }
        self.sprites.insert(addr, sp);
        proof {
            lemma_sprites_view(self.sprites);
            assert(sprites_view(self.sprites) =~~= old(self)@.sprites.insert(
                addr,
                sprite_decode(old(self)@.rom, addr as int),
            ));
            assert(self@ =~~= spec_load_sprite(old(self)@, addr));
        }
    }

    /// DRAW_SPRITE: decode-and-cache the sprite at the ROM address if it
    /// is not cached yet, then blit it at the register-named coordinates
    /// taken modulo the surface size.
    pub fn op_draw_sprite(&mut self)
        requires
            old(self).wf(),
        ensures
            final(self).wf(),
            final(self)@ == spec_op_draw_sprite(old(self)@),
    {
        if self.operands_missing(6) {
            return ;
        }
        let rx = self.get8rom();
        let ry = self.get8rom();
        let a = self.get32rom();
        if rx as usize >= REG_COUNT || ry as usize >= REG_COUNT {
            self.set_fault(VmFault::RegisterFault);
            return ;
        }
        let x = self.registers[rx as usize] % (DISPLAY_W as u32);
        let y = self.registers[ry as usize] % (DISPLAY_H as u32);
        proof {
            lemma_sprites_view(self.sprites);
        }
        if !self.sprites.contains_key(&a) {
            self.load_sprite(a);
        }
        if self.fault.is_some() {
            return ;
        }
        proof {
            lemma_sprites_view(self.sprites);
        }
        let sp = self.sprites.get(&a).unwrap();
        proof {
            assert(self@.sprites.dom().contains(a));
            assert(sp@ == self@.sprites[a]);
            assert(sp@.wf());
        }
        self.frame.blit(x as usize, y as usize, sp);
        proof {
            let s = old(self)@;
            let rx_s = s.rom[s.pc as int];
            let ry_s = s.rom[s.pc + 1];
            let a_s = be32_at(s.rom, s.pc + 2);
            let s1g = VmState { pc: (s.pc + 6) as u32, ..s };
            let xg = s1g.registers[rx_s as int] as int % (DISPLAY_W as int);
            let yg = s1g.registers[ry_s as int] as int % (DISPLAY_H as int);
            let s2g = if s1g.sprites.dom().contains(a_s) {
                s1g
            } else {
                spec_load_sprite(s1g, a_s)
            };
            assert(a_s == a);
            assert(xg == x as int);
            assert(yg == y as int);
            assert(sp@ == s2g.sprites[a_s]);
            assert(self@.frame == crate::frame::spec_blit(s2g.frame, xg, yg, s2g.sprites[a_s]));
            assert(self@ =~~= spec_op_draw_sprite(s));
        }
    }
}

impl ChipP {
    /// Fetch, decode and execute one instruction. Returns whether
    /// execution may continue: false once the machine has faulted, when
    /// the counter is at or past the end of ROM, when the halt opcode is
    /// fetched, or when this instruction faults.
    pub fn step(&mut self) -> (r: bool)
        requires
            old(self).wf(),
        ensures
            final(self).wf(),
            final(self)@ == spec_step(old(self)@).0,
            r == spec_step(old(self)@).1,
    {
        if self.fault.is_some() {
            return false;
        }
        if self.pc as usize >= self.rom_size {
            return false;
        }
        let op = self.get8rom();
        self.opcode = op;
        match op {
            0x00 => {
                self.pc = self.pc - 1;
            },
            0x01 => self.op_mov(),
            0x02 => self.op_store_i(),
            0x03 => self.op_load_i(),
            0x04 => self.op_store(),
            0x05 => self.op_load(),
            0x06 => self.op_add(),
            0x07 => self.op_add_i(),
            0x08 => self.op_sub(),
            0x09 => self.op_sub_i(),
            0x0A => self.op_mul(),
            0x0B => self.op_div(),
            0x0C => self.op_jmp(),
            0x0D => self.op_jeq(),
            0x0E => self.op_jne(),
            0x0F => self.op_store_str(),
            0x10 => self.op_print_str_mem(),
            0x11 => self.op_print_str_rom(),
            0x12 => self.op_call(),
            0x13 => self.op_return(),
            0x14 => self.op_swap_buffers(),
            0x15 => self.op_draw_pixel(),
            0x16 => self.op_draw_sprite(),
            0x17 => self.op_jgt(),
            0xFF => {
                return false;
            },
            _ => {},
        }
        if self.fault.is_some() {
            return false;
        }
        self.steps_since_start = self.steps_since_start.wrapping_add(1);
        true
    }

    /// Index of the surface that should currently be presented.
    pub fn current_buffer(&self) -> (r: usize)
        requires
            self.wf(),
        ensures
            r == self@.frame.presented(),
    {
        self.frame.presented_index()
    }

    /// Read access to the pixels of surface `idx`, for presentation.
    pub fn surface_pixels(&self, idx: usize) -> (r: &Vec<u32>)
        requires
            self.wf(),
            idx <= 1,
        ensures
            r@ == self@.frame.surf(idx as int),
    {
        self.frame.surface(idx)
    }

    /// Drain the bytes the print opcodes have emitted so far; the
    /// driver writes them to its output stream.
    pub fn take_output(&mut self) -> (r: Vec<u8>)
        requires
            old(self).wf(),
        ensures
            final(self).wf(),
            r@ == old(self)@.output,
            final(self)@ == (VmState { output: Seq::<u8>::empty(), ..old(self)@ }),
    {
        let mut out: Vec<u8> = Vec::new();
        std::mem::swap(&mut out, &mut self.output);
        proof {
            assert(self@ =~~= (VmState { output: Seq::<u8>::empty(), ..old(self)@ }));
        }
        out
    }
}

/// What one opcode does, with the opcode byte already consumed. The
/// idle opcode 0x00 rewinds the counter onto itself, so the next step
/// refetches the same byte; an unrecognized opcode is a no-op that
/// costs only the fetch.
pub open spec fn spec_dispatch(s: VmState, op: u8) -> VmState {
    if op == 0x00 {
        VmState { pc: (s.pc - 1) as u32, ..s }
    } else if op == 0x01 {
        spec_op_mov(s)
    } else if op == 0x02 {
        spec_op_store_i(s)
    } else if op == 0x03 {
        spec_op_load_i(s)
    } else if op == 0x04 {
        spec_op_store(s)
    } else if op == 0x05 {
        spec_op_load(s)
    } else if op == 0x06 {
        spec_op_add(s)
    } else if op == 0x07 {
        spec_op_add_i(s)
    } else if op == 0x08 {
        spec_op_sub(s)
    } else if op == 0x09 {
        spec_op_sub_i(s)
    } else if op == 0x0A {
        spec_op_mul(s)
    } else if op == 0x0B {
        spec_op_div(s)
    } else if op == 0x0C {
        spec_op_jmp(s)
    } else if op == 0x0D {
        spec_op_jeq(s)
    } else if op == 0x0E {
        spec_op_jne(s)
    } else if op == 0x0F {
        spec_op_store_str(s)
    } else if op == 0x10 {
        spec_op_print_str_mem(s)
    } else if op == 0x11 {
        spec_op_print_str_rom(s)
    } else if op == 0x12 {
        spec_op_call(s)
    } else if op == 0x13 {
        spec_op_return(s)
    } else if op == 0x14 {
        spec_op_swap_buffers(s)
    } else if op == 0x15 {
        spec_op_draw_pixel(s)
    } else if op == 0x16 {
        spec_op_draw_sprite(s)
    } else if op == 0x17 {
        spec_op_jgt(s)
    } else {
        s
    }
}

/// One whole fetch-decode-execute step: the state after it, and whether
/// execution may continue. A machine that already faulted, whose
/// counter is at or past the end of ROM, or that fetches the halt
/// opcode stops; a fault during the instruction stops with the fault
/// recorded; otherwise the step counter advances (wrapping) and
/// execution may continue.
pub open spec fn spec_step(s: VmState) -> (VmState, bool) {
    if s.fault is Some {
        (s, false)
    } else if s.pc >= s.rom.len() {
        (s, false)
    } else {
        let op = s.rom[s.pc as int];
        let s1 = VmState { pc: (s.pc + 1) as u32, opcode: op, ..s };
        if op == 0xFF {
            (s1, false)
        } else {
            let s2 = spec_dispatch(s1, op);
            if s2.fault is Some {
                (s2, false)
            } else {
                (
                    VmState {
                        steps_since_start: ((s2.steps_since_start + 1) % 0x1_0000_0000) as u32,
                        ..s2
                    },
                    true,
                )
            }
        }
    }
}

} // verus!
