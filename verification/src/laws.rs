//! Instruction-set laws: what the opcode semantics guarantee, stated
//! over `spec_step` and proved once and for all. Each law quantifies
//! over every well-formed machine state whose program counter sits on
//! the named instruction.

use vstd::prelude::*;
use crate::bytes::{be32_at, cstr, has_nul, lemma_nul_end_is, lemma_nul_end_props, lemma_splice_be32, nul_end, splice};
use crate::frame::spec_blit;
use crate::sprite::{sprite_decodable, sprite_decode};
use crate::vm::{spec_step, VmFault, VmState, MEM_SIZE, REG_COUNT, STACK_CAPACITY};

verus! {

/// MOV then read: after executing MOV(r, v), register `r` holds exactly
/// the immediate `v`, for every valid register index and 32-bit
/// immediate; the other registers are untouched and nothing faults.
pub proof fn lemma_mov_loads_immediate(s: VmState)
    requires
        s.wf(),
        s.fault is None,
        s.pc + 6 <= s.rom.len(),
        s.rom[s.pc as int] == 0x01,
        s.rom[s.pc + 1] < REG_COUNT,
    ensures
        spec_step(s).1,
        spec_step(s).0.fault is None,
        spec_step(s).0.registers == s.registers.update(
            s.rom[s.pc + 1] as int,
            be32_at(s.rom, s.pc + 2),
        ),
{
}

/// ADD wraps and never faults: for any prior register values `a` and
/// `b`, ADD(r1, r2) sets register `r1` to `(a + b) mod 2^32`, whatever
/// the magnitudes.
pub proof fn lemma_add_wraps(s: VmState)
    requires
        s.wf(),
        s.fault is None,
        s.pc + 3 <= s.rom.len(),
        s.rom[s.pc as int] == 0x06,
        s.rom[s.pc + 1] < REG_COUNT,
        s.rom[s.pc + 2] < REG_COUNT,
    ensures
        spec_step(s).1,
        spec_step(s).0.fault is None,
        spec_step(s).0.registers == s.registers.update(
            s.rom[s.pc + 1] as int,
            ((s.registers[s.rom[s.pc + 1] as int] + s.registers[s.rom[s.pc + 2] as int])
                % 0x1_0000_0000) as u32,
        ),
{
}

/// SUB wraps and never faults: SUB(r1, r2) sets register `r1` to
/// `(a - b) mod 2^32`, whatever the magnitudes.
pub proof fn lemma_sub_wraps(s: VmState)
    requires
        s.wf(),
        s.fault is None,
        s.pc + 3 <= s.rom.len(),
        s.rom[s.pc as int] == 0x08,
        s.rom[s.pc + 1] < REG_COUNT,
        s.rom[s.pc + 2] < REG_COUNT,
    ensures
        spec_step(s).1,
        spec_step(s).0.fault is None,
        spec_step(s).0.registers == s.registers.update(
            s.rom[s.pc + 1] as int,
            ((s.registers[s.rom[s.pc + 1] as int] - s.registers[s.rom[s.pc + 2] as int])
                % 0x1_0000_0000) as u32,
        ),
{
}

/// STORE then LOAD round-trips: STORE(r1, r2) followed by LOAD(r3, r2)
/// leaves register `r3` holding exactly the 32-bit value that was in
/// `r1`, for any in-bounds address in `r2`.
pub proof fn lemma_store_load_roundtrip(s: VmState)
    requires
        s.wf(),
        s.fault is None,
        s.pc + 6 <= s.rom.len(),
        s.rom[s.pc as int] == 0x04,
        s.rom[s.pc + 1] < REG_COUNT,
        s.rom[s.pc + 2] < REG_COUNT,
        s.rom[s.pc + 3] == 0x05,
        s.rom[s.pc + 4] < REG_COUNT,
        s.rom[s.pc + 5] == s.rom[s.pc + 2],
        s.registers[s.rom[s.pc + 2] as int] + 4 <= MEM_SIZE,
    ensures
        spec_step(s).1,
        spec_step(spec_step(s).0).1,
        spec_step(spec_step(s).0).0.fault is None,
        spec_step(spec_step(s).0).0.registers[s.rom[s.pc + 4] as int] == s.registers[s.rom[s.pc
            + 1] as int],
{
    let a = s.registers[s.rom[s.pc + 2] as int];
    let v = s.registers[s.rom[s.pc + 1] as int];
    lemma_splice_be32(s.memory, a as int, v);
    let s1 = spec_step(s).0;
    assert(be32_at(s1.memory, a as int) == v);
}

/// CALL then RETURN: a RETURN directly after a CALL restores the
/// program counter to the instruction following the CALL's operands,
/// with the stack exactly as it was.
pub proof fn lemma_call_then_return(s: VmState)
    requires
        s.wf(),
        s.fault is None,
        s.pc + 5 <= s.rom.len(),
        s.rom[s.pc as int] == 0x12,
        s.stack.len() < STACK_CAPACITY,
        be32_at(s.rom, s.pc + 1) < s.rom.len(),
        s.rom[be32_at(s.rom, s.pc + 1) as int] == 0x13,
    ensures
        spec_step(s).1,
        spec_step(spec_step(s).0).1,
        spec_step(spec_step(s).0).0.fault is None,
        spec_step(spec_step(s).0).0.pc == s.pc + 5,
        spec_step(spec_step(s).0).0.stack == s.stack,
{
    let s1 = spec_step(s).0;
    assert(s1.stack == s.stack.push((s.pc + 5) as u32));
    let s2 = spec_step(s1).0;
    assert(s2.stack =~= s.stack);
}

/// RETURN restores what the matching CALL saved: on any machine whose
/// stack is `t.push(v)`, RETURN pops to counter `v` and leaves stack
/// `t`. Applied repeatedly, N nested CALLs followed by N RETURNs
/// restore the original counter exactly.
pub proof fn lemma_return_restores_saved(s: VmState, t: Seq<u32>, v: u32)
    requires
        s.wf(),
        s.fault is None,
        s.pc < s.rom.len(),
        s.rom[s.pc as int] == 0x13,
        s.stack == t.push(v),
    ensures
        spec_step(s).1,
        spec_step(s).0.fault is None,
        spec_step(s).0.pc == v,
        spec_step(s).0.stack == t,
{
    assert(s.stack.last() == v);
    assert(s.stack.drop_last() =~= t);
}

/// The machine after `n` consecutive steps.
pub open spec fn spec_run(s: VmState, n: nat) -> VmState
    decreases n,
{
    if n == 0 {
        s
    } else {
        spec_run(spec_step(s).0, (n - 1) as nat)
    }
}

/// N nested CALLs followed by N RETURNs restore the original counter
/// exactly: on a machine whose stack holds the saved counters `vs`
/// above `t` and whose next instruction is a RETURN, with each saved
/// counter but the innermost pointing at a further RETURN, unwinding
/// all of `vs` lands the counter on the outermost saved value with
/// stack `t` and no fault.
pub proof fn lemma_nested_returns_unwind(s: VmState, t: Seq<u32>, vs: Seq<u32>)
    requires
        s.wf(),
        s.fault is None,
        vs.len() >= 1,
        s.stack == t + vs,
        s.pc < s.rom.len(),
        s.rom[s.pc as int] == 0x13,
        forall|i: int|
            1 <= i < vs.len() ==> vs[i] < s.rom.len() && s.rom[#[trigger] vs[i] as int] == 0x13,
    ensures
        spec_run(s, vs.len()).fault is None,
        spec_run(s, vs.len()).pc == vs[0],
        spec_run(s, vs.len()).stack == t,
    decreases vs.len(),
{
    let s1 = spec_step(s).0;
    assert(s.stack.last() == vs.last());
    assert(s.stack.drop_last() =~= t + vs.drop_last());
    if vs.len() == 1 {
        assert(s1.stack =~= t);
        assert(spec_run(s1, 0) == s1);
    } else {
        assert(s1.wf());
        assert(s1.pc == vs[vs.len() - 1]);
        assert(forall|i: int|
            1 <= i < vs.drop_last().len() ==> vs.drop_last()[i] < s1.rom.len() && s1.rom[
                #[trigger] vs.drop_last()[i] as int
            ] == 0x13);
        lemma_nested_returns_unwind(s1, t, vs.drop_last());
        assert(vs.drop_last()[0] == vs[0]);
    }
}

/// A CALL with the stack already at capacity is fatal: it records a
/// StackFault, halts, and pushes nothing.
pub proof fn lemma_call_at_capacity_faults(s: VmState)
    requires
        s.wf(),
        s.fault is None,
        s.pc + 5 <= s.rom.len(),
        s.rom[s.pc as int] == 0x12,
        s.stack.len() == STACK_CAPACITY,
    ensures
        !spec_step(s).1,
        spec_step(s).0.fault == Some(VmFault::StackFault),
        spec_step(s).0.stack == s.stack,
        spec_step(s).0.registers == s.registers,
        spec_step(s).0.memory == s.memory,
{
}

/// DIV by a register holding zero is fatal: it records an
/// ArithmeticFault, halts, and writes no register, never a silent
/// result.
pub proof fn lemma_div_by_zero_faults(s: VmState)
    requires
        s.wf(),
        s.fault is None,
        s.pc + 3 <= s.rom.len(),
        s.rom[s.pc as int] == 0x0B,
        s.rom[s.pc + 1] < REG_COUNT,
        s.rom[s.pc + 2] < REG_COUNT,
        s.registers[s.rom[s.pc + 2] as int] == 0,
    ensures
        !spec_step(s).1,
        spec_step(s).0.fault == Some(VmFault::ArithmeticFault),
        spec_step(s).0.registers == s.registers,
        spec_step(s).0.memory == s.memory,
{
}

/// DRAW_SPRITE decodes each ROM address at most once and always blits
/// the same pixels: the cache afterwards maps the address to the decode
/// of the (immutable) ROM, a cache hit leaves the cache untouched, and
/// the blitted image is the ROM decode both on the first reference and
/// on every later one.
pub proof fn lemma_sprite_decoded_once(s: VmState)
    requires
        s.wf(),
        s.fault is None,
        s.pc + 7 <= s.rom.len(),
        s.rom[s.pc as int] == 0x16,
        s.rom[s.pc + 1] < REG_COUNT,
        s.rom[s.pc + 2] < REG_COUNT,
        sprite_decodable(s.rom, be32_at(s.rom, s.pc + 3) as int),
    ensures
        spec_step(s).1,
        spec_step(s).0.fault is None,
        spec_step(s).0.sprites == s.sprites.insert(
            be32_at(s.rom, s.pc + 3),
            sprite_decode(s.rom, be32_at(s.rom, s.pc + 3) as int),
        ),
        s.sprites.dom().contains(be32_at(s.rom, s.pc + 3)) ==> spec_step(s).0.sprites
            == s.sprites,
        spec_step(s).0.frame == spec_blit(
            s.frame,
            s.registers[s.rom[s.pc + 1] as int] as int % 320,
            s.registers[s.rom[s.pc + 2] as int] as int % 240,
            sprite_decode(s.rom, be32_at(s.rom, s.pc + 3) as int),
        ),
{
    let a = be32_at(s.rom, s.pc + 3);
    if s.sprites.dom().contains(a) {
        assert(s.sprites[a] == sprite_decode(s.rom, a as int));
        assert(s.sprites.insert(a, sprite_decode(s.rom, a as int)) =~= s.sprites);
    }
}

/// SWAP_BUFFERS toggles the draw target: after a swap, the surface
/// being presented is the one that was being drawn into, and a
/// DRAW_PIXEL directly after the swap writes to the surface that was
/// being presented before it.
pub proof fn lemma_swap_redirects_drawing(s: VmState)
    requires
        s.wf(),
        s.fault is None,
        s.pc + 8 <= s.rom.len(),
        s.rom[s.pc as int] == 0x14,
        s.rom[s.pc + 1] == 0x15,
        s.rom[s.pc + 2] < REG_COUNT,
        s.rom[s.pc + 3] < REG_COUNT,
    ensures
        spec_step(s).1,
        spec_step(s).0.frame.presented() == s.frame.back(),
        spec_step(s).0.frame.back() == s.frame.presented(),
        spec_step(spec_step(s).0).1,
        ({
            let s2 = spec_step(spec_step(s).0).0;
            let drawn = s.frame.presented();
            &&& s2.frame.surf(drawn) == s.frame.surf(drawn).update(
                (s.registers[s.rom[s.pc + 3] as int] as int % 240) * 320 + (s.registers[s.rom[
                    s.pc + 2] as int] as int % 320),
                be32_at(s.rom, s.pc + 4),
            )
            &&& s2.frame.surf(s.frame.back()) == s.frame.surf(s.frame.back())
        }),
{
}

/// A RETURN on an empty stack is fatal and corrupts nothing: it records
/// a StackFault and halts, with registers, memory and stack exactly as
/// they were.
pub proof fn lemma_return_empty_stack_faults(s: VmState)
    requires
        s.wf(),
        s.fault is None,
        s.pc < s.rom.len(),
        s.rom[s.pc as int] == 0x13,
        s.stack.len() == 0,
    ensures
        !spec_step(s).1,
        spec_step(s).0.fault == Some(VmFault::StackFault),
        spec_step(s).0.registers == s.registers,
        spec_step(s).0.memory == s.memory,
        spec_step(s).0.stack == s.stack,
{
}

/// STORE_STR then PRINT_MEM reproduces the ROM string byte-for-byte:
/// copying the null-terminated string at ROM[src] to memory[dst] and
/// then printing memory[dst] appends exactly the ROM string to the
/// output, terminator excluded.
pub proof fn lemma_store_str_print_roundtrip(s: VmState)
    requires
        s.wf(),
        s.fault is None,
        s.pc + 14 <= s.rom.len(),
        s.rom[s.pc as int] == 0x0F,
        s.rom[s.pc + 9] == 0x10,
        be32_at(s.rom, s.pc + 10) == be32_at(s.rom, s.pc + 5),
        has_nul(s.rom, be32_at(s.rom, s.pc + 1) as int),
        be32_at(s.rom, s.pc + 5) + (nul_end(s.rom, be32_at(s.rom, s.pc + 1) as int) - be32_at(
            s.rom,
            s.pc + 1,
        )) + 1 <= MEM_SIZE,
    ensures
        spec_step(s).1,
        spec_step(spec_step(s).0).1,
        spec_step(spec_step(s).0).0.fault is None,
        spec_step(spec_step(s).0).0.output == s.output + cstr(
            s.rom,
            be32_at(s.rom, s.pc + 1) as int,
        ),
{
    let src = be32_at(s.rom, s.pc + 1) as int;
    let dst = be32_at(s.rom, s.pc + 5) as int;
    let end = nul_end(s.rom, src);
    let n = end - src;
    lemma_nul_end_props(s.rom, src);
    let s1 = spec_step(s).0;
    assert(s1.memory == splice(s.memory, dst, s.rom.subrange(src, end + 1)));
    assert forall|j: int| dst <= j < dst + n implies s1.memory[j] != 0 by {
        assert(s1.memory[j] == s.rom[src + (j - dst)]);
    }
    assert(s1.memory[dst + n] == s.rom[end]);
    lemma_nul_end_is(s1.memory, dst, dst + n);
    let s2 = spec_step(s1).0;
    assert(cstr(s1.memory, dst) =~= cstr(s.rom, src));
}

} // verus!
