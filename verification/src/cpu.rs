//! The CHIP-8 CPU: registers, memory, stack, delay timer, key-wait latch and
//! fault latch, with fetch-decode-execute for the full instruction set.
//!
//! The semantics are stated once, as the spec functions `spec_step` (one
//! decoded opcode) and `spec_cycle` (one call to `execute_cycle`, honoring
//! the fault and key-wait latches), and the executable code is proved to
//! implement them exactly.

use vstd::prelude::*;

use crate::display::{Display, all_off, draw_collision, draw_fb, font_seq, font_set};
use crate::keypad::{Keypad, all_keys_up, first_new_key_from};
use crate::rng::{RNG_SEED, Rng, rng_byte, rng_next};

verus! {

/// Lowest memory address a program image is loaded at.
pub const PROGRAM_BASE: usize = 0x200;

/// A fatal condition: once latched, `execute_cycle` is a no-op until `reset`.
#[derive(Clone, Copy, PartialEq, Eq, Structural, Debug)]
pub enum Fault {
    /// CALL with all sixteen stack slots occupied.
    StackOverflow,
    /// RET with no occupied stack slot.
    StackUnderflow,
    /// An opcode matching no instruction, kept with the address it was
    /// fetched from.
    UnknownOpcode { opcode: u16, pc: u16 },
}

/// Rejection of a program image that does not fit above `PROGRAM_BASE`.
#[derive(Clone, Copy, PartialEq, Eq, Structural, Debug)]
pub enum LoadError {
    TooLarge,
}

/// The key-wait latch: the register awaiting a key, and the key states seen
/// when the latch was set.
pub struct KeyWait {
    pub target: u8,
    pub snapshot: Vec<bool>,
}

/// Ghost image of the key-wait latch.
#[verifier::ext_equal]
pub ghost struct WaitView {
    pub target: u8,
    pub snapshot: Seq<bool>,
}

/// Ghost image of the whole machine: the mathematical state the contracts
/// speak of.
#[verifier::ext_equal]
pub ghost struct CpuView {
    pub i: u16,
    pub pc: u16,
    pub sp: u8,
    pub dt: u8,
    pub memory: Seq<u8>,
    pub v: Seq<u8>,
    pub stack: Seq<u16>,
    pub display: Seq<u8>,
    pub keys: Seq<bool>,
    pub waiting: Option<WaitView>,
    pub fault: Option<Fault>,
    pub rng: Rng,
}

/// The machine state.
pub struct Cpu {
    /// Index register; only the low 12 bits matter on dereference.
    pub i: u16,
    /// Program counter.
    pub pc: u16,
    /// Count of occupied stack slots.
    pub sp: u8,
    /// Delay timer.
    pub dt: u8,
    /// 4096 bytes of memory.
    pub memory: Vec<u8>,
    /// The sixteen 8-bit registers; V\[15\] is the flag register.
    pub v: Vec<u8>,
    /// The sixteen return-address slots.
    pub stack: Vec<u16>,
    pub display: Display,
    pub keypad: Keypad,
    pub waiting: Option<KeyWait>,
    pub fault: Option<Fault>,
    pub rand: Rng,
}

impl View for Cpu {
    type V = CpuView;

    open spec fn view(&self) -> CpuView {
        CpuView {
            i: self.i,
            pc: self.pc,
            sp: self.sp,
            dt: self.dt,
            memory: self.memory@,
            v: self.v@,
            stack: self.stack@,
            display: self.display.pixels(),
            keys: self.keypad.state(),
            waiting: match self.waiting {
                Some(w) => Some(WaitView { target: w.target, snapshot: w.snapshot@ }),
                None => None,
            },
            fault: self.fault,
            rng: self.rand,
        }
    }
}

/// Structural validity of a machine state.
pub open spec fn wf(s: CpuView) -> bool {
    &&& s.memory.len() == 4096
    &&& s.v.len() == 16
    &&& s.stack.len() == 16
    &&& s.display.len() == 2048
    &&& (forall|p: int| 0 <= p < 2048 ==> #[trigger] s.display[p] <= 1)
    &&& s.keys.len() == 16
    &&& s.sp <= 16
    &&& match s.waiting {
        Some(w) => w.target < 16 && w.snapshot.len() == 16,
        None => true,
    }
}

/// The byte of `mem` at `addr`, the address masked to 12 bits.
pub open spec fn mem_at(mem: Seq<u8>, addr: int) -> u8 {
    mem[addr % 4096]
}

/// The big-endian 16-bit word of `mem` at `pc`, each byte address masked to
/// 12 bits.
pub open spec fn word_at(mem: Seq<u8>, pc: u16) -> u16 {
    ((mem_at(mem, pc as int) as int) * 256 + (mem_at(mem, pc as int + 1) as int)) as u16
}

/// 16-bit wrapping addition.
pub open spec fn add16(a: u16, b: u16) -> u16 {
    (((a as int) + (b as int)) % 0x10000) as u16
}

/// 16-bit wrapping subtraction.
pub open spec fn sub16(a: u16, b: u16) -> u16 {
    (((a as int) - (b as int)) % 0x10000) as u16
}

/// 8-bit wrapping addition.
pub open spec fn add8(a: u8, b: u8) -> u8 {
    (((a as int) + (b as int)) % 256) as u8
}

/// 8-bit wrapping subtraction.
pub open spec fn sub8(a: u8, b: u8) -> u8 {
    (((a as int) - (b as int)) % 256) as u8
}

/// `mem` after `LD [I],Vx`: `v[k]` stored at address `base + k` (masked to
/// 12 bits) for `k` below `cnt`.
pub open spec fn store_regs(mem: Seq<u8>, base: int, v: Seq<u8>, cnt: int) -> Seq<u8>
    decreases cnt,
{
    if cnt <= 0 {
        mem
    } else {
        store_regs(mem, base, v, cnt - 1).update((base + (cnt - 1)) % 4096, v[cnt - 1])
    }
}

/// `v` after `LD Vx,[I]`: `v[k]` loaded from address `base + k` (masked to
/// 12 bits) for `k` below `cnt`.
pub open spec fn load_regs(v: Seq<u8>, mem: Seq<u8>, base: int, cnt: int) -> Seq<u8>
    decreases cnt,
{
    if cnt <= 0 {
        v
    } else {
        load_regs(v, mem, base, cnt - 1).update(cnt - 1, mem_at(mem, base + (cnt - 1)))
    }
}

/// The sprite rows `DRW` reads: `n` bytes starting at address `i`, each
/// address masked to 12 bits.
pub open spec fn sprite_rows(mem: Seq<u8>, i: u16, n: int) -> Seq<u8> {
    Seq::new(n as nat, |r: int| mem_at(mem, i as int + r))
}

/// The machine after executing the already-fetched `op` from state `s`; the
/// program counter of `s` has already been advanced past the opcode.
pub open spec fn spec_step(s: CpuView, op: u16) -> CpuView {
    let x = ((op >> 8) & 0xF) as int;
    let y = ((op >> 4) & 0xF) as int;
    let vx = s.v[x];
    let vy = s.v[y];
    let nnn = op & 0xFFF;
    let kk = (op & 0xFF) as u8;
    let n = (op & 0xF) as int;
    let top = op & 0xF000;
    if op == 0x00E0 {
        // CLS
        CpuView { display: all_off(), ..s }
    } else if op == 0x00EE {
        // RET
        if s.sp == 0 {
            CpuView { fault: Some(Fault::StackUnderflow), ..s }
        } else {
            CpuView { sp: (s.sp - 1) as u8, pc: s.stack[s.sp - 1], ..s }
        }
    } else if top == 0x0000 {
        // SYS: ignored
        s
    } else if top == 0x1000 {
        // JP nnn
        CpuView { pc: nnn, ..s }
    } else if top == 0x2000 {
        // CALL nnn
        if s.sp == 16 {
            CpuView { fault: Some(Fault::StackOverflow), ..s }
        } else {
            CpuView {
                stack: s.stack.update(s.sp as int, s.pc),
                sp: (s.sp + 1) as u8,
                pc: nnn,
                ..s
            }
        }
    } else if top == 0x3000 {
        // SE Vx,kk
        if vx == kk { CpuView { pc: add16(s.pc, 2), ..s } } else { s }
    } else if top == 0x4000 {
        // SNE Vx,kk
        if vx != kk { CpuView { pc: add16(s.pc, 2), ..s } } else { s }
    } else if (op & 0xF00F) == 0x5000 {
        // SE Vx,Vy
        if vx == vy { CpuView { pc: add16(s.pc, 2), ..s } } else { s }
    } else if top == 0x6000 {
        // LD Vx,kk
        CpuView { v: s.v.update(x, kk), ..s }
    } else if top == 0x7000 {
        // ADD Vx,kk; VF unchanged
        CpuView { v: s.v.update(x, add8(vx, kk)), ..s }
    } else if (op & 0xF00F) == 0x8000 {
        // LD Vx,Vy
        CpuView { v: s.v.update(x, vy), ..s }
    } else if (op & 0xF00F) == 0x8001 {
        // OR
        CpuView { v: s.v.update(x, vx | vy), ..s }
    } else if (op & 0xF00F) == 0x8002 {
        // AND
        CpuView { v: s.v.update(x, vx & vy), ..s }
    } else if (op & 0xF00F) == 0x8003 {
        // XOR
        CpuView { v: s.v.update(x, vx ^ vy), ..s }
    } else if (op & 0xF00F) == 0x8004 {
        // ADD Vx,Vy with carry flag
        let carry: u8 = if (vx as int) + (vy as int) > 255 { 1 } else { 0 };
        CpuView { v: s.v.update(15, carry).update(x, add8(vx, vy)), ..s }
    } else if (op & 0xF00F) == 0x8005 {
        // SUB Vx,Vy with not-borrow flag
        let flag: u8 = if vx >= vy { 1 } else { 0 };
        CpuView { v: s.v.update(15, flag).update(x, sub8(vx, vy)), ..s }
    } else if (op & 0xF00F) == 0x8006 {
        // SHR Vx: Vx is the sole operand
        CpuView { v: s.v.update(15, vx & 1).update(x, vx >> 1u8), ..s }
    } else if (op & 0xF00F) == 0x8007 {
        // SUBN Vx,Vy
        let flag: u8 = if vy >= vx { 1 } else { 0 };
        CpuView { v: s.v.update(15, flag).update(x, sub8(vy, vx)), ..s }
    } else if (op & 0xF00F) == 0x800E {
        // SHL Vx: Vx is the sole operand
        CpuView { v: s.v.update(15, (vx >> 7u8) & 1).update(x, add8(vx, vx)), ..s }
    } else if (op & 0xF00F) == 0x9000 {
        // SNE Vx,Vy
        if vx != vy { CpuView { pc: add16(s.pc, 2), ..s } } else { s }
    } else if top == 0xA000 {
        // LD I,nnn
        CpuView { i: nnn, ..s }
    } else if top == 0xB000 {
        // JP V0,nnn
        CpuView { pc: ((nnn as int) + (s.v[0] as int)) as u16, ..s }
    } else if top == 0xC000 {
        // RND Vx,kk
        CpuView { v: s.v.update(x, rng_byte(s.rng) & kk), rng: rng_next(s.rng), ..s }
    } else if top == 0xD000 {
        // DRW Vx,Vy,n
        let sprite = sprite_rows(s.memory, s.i, n);
        let col = draw_collision(s.display, vx as int, vy as int, sprite);
        CpuView {
            display: draw_fb(s.display, vx as int, vy as int, sprite),
            v: s.v.update(15, if col { 1u8 } else { 0u8 }),
            ..s
        }
    } else if (op & 0xF0FF) == 0xE09E {
        // SKP Vx
        if s.keys[(vx & 0xF) as int] { CpuView { pc: add16(s.pc, 2), ..s } } else { s }
    } else if (op & 0xF0FF) == 0xE0A1 {
        // SKNP Vx
        if !s.keys[(vx & 0xF) as int] { CpuView { pc: add16(s.pc, 2), ..s } } else { s }
    } else if (op & 0xF0FF) == 0xF007 {
        // LD Vx,DT
        CpuView { v: s.v.update(x, s.dt), ..s }
    } else if (op & 0xF0FF) == 0xF00A {
        // LD Vx,K: latch, stalling later cycles until a new key-down
        CpuView { waiting: Some(WaitView { target: x as u8, snapshot: s.keys }), ..s }
    } else if (op & 0xF0FF) == 0xF015 {
        // LD DT,Vx
        CpuView { dt: vx, ..s }
    } else if (op & 0xF0FF) == 0xF01E {
        // ADD I,Vx; 16-bit wrap, VF unchanged
        CpuView { i: add16(s.i, vx as u16), ..s }
    } else if (op & 0xF0FF) == 0xF029 {
        // LD F,Vx: address of the glyph for the low nibble of Vx
        CpuView { i: (5 * ((vx & 0xF) as int)) as u16, ..s }
    } else if (op & 0xF0FF) == 0xF033 {
        // LD B,Vx: decimal digits of Vx at I, I+1, I+2
        CpuView {
            memory: s.memory
                .update((s.i as int) % 4096, ((vx as int) / 100) as u8)
                .update((s.i as int + 1) % 4096, (((vx as int) / 10) % 10) as u8)
                .update((s.i as int + 2) % 4096, ((vx as int) % 10) as u8),
            ..s
        }
    } else if (op & 0xF0FF) == 0xF055 {
        // LD [I],Vx; I unchanged
        CpuView { memory: store_regs(s.memory, s.i as int, s.v, x + 1), ..s }
    } else if (op & 0xF0FF) == 0xF065 {
        // LD Vx,[I]; I unchanged
        CpuView { v: load_regs(s.v, s.memory, s.i as int, x + 1), ..s }
    } else {
        // fault: the opcode matches no instruction
        CpuView { fault: Some(Fault::UnknownOpcode { opcode: op, pc: sub16(s.pc, 2) }), ..s }
    }
}

/// The machine after one call to `execute_cycle`: a no-op once faulted; a
/// stall, or the resolution of the latch, while waiting for a key; otherwise
/// fetch, advance the program counter, and execute.
pub open spec fn spec_cycle(s: CpuView) -> CpuView {
    if s.fault is Some {
        s
    } else {
        match s.waiting {
            Some(w) => match first_new_key_from(s.keys, w.snapshot, 0) {
                Some(k) => CpuView { v: s.v.update(w.target as int, k), waiting: None, ..s },
                None => s,
            },
            None => spec_step(
                CpuView { pc: add16(s.pc, 2), ..s },
                word_at(s.memory, s.pc),
            ),
        }
    }
}

/// The machine as construction and `reset` leave it: everything zeroed, the
/// font table in the first 80 bytes of memory, the program counter at
/// `PROGRAM_BASE`, and the byte source freshly seeded.
pub open spec fn spec_init() -> CpuView {
    CpuView {
        i: 0,
        pc: 0x200,
        sp: 0,
        dt: 0,
        memory: Seq::new(4096, |a: int| if 0 <= a < 80 { font_seq()[a] } else { 0u8 }),
        v: Seq::new(16, |k: int| 0u8),
        stack: Seq::new(16, |k: int| 0u16),
        display: all_off(),
        keys: all_keys_up(),
        waiting: None,
        fault: None,
        rng: Rng { x: RNG_SEED, c: 1 },
    }
}

/// A freshly constructed machine is structurally valid.
pub proof fn lemma_init_wf()
    ensures
        wf(spec_init()),
{
}

/// Big-endian 16-bit word of `memory` at `index`, each byte address masked
/// to 12 bits.
pub fn read_word(memory: &Vec<u8>, index: u16) -> (word: u16)
    requires
        memory@.len() == 4096,
    ensures
        word == word_at(memory@, index),
{
    let hi_idx = (index & 0xFFF) as usize;
    let lo_idx = (hi_idx + 1) % 4096;
    proof {
        assert(index & 0xFFF == index % 4096) by (bit_vector);
        vstd::arithmetic::div_mod::lemma_add_mod_noop(index as int, 1, 4096);
    }
    let hi = memory[hi_idx];
    let lo = memory[lo_idx];
    (hi as u16) * 256 + (lo as u16)
}

/// Bounds of the fields an opcode decodes into.
proof fn lemma_nibble_bounds(op: u16)
    ensures
        (op >> 8) & 0xF < 16,
        (op >> 4) & 0xF < 16,
        op & 0xFF < 256,
        op & 0xFFF < 4096,
        op & 0xF < 16,
{
    assert((op >> 8) & 0xF < 16 && (op >> 4) & 0xF < 16 && op & 0xFF < 256 && op & 0xFFF < 4096
        && op & 0xF < 16) by (bit_vector);
}

/// The low nibble of a byte is a register or key index.
proof fn lemma_low_nibble(b: u8)
    ensures
        b & 0xF < 16,
{
    assert(b & 0xF < 16) by (bit_vector);
}

/// A found key index is in range and newly down.
proof fn lemma_first_new_key_bound(keys: Seq<bool>, snapshot: Seq<bool>, k: int)
    requires
        0 <= k,
    ensures
        match first_new_key_from(keys, snapshot, k) {
            Some(r) => k <= r < 16 && keys[r as int] && !snapshot[r as int],
            None => true,
        },
    decreases 16 - k,
{
    if k < 16 && !(keys[k] && !snapshot[k]) {
        lemma_first_new_key_bound(keys, snapshot, k + 1);
    }
}

/// 16-bit wrapping addition.
fn wrap_add16(a: u16, b: u16) -> (r: u16)
    ensures
        r == add16(a, b),
{
    (((a as u32) + (b as u32)) % 0x10000) as u16
}

/// 16-bit wrapping subtraction.
fn wrap_sub16(a: u16, b: u16) -> (r: u16)
    ensures
        r == sub16(a, b),
{
    proof {
        vstd::arithmetic::div_mod::lemma_mod_add_multiples_vanish(
            (a as int) - (b as int),
            0x10000,
        );
    }
    (((a as u32) + 0x10000 - (b as u32)) % 0x10000) as u16
}

/// 8-bit wrapping subtraction.
fn wrap_sub8(a: u8, b: u8) -> (r: u8)
    ensures
        r == sub8(a, b),
{
    proof {
        vstd::arithmetic::div_mod::lemma_mod_add_multiples_vanish((a as int) - (b as int), 256);
    }
    (((a as u16) + 256 - (b as u16)) % 256) as u8
}

/// Store registers 0..cnt to memory at `base`, each address masked to 12
/// bits.
fn store_regs_exec(memory: &mut Vec<u8>, base: u16, v: &Vec<u8>, cnt: usize)
    requires
        old(memory)@.len() == 4096,
        v@.len() == 16,
        cnt <= 16,
    ensures
        final(memory)@ == store_regs(old(memory)@, base as int, v@, cnt as int),
        final(memory)@.len() == 4096,
{
    let b = (base & 0xFFF) as usize;
    proof {
        assert(base & 0xFFF == base % 4096) by (bit_vector);
    }
    let mut k: usize = 0;
    while k < cnt
        invariant
            memory@.len() == 4096,
            b == base as int % 4096,
            v@.len() == 16,
            cnt <= 16,
            k <= cnt,
            memory@ == store_regs(old(memory)@, base as int, v@, k as int),
        decreases cnt - k,
    {
        let idx = (b + k) % 4096;
        proof {
            vstd::arithmetic::div_mod::lemma_add_mod_noop(base as int, k as int, 4096);
            vstd::arithmetic::div_mod::lemma_small_mod(k as nat, 4096);
            assert(idx as int == (base as int + k as int) % 4096);
        }
        memory.set(idx, v[k]);
        k = k + 1;
    }
}

/// Load registers 0..cnt from memory at `base`, each address masked to 12
/// bits.
fn load_regs_exec(v: &mut Vec<u8>, memory: &Vec<u8>, base: u16, cnt: usize)
    requires
        old(v)@.len() == 16,
        memory@.len() == 4096,
        cnt <= 16,
    ensures
        final(v)@ == load_regs(old(v)@, memory@, base as int, cnt as int),
        final(v)@.len() == 16,
{
    let b = (base & 0xFFF) as usize;
    proof {
        assert(base & 0xFFF == base % 4096) by (bit_vector);
    }
    let mut k: usize = 0;
    while k < cnt
        invariant
            v@.len() == 16,
            b == base as int % 4096,
            memory@.len() == 4096,
            cnt <= 16,
            k <= cnt,
            v@ == load_regs(old(v)@, memory@, base as int, k as int),
        decreases cnt - k,
    {
        let idx = (b + k) % 4096;
        proof {
            vstd::arithmetic::div_mod::lemma_add_mod_noop(base as int, k as int, 4096);
            vstd::arithmetic::div_mod::lemma_small_mod(k as nat, 4096);
            assert(idx as int == (base as int + k as int) % 4096);
        }
        v.set(k, memory[idx]);
        k = k + 1;
    }
}

/// `mem` with `program` copied in starting at `PROGRAM_BASE`.
pub open spec fn load_image(mem: Seq<u8>, program: Seq<u8>) -> Seq<u8> {
    Seq::new(4096, |a: int|
        if 0x200 <= a < 0x200 + program.len() {
            program[a - 0x200]
        } else {
            mem[a]
        })
}

impl Cpu {
    pub fn new() -> (cpu: Cpu)
        ensures
            cpu@ == spec_init(),
            wf(cpu@),
    {
        let font = font_set();
        let mut memory: Vec<u8> = Vec::new();
        let mut a: usize = 0;
        while a < 80
            invariant
                font@ == font_seq(),
                a <= 80,
                memory@.len() == a,
                forall|p: int| 0 <= p < a ==> #[trigger] memory@[p] == font_seq()[p],
            decreases 80 - a,
        {
            memory.push(font[a]);
            a = a + 1;
        }
        while a < 4096
            invariant
                80 <= a <= 4096,
                memory@.len() == a,
                forall|p: int| 0 <= p < 80 ==> #[trigger] memory@[p] == font_seq()[p],
                forall|p: int| 80 <= p < a ==> #[trigger] memory@[p] == 0,
            decreases 4096 - a,
        {
            memory.push(0);
            a = a + 1;
        }
        let mut v: Vec<u8> = Vec::new();
        while v.len() < 16
            invariant
                v@.len() <= 16,
                forall|p: int| 0 <= p < v@.len() ==> #[trigger] v@[p] == 0,
            decreases 16 - v@.len(),
        {
            v.push(0);
        }
        let mut stack: Vec<u16> = Vec::new();
        while stack.len() < 16
            invariant
                stack@.len() <= 16,
                forall|p: int| 0 <= p < stack@.len() ==> #[trigger] stack@[p] == 0,
            decreases 16 - stack@.len(),
        {
            stack.push(0);
        }
        let cpu = Cpu {
            i: 0,
            pc: 0x200,
            sp: 0,
            dt: 0,
            memory,
            v,
            stack,
            display: Display::new(),
            keypad: Keypad::new(),
            waiting: None,
            fault: None,
            rand: Rng::new(RNG_SEED),
        };
        proof {
            assert(cpu@.memory =~= spec_init().memory);
            assert(cpu@.v =~= spec_init().v);
            assert(cpu@.stack =~= spec_init().stack);
            assert(cpu@ =~= spec_init());
        }
        cpu
    }

    /// Return every part of the machine to its initial state: memory zeroed
    /// with the font table reloaded, registers, stack, timer, framebuffer and
    /// keys cleared, both latches dropped, the byte source reseeded.
    pub fn reset(&mut self)
        ensures
            final(self)@ == spec_init(),
            wf(final(self)@),
    {
        *self = Cpu::new();
    }

    /// Copy `program` into memory starting at `PROGRAM_BASE`; rejected, with
    /// the machine unchanged, exactly when it does not fit.
    pub fn load_program(&mut self, program: &Vec<u8>) -> (outcome: Result<(), LoadError>)
        requires
            wf(old(self)@),
        ensures
            wf(final(self)@),
            program@.len() <= 4096 - 0x200 ==> outcome == Result::<(), LoadError>::Ok(())
                && final(self)@ == (CpuView {
                    memory: load_image(old(self)@.memory, program@),
                    ..old(self)@
                }),
            program@.len() > 4096 - 0x200 ==> outcome == Result::<(), LoadError>::Err(
                LoadError::TooLarge,
            ) && *final(self) == *old(self),
    {
        if program.len() > 4096 - PROGRAM_BASE {
            return Err(LoadError::TooLarge);
        }
        let mut k: usize = 0;
        while k < program.len()
            invariant
                self.memory@.len() == 4096,
                program@.len() <= 4096 - 0x200,
                k <= program@.len(),
                forall|p: int| 0x200 <= p < 0x200 + k ==> #[trigger] self.memory@[p]
                    == program@[p - 0x200],
                forall|p: int| (0 <= p < 0x200 || 0x200 + k <= p < 4096) ==> #[trigger] self.memory@[p]
                    == old(self)@.memory[p],
                self.i == old(self).i,
                self.pc == old(self).pc,
                self.sp == old(self).sp,
                self.dt == old(self).dt,
                self.v == old(self).v,
                self.stack == old(self).stack,
                self.display == old(self).display,
                self.keypad == old(self).keypad,
                self.waiting == old(self).waiting,
                self.fault == old(self).fault,
                self.rand == old(self).rand,
            decreases program@.len() - k,
        {
            self.memory.set(PROGRAM_BASE + k, program[k]);
            k = k + 1;
        }
        proof {
            assert(self@.memory =~= load_image(old(self)@.memory, program@));
            assert(self@ =~= (CpuView { memory: load_image(old(self)@.memory, program@), ..old(self)@ }));
        }
        Ok(())
    }

    /// Execute one already-fetched opcode; the program counter has already
    /// been advanced past it.
    fn process_opcode(&mut self, opcode: u16)
        requires
            wf(old(self)@),
        ensures
            wf(final(self)@),
            final(self)@ == spec_step(old(self)@, opcode),
    {
        proof {
            lemma_nibble_bounds(opcode);
        }
        let x = ((opcode >> 8) & 0xF) as usize;
        let y = ((opcode >> 4) & 0xF) as usize;
        let vx = self.v[x];
        let vy = self.v[y];
        let nnn = opcode & 0xFFF;
        let kk = (opcode & 0xFF) as u8;
        let n = (opcode & 0xF) as usize;
        let top = opcode & 0xF000;
        proof {
            lemma_low_nibble(vx);
        }
        if opcode == 0x00E0 {
            self.display.cls();
            proof {
                assert(self@ =~= spec_step(old(self)@, opcode));
            }
        } else if opcode == 0x00EE {
            if self.sp == 0 {
                self.fault = Some(Fault::StackUnderflow);
            } else {
                self.sp = self.sp - 1;
                self.pc = self.stack[self.sp as usize];
            }
            proof {
                assert(self@ =~= spec_step(old(self)@, opcode));
            }
        } else if top == 0x0000 {
            proof {
                assert(self@ =~= spec_step(old(self)@, opcode));
            }
        } else if top == 0x1000 {
            self.pc = nnn;
            proof {
                assert(self@ =~= spec_step(old(self)@, opcode));
            }
        } else if top == 0x2000 {
            if self.sp == 16 {
                self.fault = Some(Fault::StackOverflow);
            } else {
                self.stack.set(self.sp as usize, self.pc);
                self.sp = self.sp + 1;
                self.pc = nnn;
            }
            proof {
                assert(self@ =~= spec_step(old(self)@, opcode));
            }
        } else if top == 0x3000 {
            if vx == kk {
                self.pc = wrap_add16(self.pc, 2);
            }
            proof {
                assert(self@ =~= spec_step(old(self)@, opcode));
            }
        } else if top == 0x4000 {
            if vx != kk {
                self.pc = wrap_add16(self.pc, 2);
            }
            proof {
                assert(self@ =~= spec_step(old(self)@, opcode));
            }
        } else if (opcode & 0xF00F) == 0x5000 {
            if vx == vy {
                self.pc = wrap_add16(self.pc, 2);
            }
            proof {
                assert(self@ =~= spec_step(old(self)@, opcode));
            }
        } else if top == 0x6000 {
            self.v.set(x, kk);
            proof {
                assert(self@ =~= spec_step(old(self)@, opcode));
            }
        } else if top == 0x7000 {
            let sum = ((vx as u16) + (kk as u16)) % 256;
            self.v.set(x, sum as u8);
            proof {
                assert(self@ =~= spec_step(old(self)@, opcode));
            }
        } else if (opcode & 0xF00F) == 0x8000 {
            self.v.set(x, vy);
            proof {
                assert(self@ =~= spec_step(old(self)@, opcode));
            }
        } else if (opcode & 0xF00F) == 0x8001 {
            self.v.set(x, vx | vy);
            proof {
                assert(self@ =~= spec_step(old(self)@, opcode));
            }
        } else if (opcode & 0xF00F) == 0x8002 {
            self.v.set(x, vx & vy);
            proof {
                assert(self@ =~= spec_step(old(self)@, opcode));
            }
        } else if (opcode & 0xF00F) == 0x8003 {
            self.v.set(x, vx ^ vy);
            proof {
                assert(self@ =~= spec_step(old(self)@, opcode));
            }
        } else if (opcode & 0xF00F) == 0x8004 {
            let sum = (vx as u16) + (vy as u16);
            self.v.set(15, if sum > 255 { 1 } else { 0 });
            self.v.set(x, (sum % 256) as u8);
            proof {
                assert(self@ =~= spec_step(old(self)@, opcode));
            }
        } else if (opcode & 0xF00F) == 0x8005 {
            self.v.set(15, if vx >= vy { 1 } else { 0 });
            let diff = wrap_sub8(vx, vy);
            self.v.set(x, diff);
            proof {
                assert(self@ =~= spec_step(old(self)@, opcode));
            }
        } else if (opcode & 0xF00F) == 0x8006 {
            self.v.set(15, vx & 1);
            self.v.set(x, vx >> 1u8);
            proof {
                assert(self@ =~= spec_step(old(self)@, opcode));
            }
        } else if (opcode & 0xF00F) == 0x8007 {
            self.v.set(15, if vy >= vx { 1 } else { 0 });
            let diff = wrap_sub8(vy, vx);
            self.v.set(x, diff);
            proof {
                assert(self@ =~= spec_step(old(self)@, opcode));
            }
        } else if (opcode & 0xF00F) == 0x800E {
            self.v.set(15, (vx >> 7u8) & 1);
            let doubled = ((vx as u16) + (vx as u16)) % 256;
            self.v.set(x, doubled as u8);
            proof {
                assert(self@ =~= spec_step(old(self)@, opcode));
            }
        } else if (opcode & 0xF00F) == 0x9000 {
            if vx != vy {
                self.pc = wrap_add16(self.pc, 2);
            }
            proof {
                assert(self@ =~= spec_step(old(self)@, opcode));
            }
        } else if top == 0xA000 {
            self.i = nnn;
            proof {
                assert(self@ =~= spec_step(old(self)@, opcode));
            }
        } else if top == 0xB000 {
            let v0 = self.v[0];
            self.pc = nnn + (v0 as u16);
            proof {
                assert(self@ =~= spec_step(old(self)@, opcode));
            }
        } else if top == 0xC000 {
            let b = self.rand.next_byte();
            self.v.set(x, b & kk);
            proof {
                assert(self@ =~= spec_step(old(self)@, opcode));
            }
        } else if top == 0xD000 {
            let base = (self.i & 0xFFF) as usize;
            proof {
                let iv = self.i;
                assert(iv & 0xFFF == iv % 4096) by (bit_vector);
            }
            let mut sprite: Vec<u8> = Vec::new();
            let mut r: usize = 0;
            while r < n
                invariant
                    self.memory@.len() == 4096,
                    base == self.i as int % 4096,
                    r <= n,
                    n < 16,
                    sprite@.len() == r,
                    forall|q: int| 0 <= q < r ==> #[trigger] sprite@[q] == mem_at(
                        self.memory@,
                        self.i as int + q,
                    ),
                decreases n - r,
            {
                let idx = (base + r) % 4096;
                proof {
                    vstd::arithmetic::div_mod::lemma_add_mod_noop(self.i as int, r as int, 4096);
                    vstd::arithmetic::div_mod::lemma_small_mod(r as nat, 4096);
                }
                sprite.push(self.memory[idx]);
                r = r + 1;
            }
            proof {
                assert(sprite@ =~= sprite_rows(self@.memory, self@.i, n as int));
            }
            let col = self.display.draw(vx as usize, vy as usize, &sprite);
            self.v.set(15, if col { 1 } else { 0 });
            proof {
                assert(self@ =~= spec_step(old(self)@, opcode));
            }
        } else if (opcode & 0xF0FF) == 0xE09E {
            if self.keypad.is_down(vx & 0xF) {
                self.pc = wrap_add16(self.pc, 2);
            }
            proof {
                assert(self@ =~= spec_step(old(self)@, opcode));
            }
        } else if (opcode & 0xF0FF) == 0xE0A1 {
            if !self.keypad.is_down(vx & 0xF) {
                self.pc = wrap_add16(self.pc, 2);
            }
            proof {
                assert(self@ =~= spec_step(old(self)@, opcode));
            }
        } else if (opcode & 0xF0FF) == 0xF007 {
            self.v.set(x, self.dt);
            proof {
                assert(self@ =~= spec_step(old(self)@, opcode));
            }
        } else if (opcode & 0xF0FF) == 0xF00A {
            let snap = self.keypad.snapshot();
            self.waiting = Some(KeyWait { target: x as u8, snapshot: snap });
            proof {
                assert(self@ =~= spec_step(old(self)@, opcode));
            }
        } else if (opcode & 0xF0FF) == 0xF015 {
            self.dt = vx;
            proof {
                assert(self@ =~= spec_step(old(self)@, opcode));
            }
        } else if (opcode & 0xF0FF) == 0xF01E {
            self.i = wrap_add16(self.i, vx as u16);
            proof {
                assert(self@ =~= spec_step(old(self)@, opcode));
            }
        } else if (opcode & 0xF0FF) == 0xF029 {
            self.i = 5 * ((vx & 0xF) as u16);
            proof {
                assert(self@ =~= spec_step(old(self)@, opcode));
            }
        } else if (opcode & 0xF0FF) == 0xF033 {
            let i0 = (self.i & 0xFFF) as usize;
            let i1 = (i0 + 1) % 4096;
            let i2 = (i0 + 2) % 4096;
            proof {
                let iv = self.i;
                assert(iv & 0xFFF == iv % 4096) by (bit_vector);
                vstd::arithmetic::div_mod::lemma_add_mod_noop(self.i as int, 1, 4096);
                vstd::arithmetic::div_mod::lemma_add_mod_noop(self.i as int, 2, 4096);
            }
            self.memory.set(i0, vx / 100);
            self.memory.set(i1, (vx / 10) % 10);
            self.memory.set(i2, vx % 10);
            proof {
                assert(self@ =~= spec_step(old(self)@, opcode));
            }
        } else if (opcode & 0xF0FF) == 0xF055 {
            store_regs_exec(&mut self.memory, self.i, &self.v, x + 1);
            proof {
                assert(self@ =~= spec_step(old(self)@, opcode));
            }
        } else if (opcode & 0xF0FF) == 0xF065 {
            load_regs_exec(&mut self.v, &self.memory, self.i, x + 1);
            proof {
                assert(self@ =~= spec_step(old(self)@, opcode));
            }
        } else {
            let at = wrap_sub16(self.pc, 2);
            self.fault = Some(Fault::UnknownOpcode { opcode, pc: at });
            proof {
                assert(self@ =~= spec_step(old(self)@, opcode));
            }
        }
    }

    /// Run one cycle: a no-op once faulted; while the key-wait latch is set,
    /// stall, or store the newly pressed key and clear the latch; otherwise
    /// fetch the opcode at PC, advance PC by 2, and execute it.
    pub fn execute_cycle(&mut self)
        requires
            wf(old(self)@),
        ensures
            wf(final(self)@),
            final(self)@ == spec_cycle(old(self)@),
    {
        if self.fault.is_some() {
            proof {
                assert(self@ =~= spec_cycle(old(self)@));
            }
            return ;
        }
        if self.waiting.is_some() {
            let target = match &self.waiting {
                Some(w) => w.target,
                None => 0,
            };
            let pressed = match &self.waiting {
                Some(w) => self.keypad.first_pressed_since(&w.snapshot),
                None => None,
            };
            match pressed {
                Some(k) => {
                    proof {
                        lemma_first_new_key_bound(
                            self@.keys,
                            self@.waiting->Some_0.snapshot,
                            0,
                        );
                    }
                    self.v.set(target as usize, k);
                    self.waiting = None;
                },
                None => {},
            }
            proof {
                assert(self@ =~= spec_cycle(old(self)@));
            }
            return ;
        }
        let opcode = read_word(&self.memory, self.pc);
        self.pc = wrap_add16(self.pc, 2);
        proof {
            assert(self@ =~= (CpuView { pc: add16(old(self)@.pc, 2), ..old(self)@ }));
        }
        self.process_opcode(opcode);
    }

    /// Saturating decrement of the delay timer.
    pub fn decrement_timers(&mut self)
        ensures
            final(self)@ == (CpuView {
                dt: if old(self)@.dt > 0 { (old(self)@.dt - 1) as u8 } else { 0 },
                ..old(self)@
            }),
    {
        if self.dt > 0 {
            self.dt = self.dt - 1;
        }
        proof {
            assert(self@ =~= (CpuView {
                dt: if old(self)@.dt > 0 { (old(self)@.dt - 1) as u8 } else { 0 },
                ..old(self)@
            }));
        }
    }

    /// Mark key `i` down.
    pub fn key_down(&mut self, i: u8)
        requires
            wf(old(self)@),
            i < 16,
        ensures
            wf(final(self)@),
            final(self)@ == (CpuView { keys: old(self)@.keys.update(i as int, true), ..old(self)@ }),
    {
        self.keypad.key_down(i);
        proof {
            assert(self@ =~= (CpuView { keys: old(self)@.keys.update(i as int, true), ..old(self)@ }));
        }
    }

    /// Mark key `i` up.
    pub fn key_up(&mut self, i: u8)
        requires
            wf(old(self)@),
            i < 16,
        ensures
            wf(final(self)@),
            final(self)@ == (CpuView { keys: old(self)@.keys.update(i as int, false), ..old(self)@ }),
    {
        self.keypad.key_up(i);
        proof {
            assert(self@ =~= (CpuView { keys: old(self)@.keys.update(i as int, false), ..old(self)@ }));
        }
    }

    pub fn get_memory(&self) -> (memory: &Vec<u8>)
        ensures
            memory@ == self@.memory,
    {
        &self.memory
    }

    pub fn get_display(&self) -> (pixels: &Vec<u8>)
        ensures
            pixels@ == self@.display,
    {
        &self.display.memory
    }

    pub fn get_register_v(&self) -> (v: &Vec<u8>)
        ensures
            v@ == self@.v,
    {
        &self.v
    }

    pub fn get_register_i(&self) -> (i: u16)
        ensures
            i == self@.i,
    {
        self.i
    }

    pub fn get_register_pc(&self) -> (pc: u16)
        ensures
            pc == self@.pc,
    {
        self.pc
    }

    pub fn get_sp(&self) -> (sp: u8)
        ensures
            sp == self@.sp,
    {
        self.sp
    }

    pub fn get_delay_timer(&self) -> (dt: u8)
        ensures
            dt == self@.dt,
    {
        self.dt
    }

    /// Whether a fault is latched.
    pub fn is_faulted(&self) -> (faulted: bool)
        ensures
            faulted == (self@.fault is Some),
    {
        self.fault.is_some()
    }

    /// The latched fault, for inspection.
    pub fn get_fault(&self) -> (fault: Option<Fault>)
        ensures
            fault == self@.fault,
    {
        self.fault
    }
}

/// Whether an opcode is outside the families that touch the program counter
/// or stall: CALL, RET, the jumps, the skips, DRW and the key-wait.
pub open spec fn pc_neutral(op: u16) -> bool {
    &&& op != 0x00EE  // RET
    &&& (op & 0xF000) != 0x1000  // JP nnn
    &&& (op & 0xF000) != 0x2000  // CALL nnn
    &&& (op & 0xF000) != 0x3000  // SE Vx,kk
    &&& (op & 0xF000) != 0x4000  // SNE Vx,kk
    &&& (op & 0xF00F) != 0x5000  // SE Vx,Vy
    &&& (op & 0xF00F) != 0x9000  // SNE Vx,Vy
    &&& (op & 0xF000) != 0xB000  // JP V0,nnn
    &&& (op & 0xF000) != 0xD000  // DRW Vx,Vy,n
    &&& (op & 0xF0FF) != 0xE09E  // SKP Vx
    &&& (op & 0xF0FF) != 0xE0A1  // SKNP Vx
    &&& (op & 0xF0FF) != 0xF00A  // LD Vx,K
}

/// A running, non-waiting machine whose next opcode is outside the CALL,
/// RET, jump, skip, key-wait and draw families ends the cycle with the
/// program counter advanced by exactly 2.
pub proof fn lemma_pc_advances_by_two(s: CpuView)
    requires
        wf(s),
        s.fault is None,
        s.waiting is None,
        pc_neutral(word_at(s.memory, s.pc)),
    ensures
        spec_cycle(s).pc == add16(s.pc, 2),
{
}

/// `ADD Vx,Vy` leaves the low byte of the sum in `Vx` and sets `VF` exactly
/// when the sum overflows a byte, for every pair of register values.
pub proof fn lemma_add_with_carry(s: CpuView, op: u16)
    requires
        wf(s),
        op & 0xF00F == 0x8004,
        ((op >> 8) & 0xF) < 15,
        ((op >> 4) & 0xF) < 15,
    ensures
        ({
            let a = s.v[((op >> 8) & 0xF) as int];
            let b = s.v[((op >> 4) & 0xF) as int];
            &&& spec_step(s, op).v[((op >> 8) & 0xF) as int] == (((a as int) + (b as int)) % 256) as u8
            &&& spec_step(s, op).v[15] == (if (a as int) + (b as int) > 255 { 1u8 } else { 0u8 })
        }),
{
    lemma_nibble_bounds(op);
    assert(op & 0xF00F == 0x8004 ==> op & 0xF000 == 0x8000 && op != 0x00E0 && op != 0x00EE)
        by (bit_vector);
}

/// `SHR Vx` puts the old low bit of `Vx` in `VF` and halves `Vx`, for every
/// register value.
pub proof fn lemma_shr(s: CpuView, op: u16)
    requires
        wf(s),
        op & 0xF00F == 0x8006,
        ((op >> 8) & 0xF) < 15,
    ensures
        ({
            let a = s.v[((op >> 8) & 0xF) as int];
            &&& spec_step(s, op).v[15] == a & 1
            &&& spec_step(s, op).v[((op >> 8) & 0xF) as int] == a >> 1u8
        }),
{
    lemma_nibble_bounds(op);
    assert(op & 0xF00F == 0x8006 ==> op & 0xF000 == 0x8000 && op != 0x00E0 && op != 0x00EE)
        by (bit_vector);
}

/// `LD B,Vx` spells the decimal digits of `Vx` at addresses I, I+1, I+2, for
/// every register value.
pub proof fn lemma_bcd_digits(s: CpuView, op: u16)
    requires
        wf(s),
        op & 0xF0FF == 0xF033,
        s.i as int + 2 < 4096,
    ensures
        ({
            let a = s.v[((op >> 8) & 0xF) as int] as int;
            &&& spec_step(s, op).memory[s.i as int] == a / 100
            &&& spec_step(s, op).memory[s.i as int + 1] == (a / 10) % 10
            &&& spec_step(s, op).memory[s.i as int + 2] == a % 10
        }),
{
    lemma_nibble_bounds(op);
    assert(op & 0xF0FF == 0xF033 ==> op & 0xF000 == 0xF000 && op & 0xF00F == 0xF003 && op
        != 0x00E0 && op != 0x00EE) by (bit_vector);
    vstd::arithmetic::div_mod::lemma_small_mod(s.i as nat, 4096);
    vstd::arithmetic::div_mod::lemma_small_mod(s.i as nat + 1, 4096);
    vstd::arithmetic::div_mod::lemma_small_mod(s.i as nat + 2, 4096);
}

/// Whether the font table stands unmodified in the first 80 bytes of memory,
/// as `reset` installs it.
pub open spec fn font_loaded(mem: Seq<u8>) -> bool {
    forall|a: int| 0 <= a < 80 ==> #[trigger] mem[a] == font_seq()[a]
}

/// A freshly constructed machine has the font table loaded.
pub proof fn lemma_init_font_loaded()
    ensures
        font_loaded(spec_init().memory),
{
}

/// `LD F,Vx` points I at the canonical five-byte glyph for the low nibble of
/// `Vx`: while the font table is intact, the five bytes at I match it.
pub proof fn lemma_font_lookup(s: CpuView, op: u16)
    requires
        wf(s),
        font_loaded(s.memory),
        op & 0xF0FF == 0xF029,
    ensures
        ({
            let d = (s.v[((op >> 8) & 0xF) as int] & 0xF) as int;
            let after = spec_step(s, op);
            &&& after.i == 5 * d
            &&& forall|r: int| 0 <= r < 5 ==> #[trigger] after.memory[5 * d + r] == font_seq()[5 * d
                + r]
        }),
{
    lemma_nibble_bounds(op);
    assert(op & 0xF0FF == 0xF029 ==> op & 0xF000 == 0xF000 && op & 0xF00F == 0xF009 && op
        != 0x00E0 && op != 0x00EE) by (bit_vector);
    lemma_low_nibble(s.v[((op >> 8) & 0xF) as int]);
}

} // verus!

