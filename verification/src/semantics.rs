use vstd::prelude::*;
use crate::display;
use crate::keyboard;
use crate::memory;

verus! {

/// Capacity of the call stack: exceeding it is a reported fault.
pub const STACK_DEPTH: usize = 16;

/// The two conditions on which a step halts instead of completing:
/// an opcode outside the instruction table, and a call that would
/// grow the stack past `STACK_DEPTH`. Both carry the opcode and the
/// address it was fetched from.
#[derive(Clone, Copy, Debug, PartialEq, Eq, Structural)]
pub enum Fault {
    InvalidOpcode { opcode: u16, pc: u16 },
    StackOverflow { opcode: u16, pc: u16 },
}

/// The whole machine state as mathematical values: the model every
/// contract of the interpreter speaks of.
#[verifier::ext_equal]
pub struct MachineView {
    pub mem: Seq<u8>,
    pub disp: Seq<bool>,
    pub keys: Seq<bool>,
    pub regs: Seq<u8>,
    pub index: u16,
    pub pc: u16,
    pub stack: Seq<u16>,
    pub delay: u8,
    pub sound: u8,
}

/// What executing one decoded opcode yields: a next state, or a fault.
#[verifier::ext_equal]
pub enum Step {
    Next(MachineView),
    Fail(Fault),
}

impl MachineView {
    pub open spec fn wf(self) -> bool {
        &&& self.mem.len() == memory::MEM_SIZE
        &&& self.disp.len() == display::PIXELS
        &&& self.keys.len() == keyboard::KEYS
        &&& self.regs.len() == 16
        &&& self.stack.len() <= STACK_DEPTH
    }
}

/// The state of a machine that was just constructed or reset: font in
/// low memory, everything else zeroed, PC at `PROGRAM_START`.
pub open spec fn spec_initial() -> MachineView {
    MachineView {
        mem: memory::spec_with_font(memory::spec_blank_mem()),
        disp: display::spec_blank_disp(),
        keys: keyboard::spec_blank_keys(),
        regs: Seq::new(16, |i: int| 0u8),
        index: 0u16,
        pc: 0x200u16,
        stack: Seq::<u16>::empty(),
        delay: 0u8,
        sound: 0u8,
    }
}

/// The state after a reset followed by loading `rom`: a function of the
/// rom alone, whatever the machine held before.
pub open spec fn spec_loaded(rom: Seq<u8>) -> MachineView {
    MachineView { mem: memory::spec_with_program(spec_initial().mem, rom), ..spec_initial() }
}

// ---------------------------------------------------------------------
// Opcode decoding
// ---------------------------------------------------------------------

/// Nibble selecting the first register operand (bits 8-11).
pub open spec fn op_x(op: u16) -> int {
    ((op & 0x0F00) >> 8) as int
}

/// Nibble selecting the second register operand (bits 4-7).
pub open spec fn op_y(op: u16) -> int {
    ((op & 0x00F0) >> 4) as int
}

/// Low nibble (bits 0-3).
pub open spec fn op_n(op: u16) -> int {
    (op & 0x000F) as int
}

/// Low byte (bits 0-7).
pub open spec fn op_nn(op: u16) -> u8 {
    (op & 0x00FF) as u8
}

/// Low 12 bits: an address operand.
pub open spec fn op_nnn(op: u16) -> u16 {
    op & 0x0FFF
}

pub proof fn lemma_decode_bounds(op: u16)
    ensures
        0 <= op_x(op) < 16,
        0 <= op_y(op) < 16,
        0 <= op_n(op) < 16,
        op & 0x000F < 16,
        op & 0x00FF < 256,
        0 <= op_nnn(op) < 4096,
        op & 0x0FFF < 4096,
{
    assert(((op & 0x0F00) >> 8) < 16 && ((op & 0x00F0) >> 4) < 16 && (op & 0x000F) < 16 && (op
        & 0x00FF) < 256 && (op & 0x0FFF) < 4096) by (bit_vector);
}

/// The 16-bit word fetched big-endian at the program counter.
pub open spec fn spec_fetch(m: MachineView) -> u16 {
    ((memory::spec_read(m.mem, m.pc as int) as u16) << 8u16) | (memory::spec_read(
        m.mem,
        m.pc as int + 1,
    ) as u16)
}

/// The machine once the fetch has advanced the program counter past the
/// opcode word.
pub open spec fn spec_after_fetch(m: MachineView) -> MachineView {
    MachineView { pc: m.pc.wrapping_add(2), ..m }
}

/// The address reported with a fault: two bytes before the post-fetch
/// program counter, clamped at zero.
pub open spec fn spec_fault_pc(pc: u16) -> u16 {
    if pc >= 2 {
        (pc - 2) as u16
    } else {
        0u16
    }
}

// ---------------------------------------------------------------------
// Small state transformers
// ---------------------------------------------------------------------

/// The program counter moved past the following instruction when `cond`
/// holds: the conditional-skip opcodes.
pub open spec fn spec_skip_if(m: MachineView, cond: bool) -> MachineView {
    if cond {
        MachineView { pc: m.pc.wrapping_add(2), ..m }
    } else {
        m
    }
}

/// Register `x` set to `v`.
pub open spec fn spec_set_reg(m: MachineView, x: int, v: u8) -> MachineView {
    MachineView { regs: m.regs.update(x, v), ..m }
}

/// Register `x` set to `v` and then the flag register VF to `flag`; when
/// `x` is 15 the flag wins, as the arithmetic opcodes define it.
pub open spec fn spec_set_reg_flag(m: MachineView, x: int, v: u8, flag: u8) -> MachineView {
    MachineView { regs: m.regs.update(x, v).update(15, flag), ..m }
}

// ---------------------------------------------------------------------
// Register file <-> memory transfers
// ---------------------------------------------------------------------

/// The RAM after registers 0 through k-1 are stored at base, base+1, ...;
/// stores past the end of the RAM are discarded.
pub open spec fn spec_store_regs(mem: Seq<u8>, base: int, regs: Seq<u8>, k: int) -> Seq<u8>
    decreases k,
{
    if k <= 0 {
        mem
    } else {
        memory::spec_write(spec_store_regs(mem, base, regs, k - 1), base + (k - 1), regs[k - 1])
    }
}

/// The register file after registers 0 through k-1 are loaded from base,
/// base+1, ...; loads past the end of the RAM read zero.
pub open spec fn spec_load_regs(regs: Seq<u8>, mem: Seq<u8>, base: int, k: int) -> Seq<u8>
    decreases k,
{
    if k <= 0 {
        regs
    } else {
        spec_load_regs(regs, mem, base, k - 1).update(k - 1, memory::spec_read(mem, base + (k - 1)))
    }
}

// ---------------------------------------------------------------------
// Sprite drawing
// ---------------------------------------------------------------------

/// Whether bit `c` (0 = most significant) of a sprite row byte is set.
pub open spec fn sprite_bit_set(byte: u8, c: int) -> bool {
    (byte >> ((7 - c) as u8)) & 1 == 1
}

/// Flat framebuffer index of column `cx`, row `cy`.
pub open spec fn pix_idx(cx: int, cy: int) -> int {
    cy * 64 + cx
}

/// Whether canvas cell (cx, cy) is covered by the part of the sprite at
/// (xp, yp) already drawn: all rows before `r`, and the first `c` columns
/// of row `r`. The whole n-row sprite is the case r == n, c == 0.
pub open spec fn covers_upto(xp: int, yp: int, r: int, c: int, cx: int, cy: int) -> bool {
    &&& xp <= cx < xp + 8
    &&& yp <= cy
    &&& (cy - yp < r || (cy - yp == r && cx - xp < c))
}

/// The sprite bit that lands on canvas cell (cx, cy): bit cx - xp of the
/// sprite row read at index + (cy - yp).
pub open spec fn draw_bit(m: MachineView, xp: int, yp: int, cx: int, cy: int) -> bool {
    sprite_bit_set(memory::spec_read(m.mem, m.index + (cy - yp)), cx - xp)
}

/// The framebuffer after the covered, in-bounds sprite bits that are set
/// have been XOR-toggled; every other pixel keeps its state.
pub open spec fn disp_upto(m: MachineView, xp: int, yp: int, r: int, c: int) -> Seq<bool> {
    Seq::new(
        m.disp.len(),
        |i: int|
            {
                let cx = i % 64;
                let cy = i / 64;
                if covers_upto(xp, yp, r, c, cx, cy) && draw_bit(m, xp, yp, cx, cy) {
                    !m.disp[i]
                } else {
                    m.disp[i]
                }
            },
    )
}

/// Whether some covered, in-bounds sprite bit that is set lands on a
/// pixel that was already lit: the collision condition for VF.
pub open spec fn coll_upto(m: MachineView, xp: int, yp: int, r: int, c: int) -> bool {
    exists|cx: int, cy: int|
        0 <= cx < 64 && 0 <= cy < 32 && #[trigger] covers_upto(xp, yp, r, c, cx, cy) && draw_bit(
            m,
            xp,
            yp,
            cx,
            cy,
        ) && m.disp[pix_idx(cx, cy)]
}

/// The machine after the Dxyn opcode: sprite of `n` rows at the position
/// named by registers x and y, XOR-drawn with off-canvas bits dropped,
/// VF set to 1 exactly when a collision occurred and to 0 otherwise.
pub open spec fn spec_draw(m: MachineView, x: int, y: int, n: int) -> MachineView {
    let xp = m.regs[x] as int;
    let yp = m.regs[y] as int;
    MachineView {
        disp: disp_upto(m, xp, yp, n, 0),
        regs: m.regs.update(15, if coll_upto(m, xp, yp, n, 0) { 1u8 } else { 0u8 }),
        ..m
    }
}

/// Drawing nothing yet leaves every pixel as it was, and no collision.
pub proof fn lemma_draw_init(m: MachineView, xp: int, yp: int)
    requires
        m.wf(),
    ensures
        disp_upto(m, xp, yp, 0, 0) == m.disp,
        !coll_upto(m, xp, yp, 0, 0),
{
    assert(disp_upto(m, xp, yp, 0, 0) =~= m.disp);
}

/// Finishing row `r` covers the same cells as standing at the start of
/// row `r + 1`: a sprite row is 8 bits wide.
pub proof fn lemma_draw_row_end(m: MachineView, xp: int, yp: int, r: int)
    requires
        m.wf(),
    ensures
        disp_upto(m, xp, yp, r, 8) == disp_upto(m, xp, yp, r + 1, 0),
        coll_upto(m, xp, yp, r, 8) == coll_upto(m, xp, yp, r + 1, 0),
{
    assert forall|cx: int, cy: int|
        covers_upto(xp, yp, r, 8, cx, cy) == covers_upto(xp, yp, r + 1, 0, cx, cy) by {}
    assert(disp_upto(m, xp, yp, r, 8) =~= disp_upto(m, xp, yp, r + 1, 0));
    if coll_upto(m, xp, yp, r, 8) {
        let (cx, cy) = choose|cx: int, cy: int|
            0 <= cx < 64 && 0 <= cy < 32 && #[trigger] covers_upto(xp, yp, r, 8, cx, cy)
                && draw_bit(m, xp, yp, cx, cy) && m.disp[pix_idx(cx, cy)];
        assert(covers_upto(xp, yp, r + 1, 0, cx, cy));
    }
    if coll_upto(m, xp, yp, r + 1, 0) {
        let (cx, cy) = choose|cx: int, cy: int|
            0 <= cx < 64 && 0 <= cy < 32 && #[trigger] covers_upto(xp, yp, r + 1, 0, cx, cy)
                && draw_bit(m, xp, yp, cx, cy) && m.disp[pix_idx(cx, cy)];
        assert(covers_upto(xp, yp, r, 8, cx, cy));
    }
}

/// How processing one sprite cell (row `r`, column `c`) moves the
/// partial draw forward: if its bit is set and it lands on the canvas,
/// exactly that pixel toggles and a lit pixel there records a collision;
/// otherwise nothing changes.
pub proof fn lemma_draw_step(m: MachineView, xp: int, yp: int, r: int, c: int)
    requires
        m.wf(),
        0 <= r,
        0 <= c < 8,
        0 <= xp,
        0 <= yp,
    ensures
        ({
            let cx = xp + c;
            let cy = yp + r;
            let inb = cx < 64 && cy < 32;
            let bit = draw_bit(m, xp, yp, cx, cy);
            &&& (inb && bit ==> disp_upto(m, xp, yp, r, c + 1) == disp_upto(
                m,
                xp,
                yp,
                r,
                c,
            ).update(pix_idx(cx, cy), !m.disp[pix_idx(cx, cy)]))
            &&& (!(inb && bit) ==> disp_upto(m, xp, yp, r, c + 1) == disp_upto(m, xp, yp, r, c))
            &&& (inb ==> disp_upto(m, xp, yp, r, c)[pix_idx(cx, cy)] == m.disp[pix_idx(cx, cy)])
            &&& coll_upto(m, xp, yp, r, c + 1) == (coll_upto(m, xp, yp, r, c) || (inb && bit
                && m.disp[pix_idx(cx, cy)]))
        }),
{
    let cx = xp + c;
    let cy = yp + r;
    let inb = cx < 64 && cy < 32;
    let bit = draw_bit(m, xp, yp, cx, cy);
    assert forall|i: int| 0 <= i < 2048 implies {
        &&& 0 <= i % 64 < 64
        &&& 0 <= i / 64 < 32
        &&& i == pix_idx(i % 64, i / 64)
        &&& ((#[trigger] covers_upto(xp, yp, r, c + 1, i % 64, i / 64)) == (covers_upto(
            xp,
            yp,
            r,
            c,
            i % 64,
            i / 64,
        ) || (i % 64 == cx && i / 64 == cy)))
    } by {
        vstd::arithmetic::div_mod::lemma_fundamental_div_mod(i, 64);
    }
    if inb {
        let i0 = pix_idx(cx, cy);
        assert(0 <= i0 < 2048) by {
            assert(cy * 64 + cx < 2048);
        }
        assert(i0 % 64 == cx && i0 / 64 == cy) by {
            vstd::arithmetic::div_mod::lemma_fundamental_div_mod(i0, 64);
        }
        assert(!covers_upto(xp, yp, r, c, cx, cy));
        assert(disp_upto(m, xp, yp, r, c)[i0] == m.disp[i0]);
        if bit {
            assert(disp_upto(m, xp, yp, r, c + 1) =~= disp_upto(m, xp, yp, r, c).update(
                i0,
                !m.disp[i0],
            ));
        } else {
            assert(disp_upto(m, xp, yp, r, c + 1) =~= disp_upto(m, xp, yp, r, c));
        }
    } else {
        assert forall|i: int| 0 <= i < 2048 implies !((#[trigger] covers_upto(
            xp,
            yp,
            r,
            c + 1,
            i % 64,
            i / 64,
        )) && !covers_upto(xp, yp, r, c, i % 64, i / 64)) by {
            vstd::arithmetic::div_mod::lemma_fundamental_div_mod(i, 64);
        }
        assert(disp_upto(m, xp, yp, r, c + 1) =~= disp_upto(m, xp, yp, r, c));
    }
    // Collision equivalence.
    if coll_upto(m, xp, yp, r, c) {
        let (wx, wy) = choose|wx: int, wy: int|
            0 <= wx < 64 && 0 <= wy < 32 && #[trigger] covers_upto(xp, yp, r, c, wx, wy)
                && draw_bit(m, xp, yp, wx, wy) && m.disp[pix_idx(wx, wy)];
        assert(covers_upto(xp, yp, r, c + 1, wx, wy));
        assert(coll_upto(m, xp, yp, r, c + 1));
    }
    if inb && bit && m.disp[pix_idx(cx, cy)] {
        assert(covers_upto(xp, yp, r, c + 1, cx, cy));
        assert(coll_upto(m, xp, yp, r, c + 1));
    }
    if coll_upto(m, xp, yp, r, c + 1) {
        let (wx, wy) = choose|wx: int, wy: int|
            0 <= wx < 64 && 0 <= wy < 32 && #[trigger] covers_upto(xp, yp, r, c + 1, wx, wy)
                && draw_bit(m, xp, yp, wx, wy) && m.disp[pix_idx(wx, wy)];
        if covers_upto(xp, yp, r, c, wx, wy) {
            assert(coll_upto(m, xp, yp, r, c));
        } else {
            assert(wx == cx && wy == cy);
            assert(inb && bit && m.disp[pix_idx(cx, cy)]);
        }
    }
}

// ---------------------------------------------------------------------
// Storing and loading the register file round-trips
// ---------------------------------------------------------------------

/// Storing registers changes no byte outside base..base+k, and keeps the
/// RAM's length.
pub proof fn lemma_store_regs_frame(mem: Seq<u8>, base: int, regs: Seq<u8>, k: int)
    requires
        0 <= k,
        mem.len() == memory::MEM_SIZE,
    ensures
        spec_store_regs(mem, base, regs, k).len() == mem.len(),
        forall|a: int|
            0 <= a < mem.len() && !(base <= a < base + k) ==> #[trigger] spec_store_regs(
                mem,
                base,
                regs,
                k,
            )[a] == mem[a],
    decreases k,
{
    if k > 0 {
        lemma_store_regs_frame(mem, base, regs, k - 1);
    }
}

/// A stored register reads back unchanged, as long as its cell lies
/// inside the RAM.
pub proof fn lemma_store_regs_read(mem: Seq<u8>, base: int, regs: Seq<u8>, k: int, i: int)
    requires
        mem.len() == memory::MEM_SIZE,
        0 <= i < k,
        0 <= base,
        base + i < memory::MEM_SIZE,
    ensures
        memory::spec_read(spec_store_regs(mem, base, regs, k), base + i) == regs[i],
    decreases k,
{
    lemma_store_regs_frame(mem, base, regs, k);
    if i == k - 1 {
        lemma_store_regs_frame(mem, base, regs, k - 1);
    } else {
        lemma_store_regs_read(mem, base, regs, k - 1, i);
        lemma_store_regs_frame(mem, base, regs, k - 1);
    }
}

/// Store then load is the identity on registers 0 through `x`: writing
/// V0..Vx to RAM at `base` and reading them back into any register file
/// restores exactly those values. This needs the whole range to lie
/// inside the RAM; a store whose tail falls off the 4096-byte ceiling is
/// discarded there and reads back as zero.
pub proof fn lemma_store_load_roundtrip(
    mem: Seq<u8>,
    regs: Seq<u8>,
    other: Seq<u8>,
    base: int,
    x: int,
)
    requires
        mem.len() == memory::MEM_SIZE,
        regs.len() == 16,
        other.len() == 16,
        0 <= x < 16,
        0 <= base,
        base + x < memory::MEM_SIZE,
    ensures
        forall|i: int|
            0 <= i <= x ==> #[trigger] spec_load_regs(
                other,
                spec_store_regs(mem, base, regs, x + 1),
                base,
                x + 1,
            )[i] == regs[i],
{
    let stored = spec_store_regs(mem, base, regs, x + 1);
    lemma_store_regs_frame(mem, base, regs, x + 1);
    assert forall|i: int| 0 <= i <= x implies #[trigger] spec_load_regs(
        other,
        stored,
        base,
        x + 1,
    )[i] == regs[i] by {
        lemma_store_regs_read(mem, base, regs, x + 1, i);
        lemma_load_regs_elem(other, stored, base, x + 1, i);
    }
}

/// What a load leaves in one register: the byte read for loaded indices,
/// the old value above them.
pub proof fn lemma_load_regs_elem(regs: Seq<u8>, mem: Seq<u8>, base: int, k: int, i: int)
    requires
        regs.len() == 16,
        0 <= i < 16,
        0 <= k <= 16,
    ensures
        spec_load_regs(regs, mem, base, k).len() == 16,
        i < k ==> spec_load_regs(regs, mem, base, k)[i] == memory::spec_read(mem, base + i),
        i >= k ==> spec_load_regs(regs, mem, base, k)[i] == regs[i],
    decreases k,
{
    if k > 0 {
        lemma_load_regs_elem(regs, mem, base, k - 1, i);
    }
}

// ---------------------------------------------------------------------
// Step-level laws
// ---------------------------------------------------------------------

/// Drawing clips instead of wrapping: a canvas pixel outside the
/// sprite's own footprint — the 8 columns and `n` rows starting at the
/// position named by registers x and y — keeps its state, whatever part
/// of the sprite fell off the canvas.
pub proof fn lemma_draw_clips(m: MachineView, x: int, y: int, n: int, cx: int, cy: int)
    requires
        m.wf(),
        0 <= x < 16,
        0 <= y < 16,
        0 <= n,
        0 <= cx < 64,
        0 <= cy < 32,
        !(m.regs[x] <= cx < m.regs[x] + 8 && m.regs[y] <= cy < m.regs[y] + n),
    ensures
        spec_draw(m, x, y, n).disp[pix_idx(cx, cy)] == m.disp[pix_idx(cx, cy)],
{
    let i = pix_idx(cx, cy);
    assert(0 <= i < 2048) by {
        assert(cy * 64 + cx < 2048);
    }
    assert(i % 64 == cx && i / 64 == cy) by {
        vstd::arithmetic::div_mod::lemma_fundamental_div_mod(i, 64);
    }
    assert(!covers_upto(m.regs[x] as int, m.regs[y] as int, n, 0, cx, cy));
}

/// Returning with an empty call stack is a no-op: the opcode 00EE
/// executed on a machine whose stack is empty hands the machine back
/// unchanged, so only the fetch has moved the program counter.
pub proof fn lemma_ret_empty_stack(m: MachineView, rnd: u8)
    requires
        m.wf(),
        m.stack.len() == 0,
    ensures
        spec_exec(m, 0x00EE, rnd) == Step::Next(m),
{
    assert(0x00EEu16 & 0xF000 == 0x0000) by (bit_vector);
}

/// The blocking-input opcode spins: with no key down, one whole
/// fetch-decode-execute step around an Fx0A opcode leaves the machine
/// exactly as it was, so the same instruction executes again next step.
pub proof fn lemma_wait_key_spins(m: MachineView, op: u16, rnd: u8)
    requires
        m.wf(),
        op & 0xF000 == 0xF000,
        op & 0x00FF == 0x0A,
        keyboard::spec_first_key(m.keys) is None,
    ensures
        spec_exec(spec_after_fetch(m), op, rnd) == Step::Next(m),
{
    let mid = spec_after_fetch(m);
    assert(mid.pc.wrapping_sub(2) == m.pc);
    assert(MachineView { pc: mid.pc.wrapping_sub(2), ..mid } =~= m);
}

// ---------------------------------------------------------------------
// One opcode
// ---------------------------------------------------------------------

/// What executing opcode `op` does to the machine `m` (whose program
/// counter has already been advanced past the opcode word). `rnd` is the
/// byte the random source produced, read only by the Cxnn opcode.
pub open spec fn spec_exec(m: MachineView, op: u16, rnd: u8) -> Step {
    let x = op_x(op);
    let y = op_y(op);
    let n = op_n(op);
    let nn = op_nn(op);
    let nnn = op_nnn(op);
    let vx = m.regs[x];
    let vy = m.regs[y];
    let bad = Step::Fail(Fault::InvalidOpcode { opcode: op, pc: spec_fault_pc(m.pc) });
    if op & 0xF000 == 0x0000 {
        if op == 0x00E0 {
            Step::Next(MachineView { disp: display::spec_blank_disp(), ..m })
        } else if op == 0x00EE {
            if m.stack.len() == 0 {
                Step::Next(m)
            } else {
                Step::Next(MachineView { pc: m.stack.last(), stack: m.stack.drop_last(), ..m })
            }
        } else {
            bad
        }
    } else if op & 0xF000 == 0x1000 {
        Step::Next(MachineView { pc: nnn, ..m })
    } else if op & 0xF000 == 0x2000 {
        if m.stack.len() >= STACK_DEPTH {
            Step::Fail(Fault::StackOverflow { opcode: op, pc: spec_fault_pc(m.pc) })
        } else {
            Step::Next(MachineView { stack: m.stack.push(m.pc), pc: nnn, ..m })
        }
    } else if op & 0xF000 == 0x3000 {
        Step::Next(spec_skip_if(m, vx == nn))
    } else if op & 0xF000 == 0x4000 {
        Step::Next(spec_skip_if(m, vx != nn))
    } else if op & 0xF000 == 0x5000 {
        if op & 0x000F == 0 {
            Step::Next(spec_skip_if(m, vx == vy))
        } else {
            bad
        }
    } else if op & 0xF000 == 0x6000 {
        Step::Next(spec_set_reg(m, x, nn))
    } else if op & 0xF000 == 0x7000 {
        Step::Next(spec_set_reg(m, x, vx.wrapping_add(nn)))
    } else if op & 0xF000 == 0x8000 {
        if op & 0x000F == 0x0 {
            Step::Next(spec_set_reg(m, x, vy))
        } else if op & 0x000F == 0x1 {
            Step::Next(spec_set_reg_flag(m, x, vx | vy, 0))
        } else if op & 0x000F == 0x2 {
            Step::Next(spec_set_reg_flag(m, x, vx & vy, 0))
        } else if op & 0x000F == 0x3 {
            Step::Next(spec_set_reg_flag(m, x, vx ^ vy, 0))
        } else if op & 0x000F == 0x4 {
            Step::Next(
                spec_set_reg_flag(
                    m,
                    x,
                    vx.wrapping_add(vy),
                    if vx + vy > 255 {
                        1u8
                    } else {
                        0u8
                    },
                ),
            )
        } else if op & 0x000F == 0x5 {
            Step::Next(
                spec_set_reg_flag(
                    m,
                    x,
                    vx.wrapping_sub(vy),
                    if vx >= vy {
                        1u8
                    } else {
                        0u8
                    },
                ),
            )
        } else if op & 0x000F == 0x6 {
            Step::Next(spec_set_reg_flag(m, x, vx >> 1u8, vx & 1))
        } else if op & 0x000F == 0x7 {
            Step::Next(
                spec_set_reg_flag(
                    m,
                    x,
                    vy.wrapping_sub(vx),
                    if vy >= vx {
                        1u8
                    } else {
                        0u8
                    },
                ),
            )
        } else if op & 0x000F == 0xE {
            Step::Next(spec_set_reg_flag(m, x, vx << 1u8, (vx & 0x80) >> 7u8))
        } else {
            bad
        }
    } else if op & 0xF000 == 0x9000 {
        if op & 0x000F == 0 {
            Step::Next(spec_skip_if(m, vx != vy))
        } else {
            bad
        }
    } else if op & 0xF000 == 0xA000 {
        Step::Next(MachineView { index: nnn, ..m })
    } else if op & 0xF000 == 0xB000 {
        Step::Next(MachineView { pc: (nnn + m.regs[0]) as u16, ..m })
    } else if op & 0xF000 == 0xC000 {
        Step::Next(spec_set_reg(m, x, rnd & nn))
    } else if op & 0xF000 == 0xD000 {
        Step::Next(spec_draw(m, x, y, n))
    } else if op & 0xF000 == 0xE000 {
        if op & 0x00FF == 0x9E {
            Step::Next(spec_skip_if(m, keyboard::spec_key_down(m.keys, vx as int)))
        } else if op & 0x00FF == 0xA1 {
            Step::Next(spec_skip_if(m, !keyboard::spec_key_down(m.keys, vx as int)))
        } else {
            bad
        }
    } else {
        // op & 0xF000 == 0xF000
        if op & 0x00FF == 0x07 {
            Step::Next(spec_set_reg(m, x, m.delay))
        } else if op & 0x00FF == 0x0A {
            match keyboard::spec_first_key(m.keys) {
                Some(k) => Step::Next(spec_set_reg(m, x, k)),
                None => Step::Next(MachineView { pc: m.pc.wrapping_sub(2), ..m }),
            }
        } else if op & 0x00FF == 0x15 {
            Step::Next(MachineView { delay: vx, ..m })
        } else if op & 0x00FF == 0x18 {
            Step::Next(MachineView { sound: vx, ..m })
        } else if op & 0x00FF == 0x1E {
            Step::Next(MachineView { index: m.index.wrapping_add(vx as u16), ..m })
        } else if op & 0x00FF == 0x29 {
            Step::Next(MachineView { index: (vx * 5) as u16, ..m })
        } else if op & 0x00FF == 0x33 {
            Step::Next(
                MachineView {
                    mem: memory::spec_write(
                        memory::spec_write(
                            memory::spec_write(m.mem, m.index as int, vx / 100),
                            m.index as int + 1,
                            (vx / 10) % 10,
                        ),
                        m.index as int + 2,
                        vx % 10,
                    ),
                    ..m
                },
            )
        } else if op & 0x00FF == 0x55 {
            Step::Next(
                MachineView {
                    mem: spec_store_regs(m.mem, m.index as int, m.regs, x + 1),
                    index: m.index.wrapping_add((x + 1) as u16),
                    ..m
                },
            )
        } else if op & 0x00FF == 0x65 {
            Step::Next(
                MachineView {
                    regs: spec_load_regs(m.regs, m.mem, m.index as int, x + 1),
                    index: m.index.wrapping_add((x + 1) as u16),
                    ..m
                },
            )
        } else {
            bad
        }
    }
}

} // verus!
