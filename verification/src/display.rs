//! The 64x32 monochrome framebuffer and the XOR sprite blitter.
//!
//! Pixels are stored one byte per cell, row-major (`index = x + y * 64`),
//! every cell holding 0 or 1. `draw` XORs a sprite onto the framebuffer,
//! wrapping on both axes, and reports whether any on-pixel was turned off.

use vstd::prelude::*;

verus! {

/// Framebuffer width in pixels.
pub const WIDTH: usize = 64;

/// Framebuffer height in pixels.
pub const HEIGHT: usize = 32;

/// The framebuffer: 2048 cells, each 0 (off) or 1 (on).
pub struct Display {
    pub memory: Vec<u8>,
}

/// The framebuffer with every pixel off.
pub open spec fn all_off() -> Seq<u8> {
    Seq::new(2048, |i: int| 0u8)
}

/// Row-major cell index of the pixel at column `xj`, row `yi`.
pub open spec fn pix_index(xj: int, yi: int) -> int {
    xj + yi * 64
}

/// Whether bit `j` (MSB first) of sprite row `i` is on.
pub open spec fn sprite_bit(sprite: Seq<u8>, i: int, j: int) -> bool {
    (sprite[i] >> ((7 - j) as u8)) & 1 == 1
}

/// Cell index that sprite position `(i, j)` lands on when the sprite is
/// drawn at `(x, y)`: both axes wrap.
pub open spec fn draw_target(x: int, y: int, i: int, j: int) -> int {
    pix_index((x + j) % 64, (y + i) % 32)
}

/// Whether some on-bit of the sprite drawn at `(x, y)` lands on cell `idx`.
pub open spec fn sprite_hits(sprite: Seq<u8>, x: int, y: int, idx: int) -> bool {
    exists|i: int, j: int|
        0 <= i < sprite.len() && 0 <= j < 8 && sprite_bit(sprite, i, j)
            && #[trigger] draw_target(x, y, i, j) == idx
}

/// The framebuffer after drawing `sprite` at `(x, y)`: every cell some
/// on-bit lands on is flipped, every other cell is unchanged.
pub open spec fn draw_fb(fb: Seq<u8>, x: int, y: int, sprite: Seq<u8>) -> Seq<u8> {
    Seq::new(2048, |idx: int|
        if sprite_hits(sprite, x, y, idx) {
            fb[idx] ^ 1
        } else {
            fb[idx]
        })
}

/// Whether drawing `sprite` at `(x, y)` turns some on-pixel off: an on-bit
/// of the sprite lands on a cell that already holds 1.
pub open spec fn draw_collision(fb: Seq<u8>, x: int, y: int, sprite: Seq<u8>) -> bool {
    exists|i: int, j: int|
        0 <= i < sprite.len() && 0 <= j < 8 && sprite_bit(sprite, i, j)
            && fb[#[trigger] draw_target(x, y, i, j)] == 1
}

/// Whether some on-bit of the sprite among the positions already processed
/// (rows before `i`, and bits before `j` within row `i`) lands on cell `idx`.
spec fn sprite_hits_upto(sprite: Seq<u8>, x: int, y: int, i: int, j: int, idx: int) -> bool {
    exists|pi: int, pj: int|
        0 <= pi < sprite.len() && 0 <= pj < 8
            && (pi < i || (pi == i && pj < j))
            && sprite_bit(sprite, pi, pj)
            && #[trigger] draw_target(x, y, pi, pj) == idx
}

/// Whether some already-processed on-bit lands on a cell of `fb` holding 1.
spec fn collision_upto(fb: Seq<u8>, sprite: Seq<u8>, x: int, y: int, i: int, j: int) -> bool {
    exists|pi: int, pj: int|
        0 <= pi < sprite.len() && 0 <= pj < 8
            && (pi < i || (pi == i && pj < j))
            && sprite_bit(sprite, pi, pj)
            && fb[#[trigger] draw_target(x, y, pi, pj)] == 1
}

/// Adding the same offset to two residues below the modulus keeps them apart.
proof fn lemma_mod_shift_inj(c: int, a1: int, a2: int, m: int)
    requires
        m > 0,
        0 <= c,
        0 <= a1 < m,
        0 <= a2 < m,
        (c + a1) % m == (c + a2) % m,
    ensures
        a1 == a2,
{
    let s1 = c + a1;
    let s2 = c + a2;
    vstd::arithmetic::div_mod::lemma_fundamental_div_mod(s1, m);
    vstd::arithmetic::div_mod::lemma_fundamental_div_mod(s2, m);
    let q1 = s1 / m;
    let q2 = s2 / m;
    assert(a1 - a2 == m * (q1 - q2)) by (nonlinear_arith)
        requires
            s1 == m * q1 + s1 % m,
            s2 == m * q2 + s2 % m,
            s1 % m == s2 % m,
            s1 == c + a1,
            s2 == c + a2,
    ;
    assert(q1 == q2) by (nonlinear_arith)
        requires
            a1 - a2 == m * (q1 - q2),
            -m < a1 - a2 < m,
            m > 0,
    ;
}

/// Every draw target is a cell index of the framebuffer.
proof fn lemma_target_bound(x: int, y: int, i: int, j: int)
    requires
        0 <= x,
        0 <= y,
        0 <= i,
        0 <= j,
    ensures
        0 <= draw_target(x, y, i, j) < 2048,
{
    vstd::arithmetic::div_mod::lemma_mod_bound(x + j, 64);
    vstd::arithmetic::div_mod::lemma_mod_bound(y + i, 32);
}

/// Distinct sprite positions land on distinct cells: the row offsets stay
/// below the screen height and the bit offsets below 8, so neither axis
/// wraps onto itself.
proof fn lemma_target_inj(x: int, y: int, i1: int, j1: int, i2: int, j2: int)
    requires
        0 <= x,
        0 <= y,
        0 <= i1 < 32,
        0 <= i2 < 32,
        0 <= j1 < 8,
        0 <= j2 < 8,
        draw_target(x, y, i1, j1) == draw_target(x, y, i2, j2),
    ensures
        i1 == i2,
        j1 == j2,
{
    let xj1 = (x + j1) % 64;
    let yi1 = (y + i1) % 32;
    let xj2 = (x + j2) % 64;
    let yi2 = (y + i2) % 32;
    vstd::arithmetic::div_mod::lemma_mod_bound(x + j1, 64);
    vstd::arithmetic::div_mod::lemma_mod_bound(y + i1, 32);
    vstd::arithmetic::div_mod::lemma_mod_bound(x + j2, 64);
    vstd::arithmetic::div_mod::lemma_mod_bound(y + i2, 32);
    assert(xj1 == xj2 && yi1 == yi2) by (nonlinear_arith)
        requires
            0 <= xj1 < 64,
            0 <= xj2 < 64,
            0 <= yi1 < 32,
            0 <= yi2 < 32,
            xj1 + yi1 * 64 == xj2 + yi2 * 64,
    ;
    lemma_mod_shift_inj(x, j1, j2, 64);
    lemma_mod_shift_inj(y, i1, i2, 32);
}

/// The cell that position `(i, j)` lands on is untouched by the positions
/// processed before it.
proof fn lemma_target_fresh(sprite: Seq<u8>, x: int, y: int, i: int, j: int)
    requires
        0 <= x,
        0 <= y,
        sprite.len() <= 32,
        0 <= i < sprite.len(),
        0 <= j < 8,
    ensures
        !sprite_hits_upto(sprite, x, y, i, j, draw_target(x, y, i, j)),
{
    let t = draw_target(x, y, i, j);
    if sprite_hits_upto(sprite, x, y, i, j, t) {
        let (pi, pj) = choose|pi: int, pj: int|
            0 <= pi < sprite.len() && 0 <= pj < 8
                && (pi < i || (pi == i && pj < j))
                && sprite_bit(sprite, pi, pj)
                && #[trigger] draw_target(x, y, pi, pj) == t;
        lemma_target_inj(x, y, pi, pj, i, j);
    }
}

/// Processing one more bit extends the hit set by at most that bit's target.
proof fn lemma_hits_upto_step(sprite: Seq<u8>, x: int, y: int, i: int, j: int, idx: int)
    requires
        0 <= i < sprite.len(),
        0 <= j < 8,
    ensures
        sprite_hits_upto(sprite, x, y, i, j + 1, idx) == (sprite_hits_upto(sprite, x, y, i, j, idx)
            || (sprite_bit(sprite, i, j) && draw_target(x, y, i, j) == idx)),
{
    if sprite_hits_upto(sprite, x, y, i, j + 1, idx) {
        let (pi, pj) = choose|pi: int, pj: int|
            0 <= pi < sprite.len() && 0 <= pj < 8
                && (pi < i || (pi == i && pj < j + 1))
                && sprite_bit(sprite, pi, pj)
                && #[trigger] draw_target(x, y, pi, pj) == idx;
        if !(pi == i && pj == j) {
            assert(0 <= pi < sprite.len() && 0 <= pj < 8 && (pi < i || (pi == i && pj < j))
                && sprite_bit(sprite, pi, pj) && draw_target(x, y, pi, pj) == idx);
        }
    }
    if sprite_hits_upto(sprite, x, y, i, j, idx) {
        let (pi, pj) = choose|pi: int, pj: int|
            0 <= pi < sprite.len() && 0 <= pj < 8
                && (pi < i || (pi == i && pj < j))
                && sprite_bit(sprite, pi, pj)
                && #[trigger] draw_target(x, y, pi, pj) == idx;
        assert(0 <= pi < sprite.len() && 0 <= pj < 8 && (pi < i || (pi == i && pj < j + 1))
            && sprite_bit(sprite, pi, pj) && draw_target(x, y, pi, pj) == idx);
    }
    if sprite_bit(sprite, i, j) && draw_target(x, y, i, j) == idx {
        assert(0 <= i < sprite.len() && 0 <= j < 8 && (i < i || (i == i && j < j + 1))
            && sprite_bit(sprite, i, j) && draw_target(x, y, i, j) == idx);
    }
}

/// Likewise for the collision flag.
proof fn lemma_collision_upto_step(fb: Seq<u8>, sprite: Seq<u8>, x: int, y: int, i: int, j: int)
    requires
        0 <= i < sprite.len(),
        0 <= j < 8,
    ensures
        collision_upto(fb, sprite, x, y, i, j + 1) == (collision_upto(fb, sprite, x, y, i, j)
            || (sprite_bit(sprite, i, j) && fb[draw_target(x, y, i, j)] == 1)),
{
    if collision_upto(fb, sprite, x, y, i, j + 1) {
        let (pi, pj) = choose|pi: int, pj: int|
            0 <= pi < sprite.len() && 0 <= pj < 8
                && (pi < i || (pi == i && pj < j + 1))
                && sprite_bit(sprite, pi, pj)
                && fb[#[trigger] draw_target(x, y, pi, pj)] == 1;
        if !(pi == i && pj == j) {
            assert(0 <= pi < sprite.len() && 0 <= pj < 8 && (pi < i || (pi == i && pj < j))
                && sprite_bit(sprite, pi, pj) && fb[draw_target(x, y, pi, pj)] == 1);
        }
    }
    if collision_upto(fb, sprite, x, y, i, j) {
        let (pi, pj) = choose|pi: int, pj: int|
            0 <= pi < sprite.len() && 0 <= pj < 8
                && (pi < i || (pi == i && pj < j))
                && sprite_bit(sprite, pi, pj)
                && fb[#[trigger] draw_target(x, y, pi, pj)] == 1;
        assert(0 <= pi < sprite.len() && 0 <= pj < 8 && (pi < i || (pi == i && pj < j + 1))
            && sprite_bit(sprite, pi, pj) && fb[draw_target(x, y, pi, pj)] == 1);
    }
    if sprite_bit(sprite, i, j) && fb[draw_target(x, y, i, j)] == 1 {
        assert(0 <= i < sprite.len() && 0 <= j < 8 && (i < i || (i == i && j < j + 1))
            && sprite_bit(sprite, i, j) && fb[draw_target(x, y, i, j)] == 1);
    }
}

/// Finishing a row is the same prefix as starting the next one.
proof fn lemma_upto_row(fb: Seq<u8>, sprite: Seq<u8>, x: int, y: int, i: int, idx: int)
    ensures
        sprite_hits_upto(sprite, x, y, i, 8, idx) == sprite_hits_upto(sprite, x, y, i + 1, 0, idx),
        collision_upto(fb, sprite, x, y, i, 8) == collision_upto(fb, sprite, x, y, i + 1, 0),
{
    if sprite_hits_upto(sprite, x, y, i, 8, idx) {
        let (pi, pj) = choose|pi: int, pj: int|
            0 <= pi < sprite.len() && 0 <= pj < 8
                && (pi < i || (pi == i && pj < 8))
                && sprite_bit(sprite, pi, pj)
                && #[trigger] draw_target(x, y, pi, pj) == idx;
        assert(0 <= pi < sprite.len() && 0 <= pj < 8 && (pi < i + 1 || (pi == i + 1 && pj < 0))
            && sprite_bit(sprite, pi, pj) && draw_target(x, y, pi, pj) == idx);
    }
    if sprite_hits_upto(sprite, x, y, i + 1, 0, idx) {
        let (pi, pj) = choose|pi: int, pj: int|
            0 <= pi < sprite.len() && 0 <= pj < 8
                && (pi < i + 1 || (pi == i + 1 && pj < 0))
                && sprite_bit(sprite, pi, pj)
                && #[trigger] draw_target(x, y, pi, pj) == idx;
        assert(0 <= pi < sprite.len() && 0 <= pj < 8 && (pi < i || (pi == i && pj < 8))
            && sprite_bit(sprite, pi, pj) && draw_target(x, y, pi, pj) == idx);
    }
    if collision_upto(fb, sprite, x, y, i, 8) {
        let (pi, pj) = choose|pi: int, pj: int|
            0 <= pi < sprite.len() && 0 <= pj < 8
                && (pi < i || (pi == i && pj < 8))
                && sprite_bit(sprite, pi, pj)
                && fb[#[trigger] draw_target(x, y, pi, pj)] == 1;
        assert(0 <= pi < sprite.len() && 0 <= pj < 8 && (pi < i + 1 || (pi == i + 1 && pj < 0))
            && sprite_bit(sprite, pi, pj) && fb[draw_target(x, y, pi, pj)] == 1);
    }
    if collision_upto(fb, sprite, x, y, i + 1, 0) {
        let (pi, pj) = choose|pi: int, pj: int|
            0 <= pi < sprite.len() && 0 <= pj < 8
                && (pi < i + 1 || (pi == i + 1 && pj < 0))
                && sprite_bit(sprite, pi, pj)
                && fb[#[trigger] draw_target(x, y, pi, pj)] == 1;
        assert(0 <= pi < sprite.len() && 0 <= pj < 8 && (pi < i || (pi == i && pj < 8))
            && sprite_bit(sprite, pi, pj) && fb[draw_target(x, y, pi, pj)] == 1);
    }
}

/// The full prefix is the whole sprite.
proof fn lemma_upto_full(fb: Seq<u8>, sprite: Seq<u8>, x: int, y: int, idx: int)
    ensures
        sprite_hits_upto(sprite, x, y, sprite.len() as int, 0, idx) == sprite_hits(sprite, x, y, idx),
        collision_upto(fb, sprite, x, y, sprite.len() as int, 0) == draw_collision(fb, x, y, sprite),
{
    let n = sprite.len() as int;
    if sprite_hits_upto(sprite, x, y, n, 0, idx) {
        let (pi, pj) = choose|pi: int, pj: int|
            0 <= pi < sprite.len() && 0 <= pj < 8
                && (pi < n || (pi == n && pj < 0))
                && sprite_bit(sprite, pi, pj)
                && #[trigger] draw_target(x, y, pi, pj) == idx;
        assert(0 <= pi < sprite.len() && 0 <= pj < 8 && sprite_bit(sprite, pi, pj)
            && draw_target(x, y, pi, pj) == idx);
    }
    if sprite_hits(sprite, x, y, idx) {
        let (pi, pj) = choose|pi: int, pj: int|
            0 <= pi < sprite.len() && 0 <= pj < 8 && sprite_bit(sprite, pi, pj)
                && #[trigger] draw_target(x, y, pi, pj) == idx;
        assert(0 <= pi < sprite.len() && 0 <= pj < 8 && (pi < n || (pi == n && pj < 0))
            && sprite_bit(sprite, pi, pj) && draw_target(x, y, pi, pj) == idx);
    }
    if collision_upto(fb, sprite, x, y, n, 0) {
        let (pi, pj) = choose|pi: int, pj: int|
            0 <= pi < sprite.len() && 0 <= pj < 8
                && (pi < n || (pi == n && pj < 0))
                && sprite_bit(sprite, pi, pj)
                && fb[#[trigger] draw_target(x, y, pi, pj)] == 1;
        assert(0 <= pi < sprite.len() && 0 <= pj < 8 && sprite_bit(sprite, pi, pj)
            && fb[draw_target(x, y, pi, pj)] == 1);
    }
    if draw_collision(fb, x, y, sprite) {
        let (pi, pj) = choose|pi: int, pj: int|
            0 <= pi < sprite.len() && 0 <= pj < 8 && sprite_bit(sprite, pi, pj)
                && fb[#[trigger] draw_target(x, y, pi, pj)] == 1;
        assert(0 <= pi < sprite.len() && 0 <= pj < 8 && (pi < n || (pi == n && pj < 0))
            && sprite_bit(sprite, pi, pj) && fb[draw_target(x, y, pi, pj)] == 1);
    }
}

impl Display {
    /// Every cell exists and holds 0 or 1.
    pub open spec fn wf(&self) -> bool {
        &&& self.memory@.len() == 2048
        &&& forall|i: int| 0 <= i < 2048 ==> #[trigger] self.memory@[i] <= 1
    }

    /// The framebuffer contents as a sequence of cells.
    pub open spec fn pixels(&self) -> Seq<u8> {
        self.memory@
    }

    pub fn new() -> (d: Display)
        ensures
            d.wf(),
            d.pixels() == all_off(),
    {
        let mut memory: Vec<u8> = Vec::new();
        while memory.len() < 2048
            invariant
                memory@.len() <= 2048,
                forall|i: int| 0 <= i < memory@.len() ==> #[trigger] memory@[i] == 0,
            decreases 2048 - memory@.len(),
        {
            memory.push(0);
        }
        proof {
            assert(memory@ =~= all_off());
        }
        Display { memory }
    }

    pub fn set_pixel(&mut self, x: usize, y: usize, on: bool)
        requires
            old(self).wf(),
            x < 64,
            y < 32,
        ensures
            final(self).wf(),
            final(self).pixels() == old(self).pixels().update(pix_index(x as int, y as int), on as u8),
    {
        self.memory.set(x + y * WIDTH, if on { 1 } else { 0 });
    }

    pub fn get_pixel(&self, x: usize, y: usize) -> (on: bool)
        requires
            self.wf(),
            x < 64,
            y < 32,
        ensures
            on == (self.pixels()[pix_index(x as int, y as int)] == 1),
    {
        self.memory[x + y * WIDTH] == 1
    }

    /// XOR-draw `sprite` at `(x, y)`, wrapping on both axes, and report
    /// whether any on-pixel was turned off.
    pub fn draw(&mut self, x: usize, y: usize, sprite: &Vec<u8>) -> (collision: bool)
        requires
            old(self).wf(),
            sprite@.len() <= 15,
            x <= usize::MAX - 7,
            y <= usize::MAX - 14,
        ensures
            final(self).wf(),
            final(self).pixels() == draw_fb(old(self).pixels(), x as int, y as int, sprite@),
            collision == draw_collision(old(self).pixels(), x as int, y as int, sprite@),
    {
        let ghost fb0 = self.memory@;
        let ghost xs = x as int;
        let ghost ys = y as int;
        let rows = sprite.len();
        let mut collision = false;
        let mut i: usize = 0;
        while i < rows
            invariant
                self.memory@.len() == 2048,
                fb0.len() == 2048,
                forall|p: int| 0 <= p < 2048 ==> #[trigger] fb0[p] <= 1,
                forall|p: int| 0 <= p < 2048 ==> #[trigger] self.memory@[p] <= 1,
                rows == sprite@.len(),
                rows <= 15,
                i <= rows,
                x <= usize::MAX - 7,
                y <= usize::MAX - 14,
                xs == x as int,
                ys == y as int,
                forall|p: int| 0 <= p < 2048 ==> #[trigger] self.memory@[p] == (
                    if sprite_hits_upto(sprite@, xs, ys, i as int, 0, p) {
                        fb0[p] ^ 1
                    } else {
                        fb0[p]
                    }),
                collision == collision_upto(fb0, sprite@, xs, ys, i as int, 0),
            decreases rows - i,
        {
            let row = sprite[i];
            let mut j: usize = 0;
            while j < 8
                invariant
                    self.memory@.len() == 2048,
                    fb0.len() == 2048,
                    forall|p: int| 0 <= p < 2048 ==> #[trigger] fb0[p] <= 1,
                    forall|p: int| 0 <= p < 2048 ==> #[trigger] self.memory@[p] <= 1,
                    rows == sprite@.len(),
                    rows <= 15,
                    i < rows,
                    j <= 8,
                    x <= usize::MAX - 7,
                    y <= usize::MAX - 14,
                    xs == x as int,
                    ys == y as int,
                    row == sprite@[i as int],
                    forall|p: int| 0 <= p < 2048 ==> #[trigger] self.memory@[p] == (
                        if sprite_hits_upto(sprite@, xs, ys, i as int, j as int, p) {
                            fb0[p] ^ 1
                        } else {
                            fb0[p]
                        }),
                    collision == collision_upto(fb0, sprite@, xs, ys, i as int, j as int),
                decreases 8 - j,
            {
                let sh: u8 = (7 - j) as u8;
                let bit: u8 = (row >> sh) & 1;
                proof {
                    assert(sh == (7 - (j as int)) as u8);
                    assert(sprite_bit(sprite@, i as int, j as int) == (bit == 1));
                }
                if bit == 1 {
                    let xj = (x + j) % WIDTH;
                    let yi = (y + i) % HEIGHT;
                    let ghost t = draw_target(xs, ys, i as int, j as int);
                    proof {
                        lemma_target_bound(xs, ys, i as int, j as int);
                        assert(xj as int == (xs + j as int) % 64);
                        assert(yi as int == (ys + i as int) % 32);
                        assert(pix_index(xj as int, yi as int) == t);
                        lemma_target_fresh(sprite@, xs, ys, i as int, j as int);
                        assert(self.memory@[t] == fb0[t]);
                    }
                    let old_value = self.get_pixel(xj, yi);
                    if old_value {
                        collision = true;
                    }
                    self.set_pixel(xj, yi, !old_value);
                    proof {
                        let v = fb0[t];
                        assert(v <= 1 ==> (((v == 1) == false ==> v ^ 1 == 1) && ((v == 1) == true ==> v ^ 1 == 0)))
                            by (bit_vector);
                        assert(self.memory@[t] == fb0[t] ^ 1);
                        assert forall|p: int| 0 <= p < 2048 implies #[trigger] self.memory@[p] == (
                            if sprite_hits_upto(sprite@, xs, ys, i as int, j as int + 1, p) {
                                fb0[p] ^ 1
                            } else {
                                fb0[p]
                            }) by {
                            lemma_hits_upto_step(sprite@, xs, ys, i as int, j as int, p);
                        };
                        lemma_collision_upto_step(fb0, sprite@, xs, ys, i as int, j as int);
                        assert((fb0[t] == 1) == old_value);
                    }
                } else {
                    proof {
                        assert forall|p: int| 0 <= p < 2048 implies #[trigger] self.memory@[p] == (
                            if sprite_hits_upto(sprite@, xs, ys, i as int, j as int + 1, p) {
                                fb0[p] ^ 1
                            } else {
                                fb0[p]
                            }) by {
                            lemma_hits_upto_step(sprite@, xs, ys, i as int, j as int, p);
                        };
                        lemma_collision_upto_step(fb0, sprite@, xs, ys, i as int, j as int);
                    }
                }
                j = j + 1;
            }
            proof {
                assert forall|p: int| 0 <= p < 2048 implies #[trigger] self.memory@[p] == (
                    if sprite_hits_upto(sprite@, xs, ys, i as int + 1, 0, p) {
                        fb0[p] ^ 1
                    } else {
                        fb0[p]
                    }) by {
                    lemma_upto_row(fb0, sprite@, xs, ys, i as int, p);
                };
                lemma_upto_row(fb0, sprite@, xs, ys, i as int, 0);
            }
            i = i + 1;
        }
        proof {
            assert forall|p: int| 0 <= p < 2048 implies #[trigger] self.memory@[p] == (
                if sprite_hits(sprite@, xs, ys, p) {
                    fb0[p] ^ 1
                } else {
                    fb0[p]
                }) by {
                lemma_upto_full(fb0, sprite@, xs, ys, p);
            };
            lemma_upto_full(fb0, sprite@, xs, ys, 0);
            assert(self.memory@ =~= draw_fb(fb0, xs, ys, sprite@));
            assert forall|p: int| 0 <= p < 2048 implies #[trigger] self.memory@[p] <= 1 by {
                let v = fb0[p];
                assert(v <= 1 ==> v ^ 1 <= 1) by (bit_vector);
            };
        }
        collision
    }

    pub fn cls(&mut self)
        requires
            old(self).wf(),
        ensures
            final(self).wf(),
            final(self).pixels() == all_off(),
    {
        let mut k: usize = 0;
        while k < 2048
            invariant
                self.memory@.len() == 2048,
                k <= 2048,
                forall|i: int| 0 <= i < k ==> #[trigger] self.memory@[i] == 0,
                forall|i: int| 0 <= i < 2048 ==> #[trigger] self.memory@[i] <= 1,
            decreases 2048 - k,
        {
            self.memory.set(k, 0);
            k = k + 1;
        }
        proof {
            assert(self.memory@ =~= all_off());
        }
    }
}

/// The font sprite table: 16 glyphs of 5 rows each, for digits 0..F.
pub open spec fn font_seq() -> Seq<u8> {
    seq![
        0xF0u8, 0x90, 0x90, 0x90, 0xF0, // 0
        0x20, 0x60, 0x20, 0x20, 0x70, // 1
        0xF0, 0x10, 0xF0, 0x80, 0xF0, // 2
        0xF0, 0x10, 0xF0, 0x10, 0xF0, // 3
        0x90, 0x90, 0xF0, 0x10, 0x10, // 4
        0xF0, 0x80, 0xF0, 0x10, 0xF0, // 5
        0xF0, 0x80, 0xF0, 0x90, 0xF0, // 6
        0xF0, 0x10, 0x20, 0x40, 0x40, // 7
        0xF0, 0x90, 0xF0, 0x90, 0xF0, // 8
        0xF0, 0x90, 0xF0, 0x10, 0xF0, // 9
        0xF0, 0x90, 0xF0, 0x90, 0x90, // A
        0xE0, 0x90, 0xE0, 0x90, 0xE0, // B
        0xF0, 0x80, 0x80, 0x80, 0xF0, // C
        0xE0, 0x90, 0x90, 0x90, 0xE0, // D
        0xF0, 0x80, 0xF0, 0x80, 0xF0, // E
        0xF0, 0x80, 0xF0, 0x80, 0x80, // F
    ]
}

/// The font sprite table as bytes.
pub fn font_set() -> (font: Vec<u8>)
    ensures
        font@ == font_seq(),
{
    let font: Vec<u8> = vec![
        0xF0, 0x90, 0x90, 0x90, 0xF0, // 0
        0x20, 0x60, 0x20, 0x20, 0x70, // 1
        0xF0, 0x10, 0xF0, 0x80, 0xF0, // 2
        0xF0, 0x10, 0xF0, 0x10, 0xF0, // 3
        0x90, 0x90, 0xF0, 0x10, 0x10, // 4
        0xF0, 0x80, 0xF0, 0x10, 0xF0, // 5
        0xF0, 0x80, 0xF0, 0x90, 0xF0, // 6
        0xF0, 0x10, 0x20, 0x40, 0x40, // 7
        0xF0, 0x90, 0xF0, 0x90, 0xF0, // 8
        0xF0, 0x90, 0xF0, 0x10, 0xF0, // 9
        0xF0, 0x90, 0xF0, 0x90, 0x90, // A
        0xE0, 0x90, 0xE0, 0x90, 0xE0, // B
        0xF0, 0x80, 0x80, 0x80, 0xF0, // C
        0xE0, 0x90, 0x90, 0x90, 0xE0, // D
        0xF0, 0x80, 0xF0, 0x80, 0xF0, // E
        0xF0, 0x80, 0xF0, 0x80, 0x80, // F
    ];
    proof {
        assert(font@ =~= font_seq());
    }
    font
}

/// Drawing the same sprite twice at the same coordinates restores the
/// framebuffer to its pre-draw state.
pub proof fn lemma_draw_twice_restores(fb: Seq<u8>, x: int, y: int, sprite: Seq<u8>)
    requires
        fb.len() == 2048,
    ensures
        draw_fb(draw_fb(fb, x, y, sprite), x, y, sprite) == fb,
{
    let fb1 = draw_fb(fb, x, y, sprite);
    assert forall|p: int| 0 <= p < 2048 implies draw_fb(fb1, x, y, sprite)[p] == fb[p] by {
        if sprite_hits(sprite, x, y, p) {
            let v = fb[p];
            assert((v ^ 1) ^ 1 == v) by (bit_vector);
        }
    };
    assert(draw_fb(fb1, x, y, sprite) =~= fb);
}

/// The second of two identical draws reports a collision exactly when some
/// on-bit of the sprite lands on a pixel that was off before the first draw
/// (the first draw turned exactly those pixels on).
pub proof fn lemma_second_draw_collision(fb: Seq<u8>, x: int, y: int, sprite: Seq<u8>)
    requires
        fb.len() == 2048,
        forall|p: int| 0 <= p < 2048 ==> #[trigger] fb[p] <= 1,
        0 <= x,
        0 <= y,
    ensures
        draw_collision(draw_fb(fb, x, y, sprite), x, y, sprite) == (exists|i: int, j: int|
            0 <= i < sprite.len() && 0 <= j < 8 && sprite_bit(sprite, i, j)
                && fb[#[trigger] draw_target(x, y, i, j)] == 0),
{
    let fb1 = draw_fb(fb, x, y, sprite);
    assert forall|i: int, j: int|
        0 <= i < sprite.len() && 0 <= j < 8 && sprite_bit(sprite, i, j) implies
        (fb1[#[trigger] draw_target(x, y, i, j)] == 1) == (fb[draw_target(x, y, i, j)] == 0) by {
        let t = draw_target(x, y, i, j);
        lemma_target_bound(x, y, i, j);
        assert(0 <= i < sprite.len() && 0 <= j < 8 && sprite_bit(sprite, i, j)
            && draw_target(x, y, i, j) == t);
        assert(sprite_hits(sprite, x, y, t));
        let v = fb[t];
        assert(v <= 1 ==> ((v ^ 1 == 1) == (v == 0))) by (bit_vector);
    };
    if draw_collision(fb1, x, y, sprite) {
        let (i, j) = choose|i: int, j: int|
            0 <= i < sprite.len() && 0 <= j < 8 && sprite_bit(sprite, i, j)
                && fb1[#[trigger] draw_target(x, y, i, j)] == 1;
        assert(0 <= i < sprite.len() && 0 <= j < 8 && sprite_bit(sprite, i, j)
            && fb[draw_target(x, y, i, j)] == 0);
    }
    if exists|i: int, j: int|
        0 <= i < sprite.len() && 0 <= j < 8 && sprite_bit(sprite, i, j)
            && fb[#[trigger] draw_target(x, y, i, j)] == 0 {
        let (i, j) = choose|i: int, j: int|
            0 <= i < sprite.len() && 0 <= j < 8 && sprite_bit(sprite, i, j)
                && fb[#[trigger] draw_target(x, y, i, j)] == 0;
        assert(0 <= i < sprite.len() && 0 <= j < 8 && sprite_bit(sprite, i, j)
            && fb1[draw_target(x, y, i, j)] == 1);
    }
}

/// On framebuffers where the sprite's on-bits cover a lit pixel exactly when
/// they also cover an unlit one, the second of two identical draws reports a
/// collision exactly when the first did.
pub proof fn lemma_second_draw_collision_matches_first(fb: Seq<u8>, x: int, y: int, sprite: Seq<u8>)
    requires
        fb.len() == 2048,
        forall|p: int| 0 <= p < 2048 ==> #[trigger] fb[p] <= 1,
        0 <= x,
        0 <= y,
        draw_collision(fb, x, y, sprite) <==> (exists|i: int, j: int|
            0 <= i < sprite.len() && 0 <= j < 8 && sprite_bit(sprite, i, j)
                && fb[#[trigger] draw_target(x, y, i, j)] == 0),
    ensures
        draw_collision(draw_fb(fb, x, y, sprite), x, y, sprite) == draw_collision(fb, x, y, sprite),
{
    lemma_second_draw_collision(fb, x, y, sprite);
}

} // verus!
