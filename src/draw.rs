use vstd::prelude::*;
use vstd::arithmetic::div_mod::lemma_fundamental_div_mod_converse;

use crate::renderer::{pixel_index, COLS, PIXELS, ROWS};

verus! {

/// Whether column `col` (0 = leftmost) of sprite row `b` is set: bits are
/// read most significant first.
pub open spec fn sprite_bit(b: u8, col: int) -> bool {
    (b >> ((7 - col) as u8)) & 1u8 == 1u8
}

/// Sprite row that pixel `p` falls in when the sprite's corner is at `(vx, vy)`,
/// counted with wraparound.
pub open spec fn sprite_row(vy: int, p: int) -> int {
    (p / (COLS as int) - vy) % (ROWS as int)
}

/// Sprite column that pixel `p` falls in when the sprite's corner is at
/// `(vx, vy)`, counted with wraparound.
pub open spec fn sprite_col(vx: int, p: int) -> int {
    (p % (COLS as int) - vx) % (COLS as int)
}

/// Whether drawing the `n`-row sprite stored at `mem[i..i + n]` with its
/// corner at `(vx, vy)` flips pixel `p`.
pub open spec fn sprite_covers(mem: Seq<u8>, i: int, n: int, vx: int, vy: int, p: int) -> bool {
    let row = sprite_row(vy, p);
    let col = sprite_col(vx, p);
    row < n && col < 8 && sprite_bit(mem[i + row], col)
}

/// The pixels after the sprite is XOR-ed onto `disp`.
pub open spec fn drawn(disp: Seq<bool>, mem: Seq<u8>, i: int, n: int, vx: int, vy: int) -> Seq<
    bool,
> {
    Seq::new(disp.len(), |p: int| disp[p] != sprite_covers(mem, i, n, vx, vy, p))
}

/// Whether the sprite turns some lit pixel of `disp` dark.
pub open spec fn collides(disp: Seq<bool>, mem: Seq<u8>, i: int, n: int, vx: int, vy: int) -> bool {
    exists|p: int| 0 <= p < disp.len() && #[trigger] sprite_covers(mem, i, n, vx, vy, p) && disp[p]
}

/// Whether pixel `p` is flipped by one of the sprite cells that come before
/// cell `(row, col)` in row-major order.
pub open spec fn covered_before(
    mem: Seq<u8>,
    i: int,
    n: int,
    vx: int,
    vy: int,
    p: int,
    row: int,
    col: int,
) -> bool {
    &&& sprite_covers(mem, i, n, vx, vy, p)
    &&& (sprite_row(vy, p) < row || (sprite_row(vy, p) == row && sprite_col(vx, p) < col))
}

/// The pixel that sprite cell `(row, col)` lands on is the only pixel whose
/// sprite row and column are `(row, col)`.
pub proof fn lemma_cell_pixel(vx: int, vy: int, row: int, col: int)
    requires
        0 <= vx,
        0 <= vy,
        0 <= row < ROWS,
        0 <= col < COLS,
    ensures
        0 <= pixel_index(vx + col, vy + row) < PIXELS,
        sprite_row(vy, pixel_index(vx + col, vy + row)) == row,
        sprite_col(vx, pixel_index(vx + col, vy + row)) == col,
        forall|p: int|
            0 <= p < PIXELS && sprite_row(vy, p) == row && sprite_col(vx, p) == col ==> p
                == pixel_index(vx + col, vy + row),
{
    let py = (vy + row) % 32;
    let px = (vx + col) % 64;
    let t = pixel_index(vx + col, vy + row);
    lemma_fundamental_div_mod_converse(t, 64, py, px);
    assert((py - vy) % 32 == row) by (nonlinear_arith)
        requires
            py == (vy + row) % 32,
            0 <= row < 32,
    ;
    assert((px - vx) % 64 == col) by (nonlinear_arith)
        requires
            px == (vx + col) % 64,
            0 <= col < 64,
    ;
    assert forall|p: int|
        0 <= p < PIXELS && sprite_row(vy, p) == row && sprite_col(vx, p) == col implies p == t by {
        let qy = p / 64;
        let qx = p % 64;
        assert(p == qy * 64 + qx) by (nonlinear_arith)
            requires
                qy == p / 64,
                qx == p % 64,
        ;
        assert(0 <= qy < 32 && 0 <= qx < 64) by (nonlinear_arith)
            requires
                0 <= p < 2048,
                qy == p / 64,
                qx == p % 64,
        ;
        assert(qy == py) by (nonlinear_arith)
            requires
                (qy - vy) % 32 == row,
                py == (vy + row) % 32,
                0 <= qy < 32,
        ;
        assert(qx == px) by (nonlinear_arith)
            requires
                (qx - vx) % 64 == col,
                px == (vx + col) % 64,
                0 <= qx < 64,
        ;
    }
}

} // verus!
