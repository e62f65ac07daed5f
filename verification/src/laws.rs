//! General facts about the machine model that relate several operations:
//! sprite drawing is its own inverse, and a subroutine call followed by
//! the matching return resumes right after the call.

use vstd::prelude::*;

use crate::decode::Instr;
use crate::semantics::{
    draw_rec, draw_row_rec, instr_fault, instr_post, row_bit, Chip8View, DISPLAY_HEIGHT,
    DISPLAY_WIDTH,
};
use crate::stack::STACK_CAPACITY;

verus! {

/// Whether drawing the bits `col..8` of sprite row byte `b` onto display
/// row `cy` starting at column `x` toggles display cell `i`.
pub open spec fn row_touched(b: u8, x: u8, cy: u8, col: u8, i: int) -> bool {
    exists|c: u8|
        col <= c < 8 && x + c < DISPLAY_WIDTH && #[trigger] row_bit(b, c) && i == cy * DISPLAY_WIDTH
            + x + c
}

/// Whether drawing sprite rows `row..n`, read from memory at `base`, with
/// origin `(x, y)`, toggles display cell `i`.
pub open spec fn sprite_touched(
    ram: Seq<u8>,
    base: u16,
    x: u8,
    y: u8,
    n: u8,
    row: u8,
    i: int,
) -> bool {
    exists|r: u8, c: u8|
        row <= r < n && y + r < DISPLAY_HEIGHT && c < 8 && x + c < DISPLAY_WIDTH
            && #[trigger] row_bit(ram[base + r], c) && i == (y + r) * DISPLAY_WIDTH + x + c
}

/// Whether drawing sprite rows `row..n` onto display `d` finds some cell
/// it toggles already set.
pub open spec fn sprite_hits(
    d: Seq<bool>,
    ram: Seq<u8>,
    base: u16,
    x: u8,
    y: u8,
    n: u8,
    row: u8,
) -> bool {
    exists|r: u8, c: u8|
        row <= r < n && y + r < DISPLAY_HEIGHT && c < 8 && x + c < DISPLAY_WIDTH
            && #[trigger] row_bit(ram[base + r], c) && d[(y + r) * DISPLAY_WIDTH + x + c]
}

/// What drawing one sprite row does, cell by cell: a cell under a set,
/// unclipped sprite bit is toggled, every other cell keeps its value; the
/// collision result says whether some toggled cell was already set.
pub proof fn lemma_draw_row_char(d: Seq<bool>, b: u8, x: u8, cy: u8, col: u8)
    requires
        d.len() == DISPLAY_WIDTH * DISPLAY_HEIGHT,
        x < DISPLAY_WIDTH,
        cy < DISPLAY_HEIGHT,
        col <= 8,
    ensures
        draw_row_rec(d, b, x, cy, col).0.len() == d.len(),
        forall|i: int|
            0 <= i < d.len() ==> draw_row_rec(d, b, x, cy, col).0[i] == (if row_touched(
                b,
                x,
                cy,
                col,
                i,
            ) {
                !d[i]
            } else {
                d[i]
            }),
        draw_row_rec(d, b, x, cy, col).1 == exists|c: u8|
            col <= c < 8 && x + c < DISPLAY_WIDTH && #[trigger] row_bit(b, c) && d[cy
                * DISPLAY_WIDTH + x + c],
    decreases 8 - col,
{
    let res = draw_row_rec(d, b, x, cy, col);
    if col >= 8 || x + col >= DISPLAY_WIDTH {
        assert forall|i: int| 0 <= i < d.len() implies res.0[i] == (if row_touched(
            b,
            x,
            cy,
            col,
            i,
        ) {
            !d[i]
        } else {
            d[i]
        }) by {
            if row_touched(b, x, cy, col, i) {
                let c = choose|c: u8|
                    col <= c < 8 && x + c < DISPLAY_WIDTH && #[trigger] row_bit(b, c) && i == cy
                        * DISPLAY_WIDTH + x + c;
                assert(x + c >= x + col);
                assert(false);
            }
        }
        if exists|c: u8|
            col <= c < 8 && x + c < DISPLAY_WIDTH && #[trigger] row_bit(b, c) && d[cy
                * DISPLAY_WIDTH + x + c] {
            let c = choose|c: u8|
                col <= c < 8 && x + c < DISPLAY_WIDTH && #[trigger] row_bit(b, c) && d[cy
                    * DISPLAY_WIDTH + x + c];
            assert(false);
        }
    } else {
        let idx = cy * DISPLAY_WIDTH + x + col;
        let bit = row_bit(b, col);
        let hit = bit && d[idx];
        let d1 = if bit {
            d.update(idx, !d[idx])
        } else {
            d
        };
        let next = (col + 1) as u8;
        lemma_draw_row_char(d1, b, x, cy, next);
        let rest = draw_row_rec(d1, b, x, cy, next);
        assert(res.0 == rest.0);
        assert(res.1 == (hit || rest.1));

        assert forall|i: int| 0 <= i < d.len() implies res.0[i] == (if row_touched(
            b,
            x,
            cy,
            col,
            i,
        ) {
            !d[i]
        } else {
            d[i]
        }) by {
            if i == idx {
                if row_touched(b, x, cy, next, i) {
                    let c = choose|c: u8|
                        next <= c < 8 && x + c < DISPLAY_WIDTH && #[trigger] row_bit(b, c) && i == cy
                            * DISPLAY_WIDTH + x + c;
                    assert(c == col);
                    assert(false);
                }
                assert(rest.0[i] == d1[i]);
                if bit {
                    assert(row_bit(b, col) && col <= col < 8 && x + col < DISPLAY_WIDTH && idx == cy
                        * DISPLAY_WIDTH + x + col);
                    assert(row_touched(b, x, cy, col, i));
                    assert(res.0[i] == !d[i]);
                } else {
                    if row_touched(b, x, cy, col, i) {
                        let c = choose|c: u8|
                            col <= c < 8 && x + c < DISPLAY_WIDTH && #[trigger] row_bit(b, c) && i
                                == cy * DISPLAY_WIDTH + x + c;
                        assert(c == col);
                        assert(false);
                    }
                    assert(res.0[i] == d[i]);
                }
            } else {
                assert(d1[i] == d[i]);
                if row_touched(b, x, cy, col, i) {
                    let c = choose|c: u8|
                        col <= c < 8 && x + c < DISPLAY_WIDTH && #[trigger] row_bit(b, c) && i == cy
                            * DISPLAY_WIDTH + x + c;
                    assert(c != col);
                    assert(next <= c);
                    assert(row_touched(b, x, cy, next, i));
                } else {
                    if row_touched(b, x, cy, next, i) {
                        let c = choose|c: u8|
                            next <= c < 8 && x + c < DISPLAY_WIDTH && #[trigger] row_bit(b, c) && i
                                == cy * DISPLAY_WIDTH + x + c;
                        assert(row_touched(b, x, cy, col, i));
                        assert(false);
                    }
                }
            }
        }

        // the collision outcome, carried from the updated display back to
        // the original one
        if res.1 {
            if hit {
                assert(row_bit(b, col) && col <= col < 8 && x + col < DISPLAY_WIDTH && d[cy
                    * DISPLAY_WIDTH + x + col]);
            } else {
                let c = choose|c: u8|
                    next <= c < 8 && x + c < DISPLAY_WIDTH && #[trigger] row_bit(b, c) && d1[cy
                        * DISPLAY_WIDTH + x + c];
                assert(cy * DISPLAY_WIDTH + x + c != idx);
                assert(d[cy * DISPLAY_WIDTH + x + c]);
            }
            assert(exists|c: u8|
                col <= c < 8 && x + c < DISPLAY_WIDTH && #[trigger] row_bit(b, c) && d[cy
                    * DISPLAY_WIDTH + x + c]);
        }
        if exists|c: u8|
            col <= c < 8 && x + c < DISPLAY_WIDTH && #[trigger] row_bit(b, c) && d[cy
                * DISPLAY_WIDTH + x + c] {
            let c = choose|c: u8|
                col <= c < 8 && x + c < DISPLAY_WIDTH && #[trigger] row_bit(b, c) && d[cy
                    * DISPLAY_WIDTH + x + c];
            if c == col {
                assert(hit);
            } else {
                assert(cy * DISPLAY_WIDTH + x + c != idx);
                assert(d1[cy * DISPLAY_WIDTH + x + c]);
                assert(rest.1);
            }
            assert(res.1);
        }
    }
}

/// What drawing a whole sprite does, cell by cell: a cell under a set,
/// unclipped sprite bit is toggled, every other cell keeps its value; the
/// collision result says whether some toggled cell was already set.
pub proof fn lemma_draw_char(
    d: Seq<bool>,
    ram: Seq<u8>,
    base: u16,
    x: u8,
    y: u8,
    n: u8,
    row: u8,
)
    requires
        d.len() == DISPLAY_WIDTH * DISPLAY_HEIGHT,
        x < DISPLAY_WIDTH,
        y < DISPLAY_HEIGHT,
        n < 16,
        row <= n,
    ensures
        draw_rec(d, ram, base, x, y, n, row).0.len() == d.len(),
        forall|i: int|
            0 <= i < d.len() ==> draw_rec(d, ram, base, x, y, n, row).0[i] == (if sprite_touched(
                ram,
                base,
                x,
                y,
                n,
                row,
                i,
            ) {
                !d[i]
            } else {
                d[i]
            }),
        draw_rec(d, ram, base, x, y, n, row).1 == sprite_hits(d, ram, base, x, y, n, row),
    decreases n - row,
{
    let res = draw_rec(d, ram, base, x, y, n, row);
    if row >= n || y + row >= DISPLAY_HEIGHT {
        assert forall|i: int| 0 <= i < d.len() implies res.0[i] == (if sprite_touched(
            ram,
            base,
            x,
            y,
            n,
            row,
            i,
        ) {
            !d[i]
        } else {
            d[i]
        }) by {
            if sprite_touched(ram, base, x, y, n, row, i) {
                let (r, c) = choose|r: u8, c: u8|
                    row <= r < n && y + r < DISPLAY_HEIGHT && c < 8 && x + c < DISPLAY_WIDTH
                        && #[trigger] row_bit(ram[base + r], c) && i == (y + r) * DISPLAY_WIDTH + x
                        + c;
                assert(false);
            }
        }
        if sprite_hits(d, ram, base, x, y, n, row) {
            let (r, c) = choose|r: u8, c: u8|
                row <= r < n && y + r < DISPLAY_HEIGHT && c < 8 && x + c < DISPLAY_WIDTH
                    && #[trigger] row_bit(ram[base + r], c) && d[(y + r) * DISPLAY_WIDTH + x + c];
            assert(false);
        }
    } else {
        let b = ram[base + row];
        let cy = (y + row) as u8;
        let r1 = draw_row_rec(d, b, x, cy, 0);
        let next = (row + 1) as u8;
        lemma_draw_row_char(d, b, x, cy, 0);
        lemma_draw_char(r1.0, ram, base, x, y, n, next);
        let r2 = draw_rec(r1.0, ram, base, x, y, n, next);
        assert(res.0 == r2.0);
        assert(res.1 == (r1.1 || r2.1));

        // cells the current row touches lie in display row cy; cells a
        // later row touches lie in a strictly lower band
        assert forall|i: int|
            row_touched(b, x, cy, 0, i) implies cy * DISPLAY_WIDTH <= i < (cy + 1)
            * DISPLAY_WIDTH by {
            let c = choose|c: u8|
                0 <= c < 8 && x + c < DISPLAY_WIDTH && #[trigger] row_bit(b, c) && i == cy
                    * DISPLAY_WIDTH + x + c;
        }
        assert forall|i: int|
            sprite_touched(ram, base, x, y, n, next, i) implies i >= (cy + 1) * DISPLAY_WIDTH by {
            let (r, c) = choose|r: u8, c: u8|
                next <= r < n && y + r < DISPLAY_HEIGHT && c < 8 && x + c < DISPLAY_WIDTH
                    && #[trigger] row_bit(ram[base + r], c) && i == (y + r) * DISPLAY_WIDTH + x + c;
            assert(y + r >= cy + 1);
            assert((y + r) * DISPLAY_WIDTH >= (cy + 1) * DISPLAY_WIDTH) by (nonlinear_arith)
                requires
                    y + r >= cy + 1,
            ;
        }

        assert forall|i: int| 0 <= i < d.len() implies res.0[i] == (if sprite_touched(
            ram,
            base,
            x,
            y,
            n,
            row,
            i,
        ) {
            !d[i]
        } else {
            d[i]
        }) by {
            let touched_here = row_touched(b, x, cy, 0, i);
            let touched_later = sprite_touched(ram, base, x, y, n, next, i);
            assert(r2.0[i] == (if touched_later {
                !r1.0[i]
            } else {
                r1.0[i]
            }));
            assert(r1.0[i] == (if touched_here {
                !d[i]
            } else {
                d[i]
            }));
            if touched_here {
                assert(!touched_later);
                let c = choose|c: u8|
                    0 <= c < 8 && x + c < DISPLAY_WIDTH && #[trigger] row_bit(b, c) && i == cy
                        * DISPLAY_WIDTH + x + c;
                assert(row <= row < n && y + row < DISPLAY_HEIGHT && i == (y + row) * DISPLAY_WIDTH
                    + x + c);
                assert(sprite_touched(ram, base, x, y, n, row, i));
                assert(res.0[i] == !d[i]);
            } else if touched_later {
                let (r, c) = choose|r: u8, c: u8|
                    next <= r < n && y + r < DISPLAY_HEIGHT && c < 8 && x + c < DISPLAY_WIDTH
                        && #[trigger] row_bit(ram[base + r], c) && i == (y + r) * DISPLAY_WIDTH + x
                        + c;
                assert(sprite_touched(ram, base, x, y, n, row, i));
                assert(res.0[i] == !d[i]);
            } else {
                if sprite_touched(ram, base, x, y, n, row, i) {
                    let (r, c) = choose|r: u8, c: u8|
                        row <= r < n && y + r < DISPLAY_HEIGHT && c < 8 && x + c < DISPLAY_WIDTH
                            && #[trigger] row_bit(ram[base + r], c) && i == (y + r) * DISPLAY_WIDTH
                            + x + c;
                    if r == row {
                        assert(row_bit(b, c) && i == cy * DISPLAY_WIDTH + x + c);
                        assert(touched_here);
                    } else {
                        assert(next <= r);
                        assert(touched_later);
                    }
                    assert(false);
                }
                assert(res.0[i] == d[i]);
            }
        }

        // collisions: the current row sees the original display; later
        // rows see cells the current row did not touch
        if res.1 {
            if r1.1 {
                let c = choose|c: u8|
                    0 <= c < 8 && x + c < DISPLAY_WIDTH && #[trigger] row_bit(b, c) && d[cy
                        * DISPLAY_WIDTH + x + c];
                assert(row_bit(ram[base + row], c) && d[(y + row) * DISPLAY_WIDTH + x + c]);
                assert(sprite_hits(d, ram, base, x, y, n, row));
            } else {
                let (r, c) = choose|r: u8, c: u8|
                    next <= r < n && y + r < DISPLAY_HEIGHT && c < 8 && x + c < DISPLAY_WIDTH
                        && #[trigger] row_bit(ram[base + r], c) && r1.0[(y + r) * DISPLAY_WIDTH + x
                        + c];
                let i = (y + r) * DISPLAY_WIDTH + x + c;
                assert(sprite_touched(ram, base, x, y, n, next, i));
                assert(i >= (cy + 1) * DISPLAY_WIDTH);
                if row_touched(b, x, cy, 0, i) {
                    assert(i < (cy + 1) * DISPLAY_WIDTH);
                    assert(false);
                }
                assert(0 <= i < d.len()) by {
                    assert((y + r) * DISPLAY_WIDTH < DISPLAY_HEIGHT * DISPLAY_WIDTH)
                        by (nonlinear_arith)
                        requires
                            0 <= y + r < DISPLAY_HEIGHT,
                    ;
                }
                assert(r1.0[i] == d[i]);
                assert(sprite_hits(d, ram, base, x, y, n, row));
            }
        }
        if sprite_hits(d, ram, base, x, y, n, row) {
            let (r, c) = choose|r: u8, c: u8|
                row <= r < n && y + r < DISPLAY_HEIGHT && c < 8 && x + c < DISPLAY_WIDTH
                    && #[trigger] row_bit(ram[base + r], c) && d[(y + r) * DISPLAY_WIDTH + x + c];
            let i = (y + r) * DISPLAY_WIDTH + x + c;
            assert(0 <= i < d.len()) by {
                assert((y + r) * DISPLAY_WIDTH < DISPLAY_HEIGHT * DISPLAY_WIDTH)
                    by (nonlinear_arith)
                    requires
                        0 <= y + r < DISPLAY_HEIGHT,
                ;
            }
            if r == row {
                assert(row_bit(b, c) && d[cy * DISPLAY_WIDTH + x + c]);
                assert(r1.1);
            } else {
                assert(next <= r);
                assert(sprite_touched(ram, base, x, y, n, next, i));
                assert(i >= (cy + 1) * DISPLAY_WIDTH);
                if row_touched(b, x, cy, 0, i) {
                    assert(i < (cy + 1) * DISPLAY_WIDTH);
                    assert(false);
                }
                assert(r1.0[i] == d[i]);
                assert(sprite_hits(r1.0, ram, base, x, y, n, next));
                assert(r2.1);
            }
            assert(res.1);
        }
    }
}

/// XOR compositing is its own inverse: drawing the same sprite twice at
/// the same origin restores every display cell; and when the first draw
/// reported no collision while the sprite has at least one visible set
/// bit, the second draw collides on every one of its set bits and reports
/// one.
pub proof fn lemma_sprite_round_trip(d: Seq<bool>, ram: Seq<u8>, base: u16, x: u8, y: u8, n: u8)
    requires
        d.len() == DISPLAY_WIDTH * DISPLAY_HEIGHT,
        x < DISPLAY_WIDTH,
        y < DISPLAY_HEIGHT,
        n < 16,
    ensures
        draw_rec(draw_rec(d, ram, base, x, y, n, 0).0, ram, base, x, y, n, 0).0 == d,
        !draw_rec(d, ram, base, x, y, n, 0).1 && (exists|i: int|
            sprite_touched(ram, base, x, y, n, 0, i)) ==> draw_rec(
            draw_rec(d, ram, base, x, y, n, 0).0,
            ram,
            base,
            x,
            y,
            n,
            0,
        ).1,
{
    let d1 = draw_rec(d, ram, base, x, y, n, 0).0;
    lemma_draw_char(d, ram, base, x, y, n, 0);
    lemma_draw_char(d1, ram, base, x, y, n, 0);
    assert(draw_rec(d1, ram, base, x, y, n, 0).0 =~= d);
    if !draw_rec(d, ram, base, x, y, n, 0).1 && (exists|i: int|
        sprite_touched(ram, base, x, y, n, 0, i)) {
        let i = choose|i: int| sprite_touched(ram, base, x, y, n, 0, i);
        let (r, c) = choose|r: u8, c: u8|
            0 <= r < n && y + r < DISPLAY_HEIGHT && c < 8 && x + c < DISPLAY_WIDTH
                && #[trigger] row_bit(ram[base + r], c) && i == (y + r) * DISPLAY_WIDTH + x + c;
        assert(0 <= i < d.len()) by {
            assert((y + r) * DISPLAY_WIDTH < DISPLAY_HEIGHT * DISPLAY_WIDTH) by (nonlinear_arith)
                requires
                    0 <= y + r < DISPLAY_HEIGHT,
            ;
        }
        if d[i] {
            assert(sprite_hits(d, ram, base, x, y, n, 0));
            assert(false);
        }
        assert(d1[i] == !d[i]);
        assert(d1[(y + r) * DISPLAY_WIDTH + x + c]);
        assert(sprite_hits(d1, ram, base, x, y, n, 0));
    }
}

/// The sprite round trip at the level of whole machine states: if a
/// second state agrees with the first on memory, the index register and
/// the two origin registers, and its display is the first draw's output,
/// then the same draw instruction restores the first state's display; and
/// if the first draw set no collision flag while the sprite has a visible
/// set bit, the second draw sets it.
pub proof fn lemma_draw_round_trip(s: Chip8View, t: Chip8View, x: u8, y: u8, n: u8)
    requires
        s.wf(),
        t.wf(),
        x < 16,
        y < 16,
        n < 16,
        t.ram == s.ram,
        t.i_reg == s.i_reg,
        t.v[x as int] == s.v[x as int],
        t.v[y as int] == s.v[y as int],
        t.display == instr_post(s, Instr::Draw { x, y, n }, 0).display,
    ensures
        instr_post(t, Instr::Draw { x, y, n }, 0).display == s.display,
        instr_post(s, Instr::Draw { x, y, n }, 0).v[15] == 0 && (exists|i: int|
            #[trigger] sprite_touched(
                s.ram,
                s.i_reg,
                s.v[x as int] % (DISPLAY_WIDTH as u8),
                s.v[y as int] % (DISPLAY_HEIGHT as u8),
                n,
                0,
                i,
            )) ==> instr_post(t, Instr::Draw { x, y, n }, 0).v[15] == 1,
{
    let xo = s.v[x as int] % (DISPLAY_WIDTH as u8);
    let yo = s.v[y as int] % (DISPLAY_HEIGHT as u8);
    lemma_sprite_round_trip(s.display, s.ram, s.i_reg, xo, yo, n);
}

/// A subroutine call pushes the address of the instruction after it (the
/// program counter as already advanced by fetch), and a return from any
/// later state with that stack pops it back: control resumes right after
/// the call, with the stack as it was.
pub proof fn lemma_call_return(s: Chip8View, nnn: u16, t: Chip8View)
    requires
        s.stack.len() < STACK_CAPACITY,
        t.stack == instr_post(s, Instr::Call { nnn }, 0).stack,
    ensures
        instr_fault(s, Instr::Call { nnn }) is None,
        instr_post(s, Instr::Call { nnn }, 0).pc == nnn,
        instr_fault(t, Instr::Ret) is None,
        instr_post(t, Instr::Ret, 0).pc == s.pc,
        instr_post(t, Instr::Ret, 0).stack == s.stack,
{
    assert(s.stack.push(s.pc).drop_last() =~= s.stack);
}

} // verus!
