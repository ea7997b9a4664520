use vstd::prelude::*;

use crate::cell::{color_of, Cell, CellState};
use crate::organism::Organism;

verus! {

/// `(x, y)` lies on a `w` by `h` grid.
pub open spec fn on_grid(w: int, h: int, x: int, y: int) -> bool {
    0 <= x < w && 0 <= y < h
}

/// The row-major index of `(x, y)` on a grid `w` tiles wide, or -1 when the
/// position is off a `w` by `h` grid.
pub open spec fn slot(w: int, h: int, x: int, y: int) -> int {
    if on_grid(w, h, x, y) {
        y * w + x
    } else {
        -1
    }
}

/// The tiles after applying `writes` in order; a write whose index lies
/// outside the tiles is dropped.
pub open spec fn written(tiles: Seq<Cell>, writes: Seq<(int, Cell)>) -> Seq<Cell>
    decreases writes.len(),
{
    if writes.len() == 0 {
        tiles
    } else {
        let t = written(tiles, writes.drop_last());
        let w = writes.last();
        if 0 <= w.0 < t.len() {
            t.update(w.0, w.1)
        } else {
            t
        }
    }
}

/// The colors after applying `writes` in order, each written tile taking the
/// color of its new state.
pub open spec fn painted(pixels: Seq<u32>, writes: Seq<(int, Cell)>) -> Seq<u32>
    decreases writes.len(),
{
    if writes.len() == 0 {
        pixels
    } else {
        let p = painted(pixels, writes.drop_last());
        let w = writes.last();
        if 0 <= w.0 < p.len() {
            p.update(w.0, color_of(w.1.state))
        } else {
            p
        }
    }
}

/// The writes that put the body of `o` onto a `w` by `h` grid, one per body
/// cell in order: the cell's own state owned by `o`, or untended food when
/// `as_food`.
pub open spec fn body_writes(w: int, h: int, o: Organism, as_food: bool) -> Seq<(int, Cell)> {
    Seq::new(
        o.cells@.len(),
        |i: int|
            (
                slot(w, h, o.position(i).0, o.position(i).1),
                if as_food {
                    Cell { state: CellState::Food, owner: None }
                } else {
                    Cell { state: o.cells@[i].state, owner: Some(o.id) }
                },
            ),
    )
}

pub proof fn lemma_slot_in_range(w: int, h: int, x: int, y: int)
    requires
        on_grid(w, h, x, y),
    ensures
        0 <= y * w + x < w * h,
{
    assert(0 <= y * w + x < w * h) by (nonlinear_arith)
        requires
            0 <= x < w,
            0 <= y < h,
    ;
}

pub proof fn lemma_written_step(tiles: Seq<Cell>, writes: Seq<(int, Cell)>, k: int)
    requires
        0 <= k < writes.len(),
    ensures
        written(tiles, writes.take(k + 1)) == ({
            let t = written(tiles, writes.take(k));
            if 0 <= writes[k].0 < t.len() {
                t.update(writes[k].0, writes[k].1)
            } else {
                t
            }
        }),
        painted_step(writes, k),
{
    assert(writes.take(k + 1).drop_last() =~= writes.take(k));
}

pub open spec fn painted_step(writes: Seq<(int, Cell)>, k: int) -> bool {
    forall|pixels: Seq<u32>|
        #![trigger painted(pixels, writes.take(k + 1))]
        painted(pixels, writes.take(k + 1)) == ({
            let p = painted(pixels, writes.take(k));
            if 0 <= writes[k].0 < p.len() {
                p.update(writes[k].0, color_of(writes[k].1.state))
            } else {
                p
            }
        })
}

pub proof fn lemma_written_len(tiles: Seq<Cell>, writes: Seq<(int, Cell)>)
    ensures
        written(tiles, writes).len() == tiles.len(),
    decreases writes.len(),
{
    if writes.len() > 0 {
        lemma_written_len(tiles, writes.drop_last());
    }
}

pub proof fn lemma_painted_len(pixels: Seq<u32>, writes: Seq<(int, Cell)>)
    ensures
        painted(pixels, writes).len() == pixels.len(),
    decreases writes.len(),
{
    if writes.len() > 0 {
        lemma_painted_len(pixels, writes.drop_last());
    }
}

pub proof fn lemma_written_concat(tiles: Seq<Cell>, a: Seq<(int, Cell)>, b: Seq<(int, Cell)>)
    ensures
        written(written(tiles, a), b) == written(tiles, a + b),
    decreases b.len(),
{
    if b.len() == 0 {
        assert(a + b =~= a);
    } else {
        lemma_written_concat(tiles, a, b.drop_last());
        assert((a + b).drop_last() =~= a + b.drop_last());
        assert((a + b).last() == b.last());
    }
}

pub proof fn lemma_painted_concat(pixels: Seq<u32>, a: Seq<(int, Cell)>, b: Seq<(int, Cell)>)
    ensures
        painted(painted(pixels, a), b) == painted(pixels, a + b),
    decreases b.len(),
{
    if b.len() == 0 {
        assert(a + b =~= a);
    } else {
        lemma_painted_concat(pixels, a, b.drop_last());
        assert((a + b).drop_last() =~= a + b.drop_last());
        assert((a + b).last() == b.last());
    }
}

/// Two in-bounds positions with the same row-major index are the same.
pub proof fn lemma_same_slot(w: int, h: int, x1: int, y1: int, x2: int, y2: int)
    requires
        on_grid(w, h, x1, y1),
        on_grid(w, h, x2, y2),
        y1 * w + x1 == y2 * w + x2,
    ensures
        x1 == x2 && y1 == y2,
{
    assert(y1 == y2) by (nonlinear_arith)
        requires
            0 <= x1 < w,
            0 <= x2 < w,
            y1 * w + x1 == y2 * w + x2,
    ;
}

} // verus!
