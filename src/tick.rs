use vstd::prelude::*;

use crate::cell::{color_of, Cell, CellState};
use crate::grid::{
    chebyshev, ids_ok,
    lemma_updated_tiles, mouth_food, with_assigned_id, Grid, CHANCE_SCALE,
};
use crate::organism::{birth_spot, offspring_of, open_ground, plan_extent, updated, Organism};
use crate::random::random_below;
use crate::tiles::{
    body_writes, lemma_painted_concat, lemma_painted_len, lemma_same_slot, lemma_slot_in_range,
    lemma_written_concat, lemma_written_len, painted, written,
};

verus! {

/// The registry without its dead organisms, in order.
pub open spec fn alive_only(orgs: Seq<Organism>) -> Seq<Organism>
    decreases orgs.len(),
{
    if orgs.len() == 0 {
        orgs
    } else {
        let rest = alive_only(orgs.drop_last());
        if orgs.last().is_alive {
            rest.push(orgs.last())
        } else {
            rest
        }
    }
}

/// The writes that stamp the body of every living organism of `orgs`, in
/// order, each cell owned by its organism.
pub open spec fn stamp_writes(w: int, h: int, orgs: Seq<Organism>) -> Seq<(int, Cell)>
    decreases orgs.len(),
{
    if orgs.len() == 0 {
        Seq::empty()
    } else {
        let rest = stamp_writes(w, h, orgs.drop_last());
        if orgs.last().is_alive {
            rest + body_writes(w, h, orgs.last(), false)
        } else {
            rest
        }
    }
}

/// The writes that turn the body of every dead organism of `orgs`, in order,
/// into food.
pub open spec fn burial_writes(w: int, h: int, orgs: Seq<Organism>) -> Seq<(int, Cell)>
    decreases orgs.len(),
{
    if orgs.len() == 0 {
        Seq::empty()
    } else {
        let rest = burial_writes(w, h, orgs.drop_last());
        if orgs.last().is_alive {
            rest
        } else {
            rest + body_writes(w, h, orgs.last(), true)
        }
    }
}

/// Removing the dead keeps ids distinct and below the counter.
pub proof fn lemma_alive_only_ids(orgs: Seq<Organism>, next: int)
    requires
        ids_ok(orgs, next),
    ensures
        ids_ok(alive_only(orgs), next),
    decreases orgs.len(),
{
    if orgs.len() > 0 {
        let front = orgs.drop_last();
        assert forall|i: int, j: int| 0 <= i < j < front.len() implies (#[trigger] front[i]).id
            != (#[trigger] front[j]).id by {
            assert(front[i] == orgs[i] && front[j] == orgs[j]);
        }
        assert forall|i: int| 0 <= i < front.len() implies (#[trigger] front[i]).id < next by {
            assert(front[i] == orgs[i]);
        }
        lemma_alive_only_ids(front, next);
        lemma_alive_only(front);
        let rest = alive_only(front);
        if orgs.last().is_alive {
            let all = rest.push(orgs.last());
            assert forall|i: int, j: int| 0 <= i < j < all.len() implies (#[trigger] all[i]).id
                != (#[trigger] all[j]).id by {
                if j == all.len() - 1 {
                    assert(front.contains(rest[i]));
                    let k = choose|k: int| 0 <= k < front.len() && front[k] == rest[i];
                    assert(orgs[k] == front[k]);
                    assert(orgs[orgs.len() - 1] == orgs.last());
                } else {
                    assert(all[i] == rest[i] && all[j] == rest[j]);
                }
            }
            assert forall|i: int| 0 <= i < all.len() implies (#[trigger] all[i]).id < next by {
                if i < rest.len() {
                    assert(all[i] == rest[i]);
                } else {
                    assert(orgs[orgs.len() - 1] == orgs.last());
                }
            }
        }
    }
}

/// Every organism left by `alive_only` is alive and comes from `orgs`.
pub proof fn lemma_alive_only(orgs: Seq<Organism>)
    ensures
        alive_only(orgs).len() <= orgs.len(),
        forall|i: int|
            0 <= i < alive_only(orgs).len() ==> (#[trigger] alive_only(orgs)[i]).is_alive
                && orgs.contains(alive_only(orgs)[i]),
    decreases orgs.len(),
{
    if orgs.len() > 0 {
        lemma_alive_only(orgs.drop_last());
        let rest = alive_only(orgs.drop_last());
        assert forall|i: int| 0 <= i < alive_only(orgs).len() implies (#[trigger] alive_only(
            orgs,
        )[i]).is_alive && orgs.contains(alive_only(orgs)[i]) by {
            if i < rest.len() {
                let j = choose|j: int|
                    0 <= j < orgs.drop_last().len() && orgs.drop_last()[j] == rest[i];
                assert(orgs[j] == rest[i]);
            } else {
                assert(orgs[orgs.len() - 1] == orgs.last());
            }
        }
    }
}

impl Grid {
    /// Removes every dead organism from the registry, in order, turning each
    /// of its in-bounds body tiles into food.
    fn remove_dead_organisms(&mut self)
        requires
            old(self).dims_ok(),
            forall|i: int|
                0 <= i < old(self).organisms@.len() ==> (#[trigger] old(self).organisms@[i]).wf(),
        ensures
            buried(*old(self), *final(self)),
    {
        let ghost g0 = *self;
        let ghost all = self.organisms@;
        let mut rest: Vec<Organism> = Vec::new();
        std::mem::swap(&mut rest, &mut self.organisms);
        let mut kept: Vec<Organism> = Vec::new();
        let ghost mut i: int = 0;
        while rest.len() > 0
            invariant
                0 <= i <= all.len(),
                rest@ == all.subrange(i, all.len() as int),
                kept@ == alive_only(all.take(i)),
                forall|j: int| 0 <= j < all.len() ==> (#[trigger] all[j]).wf(),
                g0.dims_ok(),
                self.cells@ == written(
                    g0.cells@,
                    burial_writes(g0.width as int, g0.height as int, all.take(i)),
                ),
                self.pixels@ == painted(
                    g0.pixels@,
                    burial_writes(g0.width as int, g0.height as int, all.take(i)),
                ),
                *self == (Grid {
                    cells: self.cells,
                    pixels: self.pixels,
                    organisms: self.organisms,
                    ..g0
                }),
            decreases rest.len(),
        {
            let o = rest.remove(0);
            proof {
                assert(o == all[i]);
                assert(all.take(i + 1).drop_last() =~= all.take(i));
                assert(all.take(i + 1).last() == all[i]);
                lemma_written_len(
                    g0.cells@,
                    burial_writes(g0.width as int, g0.height as int, all.take(i)),
                );
                lemma_painted_len(
                    g0.pixels@,
                    burial_writes(g0.width as int, g0.height as int, all.take(i)),
                );
            }
            if o.is_alive {
                kept.push(o);
            } else {
                self.paint_body(&o, true);
                proof {
                    lemma_written_concat(
                        g0.cells@,
                        burial_writes(g0.width as int, g0.height as int, all.take(i)),
                        body_writes(g0.width as int, g0.height as int, o, true),
                    );
                    lemma_painted_concat(
                        g0.pixels@,
                        burial_writes(g0.width as int, g0.height as int, all.take(i)),
                        body_writes(g0.width as int, g0.height as int, o, true),
                    );
                }
            }
            proof {
                i = i + 1;
                assert(rest@ =~= all.subrange(i, all.len() as int));
            }
        }
        proof {
            assert(all.take(i) =~= all);
        }
        self.organisms = kept;
    }
}

/// The four neighbor steps scanned around a body cell, in scan order.
pub open spec fn neighbor_step(d: int) -> (int, int) {
    if d == 0 {
        (0, 1)
    } else if d == 1 {
        (1, 0)
    } else if d == 2 {
        (0, -1)
    } else {
        (-1, 0)
    }
}

fn neighbor(d: usize) -> (r: (i64, i64))
    requires
        d < 4,
    ensures
        r.0 == neighbor_step(d as int).0,
        r.1 == neighbor_step(d as int).1,
{
    if d == 0 {
        (0, 1)
    } else if d == 1 {
        (1, 0)
    } else if d == 2 {
        (0, -1)
    } else {
        (-1, 0)
    }
}

/// Each tile is either as before or a tile of `from` that became `to`
/// (untended).
pub open spec fn only_turned(before: Seq<Cell>, after: Seq<Cell>, from: CellState, to: CellState) -> bool {
    &&& after.len() == before.len()
    &&& forall|j: int|
        0 <= j < before.len() ==> #[trigger] after[j] == before[j] || (before[j].state == from
            && after[j] == Cell { state: to, owner: None })
}

/// The id hit when body cell `k` of `o` strikes in scan direction `d`: a
/// killer cell of a living organism hits a neighboring tile that is owned by
/// another organism and is not armor.
pub open spec fn strike(g: Grid, o: Organism, k: int, d: int) -> Seq<usize> {
    let p = cell_reach(o, k, d);
    if o.is_alive && o.cells@[k].state == CellState::Killer && g.in_bounds(p.0, p.1) {
        match g.tile(p.0, p.1).owner {
            Some(t) => if t != o.id && g.tile(p.0, p.1).state != CellState::Armor {
                seq![t]
            } else {
                seq![]
            },
            None => seq![],
        }
    } else {
        seq![]
    }
}

/// The hits of body cell `k` of `o` in the first `nd` scan directions.
pub open spec fn cell_strikes(g: Grid, o: Organism, k: int, nd: int) -> Seq<usize>
    decreases nd,
{
    if nd <= 0 {
        seq![]
    } else {
        cell_strikes(g, o, k, nd - 1) + strike(g, o, k, nd - 1)
    }
}

/// The hits of the first `nk` body cells of `o`.
pub open spec fn organism_strikes(g: Grid, o: Organism, nk: int) -> Seq<usize>
    decreases nk,
{
    if nk <= 0 {
        seq![]
    } else {
        organism_strikes(g, o, nk - 1) + cell_strikes(g, o, nk - 1, 4)
    }
}

/// The hits of the first `ni` organisms of `orgs`, in scan order.
pub open spec fn all_strikes(g: Grid, orgs: Seq<Organism>, ni: int) -> Seq<usize>
    decreases ni,
{
    if ni <= 0 {
        seq![]
    } else {
        all_strikes(g, orgs, ni - 1) + organism_strikes(g, orgs[ni - 1], orgs[ni - 1].cells@.len() as int)
    }
}

/// How many times `id` occurs in `s`.
pub open spec fn count_of(s: Seq<usize>, id: usize) -> nat
    decreases s.len(),
{
    if s.len() == 0 {
        0
    } else {
        count_of(s.drop_last(), id) + if s.last() == id {
            1nat
        } else {
            0nat
        }
    }
}

/// Number of hits that the organisms with id `id` take in a combat phase on
/// `g`.
pub open spec fn hits_on(g: Grid, id: usize) -> nat {
    count_of(all_strikes(g, g.organisms@, g.organisms@.len() as int), id)
}

/// `o` after `n` points of damage (see `Organism::harm`).
pub open spec fn harmed(o: Organism, n: nat) -> Organism {
    if n == 0 {
        o
    } else {
        Organism {
            health: if o.health > n {
                (o.health - n) as u32
            } else {
                0
            },
            is_alive: o.is_alive && o.health > n,
            ..o
        }
    }
}

/// The organism after a combat phase on `g`: dead when hit under instant
/// kills, otherwise harmed once per hit.
pub open spec fn after_combat(g: Grid, o: Organism) -> Organism {
    if hits_on(g, o.id) > 0 && g.insta_kill {
        Organism { is_alive: false, ..o }
    } else {
        harmed(o, hits_on(g, o.id))
    }
}

/// The neighbor of body cell `k` of `o` in scan direction `d`.
pub open spec fn cell_reach(o: Organism, k: int, d: int) -> (int, int) {
    (o.position(k).0 + neighbor_step(d).0, o.position(k).1 + neighbor_step(d).1)
}

/// Body cell `k` of `o` is the mouth of a living organism and `d` a scan
/// direction.
pub open spec fn eats(o: Organism, k: int, d: int) -> bool {
    &&& o.is_alive
    &&& 0 <= k < o.cells@.len()
    &&& o.cells@[k].state == CellState::Mouth
    &&& 0 <= d < 4
}

/// The tile at `(x, y)` holds food next to a mouth of a living organism of
/// `g`'s registry.
pub open spec fn eaten_at(g: Grid, x: int, y: int) -> bool {
    &&& g.food_at(x, y)
    &&& exists|i: int, k: int, d: int|
        0 <= i < g.organisms@.len() && #[trigger] eats(g.organisms@[i], k, d) && cell_reach(
            g.organisms@[i],
            k,
            d,
        ) == (x, y)
}

/// The color of every tile of `after` that differs from `before` is the
/// color of an empty tile; the other colors are as in `before`.
pub open spec fn pixels_follow(before: Grid, after: Grid) -> bool {
    forall|x: int, y: int|
        #[trigger] after.in_bounds(x, y) ==> after.pixel(x, y) == if after.tile(x, y) != before.tile(
            x,
            y,
        ) {
            color_of(CellState::Empty)
        } else {
            before.pixel(x, y)
        }
}

/// Every tile of `after` that differs from `before` is eaten in `before`.
pub open spec fn eaten_only(before: Grid, after: Grid) -> bool {
    forall|x: int, y: int|
        after.in_bounds(x, y) && #[trigger] after.tile(x, y) != before.tile(x, y) ==> eaten_at(
            before,
            x,
            y,
        )
}

/// The organism after eating: a living one gains the food within reach of its
/// mouths on grid `g`, saturating at `u32::MAX`.
pub open spec fn fed(g: Grid, before: Organism, after: Organism) -> bool {
    after == Organism {
        food_collected: if before.is_alive {
            vstd::math::min(
                before.food_collected + mouth_food(g, before, before.cells@.len() as int),
                u32::MAX as int,
            ) as u32
        } else {
            before.food_collected
        },
        ..before
    }
}

impl Grid {
    /// Eating: every living organism first collects the food within reach of
    /// its mouths, all counted on the tiles as they stand; then every food tile
    /// next to a living mouth is emptied. A tile next to two mouths feeds both.
    fn process_eating(&mut self)
        requires
            old(self).wf(),
        ensures
            final(self).wf(),
            ate(*old(self), *final(self)),
    {
        let ghost g0 = *self;
        let n = self.organisms.len();
        let mut gains: Vec<u64> = Vec::new();
        let mut i: usize = 0;
        while i < n
            invariant
                n == g0.organisms@.len(),
                *self == g0,
                g0.wf(),
                i <= n,
                gains@.len() == i,
                forall|j: int|
                    0 <= j < i ==> #[trigger] gains@[j] == if g0.organisms@[j].is_alive {
                        mouth_food(g0, g0.organisms@[j], g0.organisms@[j].cells@.len() as int)
                    } else {
                        0
                    },
                forall|j: int| 0 <= j < i ==> #[trigger] gains@[j] <= 4 * g0.organisms@[j].cells@.len(),
            decreases n - i,
        {
            if self.organisms[i].is_alive {
                assert(self.organisms@[i as int].wf());
                let gain = self.organisms[i].food_in_reach(self);
                gains.push(gain);
            } else {
                gains.push(0);
            }
            i += 1;
        }
        let mut i: usize = 0;
        while i < n
            invariant
                n == self.organisms@.len(),
                self.wf(),
                i <= n,
                self.organisms == g0.organisms,
                only_turned(g0.cells@, self.cells@, CellState::Food, CellState::Empty),
                eaten_only(g0, *self),
                pixels_follow(g0, *self),
                forall|i2: int, k2: int, d2: int|
                    0 <= i2 < i && #[trigger] eats(g0.organisms@[i2], k2, d2) ==> !self.food_at(
                        cell_reach(g0.organisms@[i2], k2, d2).0,
                        cell_reach(g0.organisms@[i2], k2, d2).1,
                    ),
                *self == (Grid { cells: self.cells, pixels: self.pixels, ..g0 }),
            decreases n - i,
        {
            let m = self.organisms[i].cells.len();
            let mut k: usize = 0;
            while k < m
                invariant
                    n == self.organisms@.len(),
                    i < n,
                    m == self.organisms@[i as int].cells@.len(),
                    self.wf(),
                    k <= m,
                    self.organisms == g0.organisms,
                    only_turned(g0.cells@, self.cells@, CellState::Food, CellState::Empty),
                    eaten_only(g0, *self),
                    pixels_follow(g0, *self),
                    forall|i2: int, k2: int, d2: int|
                        (0 <= i2 < i || (i2 == i && k2 < k)) && #[trigger] eats(
                            g0.organisms@[i2],
                            k2,
                            d2,
                        ) ==> !self.food_at(
                            cell_reach(g0.organisms@[i2], k2, d2).0,
                            cell_reach(g0.organisms@[i2], k2, d2).1,
                        ),
                    *self == (Grid { cells: self.cells, pixels: self.pixels, ..g0 }),
                decreases m - k,
            {
                let c = self.organisms[i].cells[k];
                if self.organisms[i].is_alive && c.state == CellState::Mouth {
                    assert(self.organisms@[i as int].wf());
                    assert(c.wf());
                    let (dx, dy) = c.get_rotated_position(self.organisms[i].rotation);
                    let cx = self.organisms[i].x as i64 + dx as i64;
                    let cy = self.organisms[i].y as i64 + dy as i64;
                    let mut d: usize = 0;
                    while d < 4
                        invariant
                            n == self.organisms@.len(),
                            i < n,
                            k < m,
                            m == self.organisms@[i as int].cells@.len(),
                            self.organisms@[i as int].is_alive,
                            self.organisms@[i as int].cells@[k as int].state == CellState::Mouth,
                            cx == self.organisms@[i as int].position(k as int).0,
                            cy == self.organisms@[i as int].position(k as int).1,
                            self.wf(),
                            d <= 4,
                            self.organisms == g0.organisms,
                            -0x1_0000_0000_0000 <= cx <= 0x1_0000_0000_0000,
                            -0x1_0000_0000_0000 <= cy <= 0x1_0000_0000_0000,
                            only_turned(g0.cells@, self.cells@, CellState::Food, CellState::Empty),
                            eaten_only(g0, *self),
                            pixels_follow(g0, *self),
                            forall|i2: int, k2: int, d2: int|
                                (0 <= i2 < i || (i2 == i && k2 < k) || (i2 == i && k2 == k && d2
                                    < d)) && #[trigger] eats(g0.organisms@[i2], k2, d2)
                                    ==> !self.food_at(
                                    cell_reach(g0.organisms@[i2], k2, d2).0,
                                    cell_reach(g0.organisms@[i2], k2, d2).1,
                                ),
                            *self == (Grid { cells: self.cells, pixels: self.pixels, ..g0 }),
                        decreases 4 - d,
                    {
                        let (ex, ey) = neighbor(d);
                        let ghost reach = cell_reach(g0.organisms@[i as int], k as int, d as int);
                        assert(reach == (cx + ex, cy + ey));
                        assert(eats(g0.organisms@[i as int], k as int, d as int));
                        if let Some(j) = self.slot_of(cx + ex, cy + ey) {
                            if self.cells[j].state == CellState::Food {
                                let ghost before = *self;
                                proof {
                                    lemma_slot_in_range(self.width as int, self.height as int, reach.0, reach.1);
                                    assert(self.cells@[j as int].state == CellState::Food);
                                    assert(g0.cells@[j as int].state == CellState::Food);
                                    assert(self.in_bounds(reach.0, reach.1));
                                    assert(j == reach.1 * self.width + reach.0);
                                    assert(g0.tile(reach.0, reach.1) == g0.cells@[j as int]);
                                    assert(g0.food_at(reach.0, reach.1));
                                    assert(eaten_at(g0, reach.0, reach.1));
                                }
                                self.write_slot(j, Cell { state: CellState::Empty, owner: None });
                                proof {
                                    assert forall|x: int, y: int| #[trigger] self.in_bounds(x, y) implies self.pixel(x, y)
                                        == if self.tile(x, y) != g0.tile(x, y) {
                                        color_of(CellState::Empty)
                                    } else {
                                        g0.pixel(x, y)
                                    } by {
                                        lemma_slot_in_range(self.width as int, self.height as int, x, y);
                                        if y * self.width + x != j {
                                            assert(before.tile(x, y) == self.tile(x, y));
                                            assert(before.pixel(x, y) == self.pixel(x, y));
                                            assert(before.in_bounds(x, y));
                                        } else {
                                            lemma_same_slot(self.width as int, self.height as int, x, y, reach.0, reach.1);
                                        }
                                    }
                                    assert forall|x: int, y: int|
                                        self.in_bounds(x, y) && #[trigger] self.tile(x, y) != g0.tile(
                                            x,
                                            y,
                                        ) implies eaten_at(g0, x, y) by {
                                        lemma_slot_in_range(self.width as int, self.height as int, x, y);
                                        if y * self.width + x != j {
                                            assert(before.tile(x, y) == self.tile(x, y));
                                        } else {
                                            lemma_same_slot(self.width as int, self.height as int, x, y, reach.0, reach.1);
                                        }
                                    }
                                    assert forall|i2: int, k2: int, d2: int|
                                        (0 <= i2 < i || (i2 == i && k2 < k) || (i2 == i && k2 == k
                                            && d2 < d + 1)) && #[trigger] eats(
                                            g0.organisms@[i2],
                                            k2,
                                            d2,
                                        ) implies !self.food_at(
                                        cell_reach(g0.organisms@[i2], k2, d2).0,
                                        cell_reach(g0.organisms@[i2], k2, d2).1,
                                    ) by {
                                        let p = cell_reach(g0.organisms@[i2], k2, d2);
                                        if self.in_bounds(p.0, p.1) {
                                            lemma_slot_in_range(self.width as int, self.height as int, p.0, p.1);
                                        }
                                        if self.in_bounds(p.0, p.1) && p.1 * self.width + p.0 != j {
                                            assert(before.tile(p.0, p.1) == self.tile(p.0, p.1));
                                        }
                                    }
                                }
                            }
                        }
                        d += 1;
                    }
                }
                k += 1;
            }
            i += 1;
        }
        let ghost g2 = *self;
        let mut i: usize = 0;
        while i < n
            invariant
                n == g0.organisms@.len(),
                g0.wf(),
                i <= n,
                gains@.len() == n,
                forall|j: int|
                    0 <= j < n ==> #[trigger] gains@[j] == if g0.organisms@[j].is_alive {
                        mouth_food(g0, g0.organisms@[j], g0.organisms@[j].cells@.len() as int)
                    } else {
                        0
                    },
                forall|j: int| 0 <= j < n ==> #[trigger] gains@[j] <= 4 * g0.organisms@[j].cells@.len(),
                self.organisms@.len() == n,
                forall|j: int| 0 <= j < i ==> fed(g0, g0.organisms@[j], #[trigger] self.organisms@[j]),
                forall|j: int| i <= j < n ==> #[trigger] self.organisms@[j] == g0.organisms@[j],
                *self == (Grid { organisms: self.organisms, ..g2 }),
            decreases n - i,
        {
            if self.organisms[i].is_alive {
                let food = self.organisms[i].food_collected as u64 + gains[i];
                let food = if food > u32::MAX as u64 {
                    u32::MAX
                } else {
                    food as u32
                };
                self.organisms[i].food_collected = food;
            }
            i += 1;
        }
        proof {
            assert forall|x: int, y: int| #[trigger] g0.in_bounds(x, y) implies self.tile(x, y) == if eaten_at(
                g0,
                x,
                y,
            ) {
                Cell { state: CellState::Empty, owner: None }
            } else {
                g0.tile(x, y)
            } by {
                lemma_slot_in_range(self.width as int, self.height as int, x, y);
                assert(self.tile(x, y) == g2.tile(x, y));
                if eaten_at(g0, x, y) {
                    let (i2, k2, d2) = choose|i2: int, k2: int, d2: int|
                        0 <= i2 < g0.organisms@.len() && #[trigger] eats(g0.organisms@[i2], k2, d2)
                            && cell_reach(g0.organisms@[i2], k2, d2) == (x, y);
                    assert(eats(g0.organisms@[i2], k2, d2));
                    assert(!g2.food_at(x, y));
                    assert(g0.cells@[y * self.width + x].state == CellState::Food);
                    assert(g2.in_bounds(x, y));
                } else {
                    if g2.tile(x, y) != g0.tile(x, y) {
                        assert(eaten_at(g0, x, y));
                    }
                    assert(g2.in_bounds(x, y));
                }
            }
            assert forall|x: int, y: int| #[trigger] g0.in_bounds(x, y) implies self.pixel(x, y) == if eaten_at(
                g0,
                x,
                y,
            ) {
                color_of(CellState::Empty)
            } else {
                g0.pixel(x, y)
            } by {
                assert(g2.in_bounds(x, y));
                assert(self.pixel(x, y) == g2.pixel(x, y));
                assert(self.tile(x, y) == g2.tile(x, y));
                assert(self.tile(x, y) == if eaten_at(g0, x, y) {
                    Cell { state: CellState::Empty, owner: None }
                } else {
                    g0.tile(x, y)
                });
                if eaten_at(g0, x, y) {
                    assert(g0.tile(x, y).state == CellState::Food);
                }
            }
        }
    }

    /// Combat: every killer cell of a living organism hits each neighboring
    /// tile owned by another organism, unless that tile is armor. Each hit
    /// organism then dies at once under instant kills, and otherwise takes one
    /// point of damage per hit.
    fn process_killer_cells(&mut self)
        requires
            old(self).wf(),
        ensures
            final(self).wf(),
            fought(*old(self), *final(self)),
    {
        let ghost g0 = *self;
        let mut hits: Vec<usize> = Vec::new();
        let n = self.organisms.len();
        let mut i: usize = 0;
        while i < n
            invariant
                n == self.organisms@.len(),
                *self == g0,
                self.wf(),
                i <= n,
                hits@ == all_strikes(g0, g0.organisms@, i as int),
            decreases n - i,
        {
            let m = self.organisms[i].cells.len();
            let ghost o = g0.organisms@[i as int];
            let mut k: usize = 0;
            while k < m
                invariant
                    n == self.organisms@.len(),
                    *self == g0,
                    o == g0.organisms@[i as int],
                    i < n,
                    m == o.cells@.len(),
                    self.wf(),
                    k <= m,
                    hits@ == all_strikes(g0, g0.organisms@, i as int) + organism_strikes(g0, o, k as int),
                decreases m - k,
            {
                let c = self.organisms[i].cells[k];
                let ghost before_cell = hits@;
                if self.organisms[i].is_alive && c.state == CellState::Killer {
                    assert(self.organisms@[i as int].wf());
                    assert(c.wf());
                    let id = self.organisms[i].id;
                    let (dx, dy) = c.get_rotated_position(self.organisms[i].rotation);
                    let cx = self.organisms[i].x as i64 + dx as i64;
                    let cy = self.organisms[i].y as i64 + dy as i64;
                    let mut d: usize = 0;
                    while d < 4
                        invariant
                            *self == g0,
                            o == g0.organisms@[i as int],
                            i < n,
                            n == g0.organisms@.len(),
                            k < m,
                            m == o.cells@.len(),
                            o.is_alive,
                            o.cells@[k as int].state == CellState::Killer,
                            id == o.id,
                            cx == o.position(k as int).0,
                            cy == o.position(k as int).1,
                            self.wf(),
                            d <= 4,
                            -0x1_0000_0000_0000 <= cx <= 0x1_0000_0000_0000,
                            -0x1_0000_0000_0000 <= cy <= 0x1_0000_0000_0000,
                            hits@ == before_cell + cell_strikes(g0, o, k as int, d as int),
                        decreases 4 - d,
                    {
                        let (ex, ey) = neighbor(d);
                        let ghost p = cell_reach(o, k as int, d as int);
                        assert(p == (cx + ex, cy + ey));
                        let ghost prev = hits@;
                        if let Some(j) = self.slot_of(cx + ex, cy + ey) {
                            let t = self.cells[j];
                            assert(t == self.tile(p.0, p.1));
                            if let Some(target) = t.owner {
                                if target != id && t.state != CellState::Armor {
                                    hits.push(target);
                                }
                            }
                        }
                        proof {
                            assert(hits@ =~= prev + strike(g0, o, k as int, d as int));
                            assert(before_cell + cell_strikes(g0, o, k as int, d + 1) =~= before_cell
                                + cell_strikes(g0, o, k as int, d as int) + strike(
                                g0,
                                o,
                                k as int,
                                d as int,
                            ));
                        }
                        d += 1;
                    }
                } else {
                    proof {
                        assert forall|d: int| 0 <= d < 4 implies strike(g0, o, k as int, d) =~= seq![] by {}
                        assert(cell_strikes(g0, o, k as int, 0) =~= seq![]);
                        assert(cell_strikes(g0, o, k as int, 1) =~= seq![]);
                        assert(cell_strikes(g0, o, k as int, 2) =~= seq![]);
                        assert(cell_strikes(g0, o, k as int, 3) =~= seq![]);
                        assert(cell_strikes(g0, o, k as int, 4) =~= seq![]);
                        assert(before_cell + cell_strikes(g0, o, k as int, 4) =~= before_cell);
                    }
                }
                proof {
                    assert(all_strikes(g0, g0.organisms@, i as int) + organism_strikes(g0, o, k + 1)
                        =~= all_strikes(g0, g0.organisms@, i as int) + organism_strikes(g0, o, k as int)
                        + cell_strikes(g0, o, k as int, 4));
                }
                k += 1;
            }
            proof {
                assert(all_strikes(g0, g0.organisms@, i + 1) =~= all_strikes(g0, g0.organisms@, i as int)
                    + organism_strikes(g0, o, m as int));
            }
            i += 1;
        }
        let mut i: usize = 0;
        while i < n
            invariant
                n == g0.organisms@.len(),
                g0.wf(),
                i <= n,
                hits@ == all_strikes(g0, g0.organisms@, n as int),
                self.organisms@.len() == n,
                forall|j: int|
                    0 <= j < n ==> (#[trigger] self.organisms@[j]).wf()
                        && self.organisms@[j].vitals_ok(),
                forall|j: int|
                    0 <= j < i ==> #[trigger] self.organisms@[j] == after_combat(g0, g0.organisms@[j]),
                forall|j: int| i <= j < n ==> #[trigger] self.organisms@[j] == g0.organisms@[j],
                *self == (Grid { organisms: self.organisms, ..g0 }),
            decreases n - i,
        {
            let id = self.organisms[i].id;
            let mut damage: usize = 0;
            let mut h: usize = 0;
            while h < hits.len()
                invariant
                    h <= hits@.len(),
                    damage == count_of(hits@.take(h as int), id),
                    damage <= h,
                decreases hits.len() - h,
            {
                proof {
                    assert(hits@.take(h + 1).drop_last() =~= hits@.take(h as int));
                }
                if hits[h] == id {
                    damage += 1;
                }
                h += 1;
            }
            proof {
                assert(hits@.take(hits@.len() as int) =~= hits@);
            }
            if damage > 0 {
                if self.insta_kill {
                    self.organisms[i].is_alive = false;
                } else {
                    let mut t: usize = 0;
                    while t < damage
                        invariant
                            n == self.organisms@.len(),
                            n == g0.organisms@.len(),
                            i < n,
                            t <= damage,
                            self.organisms@[i as int] == harmed(g0.organisms@[i as int], t as nat),
                            g0.organisms@[i as int].wf(),
                            g0.organisms@[i as int].vitals_ok(),
                            forall|j: int|
                                0 <= j < i ==> #[trigger] self.organisms@[j] == after_combat(
                                    g0,
                                    g0.organisms@[j],
                                ),
                            forall|j: int|
                                0 <= j < n && j != i ==> (#[trigger] self.organisms@[j]).wf()
                                    && self.organisms@[j].vitals_ok(),
                            forall|j: int|
                                i < j < n ==> #[trigger] self.organisms@[j] == g0.organisms@[j],
                            *self == (Grid { organisms: self.organisms, ..g0 }),
                        decreases damage - t,
                    {
                        self.organisms[i].harm();
                        t += 1;
                    }
                }
            }
            i += 1;
        }
    }
}

/// A parent after paying the cost of reproduction.
pub open spec fn paid(p: Organism) -> Organism {
    Organism { food_collected: (p.food_collected - p.food_needed()) as u32, ..p }
}

/// `g` has the tiles of `b` with the first `k` newborns of `newborns` stamped
/// onto them: the ground on which newborn `k` was placed.
pub open spec fn stamp_stage(b: Grid, newborns: Seq<Organism>, k: int, g: Grid) -> bool {
    &&& g.width == b.width
    &&& g.height == b.height
    &&& g.food_blocks_reproduction == b.food_blocks_reproduction
    &&& g.cells@ == written(b.cells@, stamp_writes(b.width as int, b.height as int, newborns.take(k)))
}

/// Newborn `k` of `newborns` is a fresh offspring of parent `src[k]` of `b`:
/// the parent was alive with the food it needed, the newborn has the `k`-th
/// fresh id, is an offspring of the parent (see `offspring_of`), lies at a
/// birth spot of the parent, and when it was
/// stamped its body lay on placeable tiles with a clear path from the parent.
pub open spec fn newborn_ok(b: Grid, newborns: Seq<Organism>, src: Seq<int>, k: int) -> bool {
    let c = newborns[k];
    let p = b.organisms@[src[k]];
    &&& p.is_alive
    &&& p.food_collected >= p.food_needed()
    &&& c.id == b.next_organism_id + k
    &&& c.is_alive
    &&& c.food_collected == 0
    &&& c.lifetime == 0
    &&& c.health == c.cells@.len()
    &&& offspring_of(p, c)
    &&& birth_spot(p, c.x as int, c.y as int)
    &&& exists|g: Grid|
        #[trigger] stamp_stage(b, newborns, k, g) && g.can_place(c) && g.path_clear(
            p.x as int,
            p.y as int,
            c.x as int,
            c.y as int,
        )
}

/// The registry of `after` is that of `before` with the parents listed in
/// `src` (distinct, in order) charged, followed by one newborn of each, with
/// consecutive fresh ids, stamped onto the tiles in order.
pub open spec fn born_from(before: Grid, after: Grid, src: Seq<int>) -> bool {
    let n = before.organisms@.len() as int;
    let newborns = after.organisms@.subrange(n, after.organisms@.len() as int);
    &&& after.organisms@.len() == n + src.len()
    &&& forall|k: int| 0 <= k < src.len() ==> 0 <= #[trigger] src[k] < n
    &&& forall|k1: int, k2: int| 0 <= k1 < k2 < src.len() ==> #[trigger] src[k1] < #[trigger] src[k2]
    &&& forall|i: int|
        0 <= i < n ==> #[trigger] after.organisms@[i] == if src.contains(i) {
            paid(before.organisms@[i])
        } else {
            before.organisms@[i]
        }
    &&& forall|k: int| 0 <= k < src.len() ==> #[trigger] newborn_ok(before, newborns, src, k)
    &&& after.next_organism_id == before.next_organism_id + src.len()
    &&& after.cells@ == written(
        before.cells@,
        stamp_writes(before.width as int, before.height as int, newborns),
    )
    &&& after.pixels@ == painted(
        before.pixels@,
        stamp_writes(before.width as int, before.height as int, newborns),
    )
}

/// A single living parent whose cells all sit at its anchor, with the food it
/// needs, room under the cap and ids left, on open ground of twice its birth
/// distance around it.
pub open spec fn lone_parent_ready(b: Grid) -> bool {
    let p = b.organisms@[0];
    &&& b.organisms@.len() == 1
    &&& p.is_alive
    &&& p.food_collected >= p.food_needed()
    &&& b.max_organisms == 0 || b.max_organisms >= 2
    &&& b.next_organism_id < usize::MAX
    &&& plan_extent(p.cells@) == 0
    &&& open_ground(b, p.x as int, p.y as int, 2 * p.birth_distance())
}

/// Body cell `k` of `o` is a cell of a living organism.
pub open spec fn covers(o: Organism, k: int) -> bool {
    o.is_alive && 0 <= k < o.cells@.len()
}

/// The tile at `p` is in bounds and owned by `id`.
pub open spec fn owns_tile(g: Grid, id: usize, p: (int, int)) -> bool {
    g.in_bounds(p.0, p.1) && g.tile(p.0, p.1).owner == Some(id)
}

/// The tile at `(x, y)` lies under a body cell of a living organism of `g`'s
/// registry and is still owned by it.
pub open spec fn owned_footprint(g: Grid, x: int, y: int) -> bool {
    &&& g.in_bounds(x, y)
    &&& exists|i: int, k: int|
        0 <= i < g.organisms@.len() && #[trigger] covers(g.organisms@[i], k)
            && g.organisms@[i].position(k) == (x, y) && g.tile(x, y).owner == Some(
            g.organisms@[i].id,
        )
}

/// Every tile of `after` that differs from `before` lies under a living body
/// that owned it in `before`, and is now empty.
pub open spec fn cleared_only(before: Grid, after: Grid) -> bool {
    forall|x: int, y: int|
        after.in_bounds(x, y) && #[trigger] after.tile(x, y) != before.tile(x, y) ==> owned_footprint(
            before,
            x,
            y,
        ) && after.tile(x, y) == (Cell { state: CellState::Empty, owner: None })
}

/// The organism after its update phase: body, health and id are kept, it can
/// only die, and it is dead once it has reached its lifespan.
pub open spec fn aged(before: Organism, after: Organism, lifespan_multiplier: u32) -> bool {
    &&& after.id == before.id
    &&& after.cells == before.cells
    &&& after.health == before.health
    &&& after.is_alive ==> before.is_alive
    &&& after.lifetime >= after.lifespan(lifespan_multiplier) ==> !after.is_alive
}

impl Grid {
    /// Takes every living organism off the tiles: each tile at one of its body
    /// cells that it still owns becomes empty. Colors are left for the caller
    /// to resynchronize.
    fn clear_footprints(&mut self)
        requires
            old(self).wf(),
        ensures
            final(self).wf(),
            cleared(*old(self), *final(self)),
    {
        let ghost g0 = *self;
        let n = self.organisms.len();
        let mut i: usize = 0;
        while i < n
            invariant
                n == self.organisms@.len(),
                self.wf(),
                i <= n,
                self.cells@.len() == g0.cells@.len(),
                *self == (Grid { cells: self.cells, ..g0 }),
                cleared_only(g0, *self),
                forall|i2: int, k2: int|
                    0 <= i2 < i && #[trigger] covers(g0.organisms@[i2], k2) ==> !owns_tile(
                        *self,
                        g0.organisms@[i2].id,
                        g0.organisms@[i2].position(k2),
                    ),
            decreases n - i,
        {
            let m = self.organisms[i].cells.len();
            let mut k: usize = 0;
            while k < m
                invariant
                    n == self.organisms@.len(),
                    i < n,
                    m == self.organisms@[i as int].cells@.len(),
                    self.wf(),
                    k <= m,
                    self.cells@.len() == g0.cells@.len(),
                    *self == (Grid { cells: self.cells, ..g0 }),
                    cleared_only(g0, *self),
                    forall|i2: int, k2: int|
                        (0 <= i2 < i || (i2 == i && k2 < k)) && #[trigger] covers(
                            g0.organisms@[i2],
                            k2,
                        ) ==> !owns_tile(*self, g0.organisms@[i2].id, g0.organisms@[i2].position(k2)),
                decreases m - k,
            {
                if self.organisms[i].is_alive {
                    let id = self.organisms[i].id;
                    let c = self.organisms[i].cells[k];
                    assert(self.organisms@[i as int].wf());
                    assert(c.wf());
                    let (dx, dy) = c.get_rotated_position(self.organisms[i].rotation);
                    let cx = self.organisms[i].x as i64 + dx as i64;
                    let cy = self.organisms[i].y as i64 + dy as i64;
                    let ghost p = g0.organisms@[i as int].position(k as int);
                    assert(p == (cx as int, cy as int));
                    if let Some(j) = self.slot_of(cx, cy) {
                        let owned = match self.cells[j].owner {
                            Some(o) => o == id,
                            None => false,
                        };
                        if owned {
                            let ghost before = *self;
                            proof {
                                lemma_slot_in_range(self.width as int, self.height as int, p.0, p.1);
                                assert(self.tile(p.0, p.1) == self.cells@[j as int]);
                                assert(self.tile(p.0, p.1).owner == Some(id));
                                assert(self.tile(p.0, p.1) == g0.tile(p.0, p.1));
                                assert(g0.tile(p.0, p.1).owner == Some(id));
                                assert(covers(g0.organisms@[i as int], k as int));
                                assert(owned_footprint(g0, p.0, p.1));
                            }
                            self.cells.set(j, Cell { state: CellState::Empty, owner: None });
                            proof {
                                assert forall|x: int, y: int|
                                    self.in_bounds(x, y) && #[trigger] self.tile(x, y) != g0.tile(x, y)
                                    implies owned_footprint(g0, x, y) && self.tile(x, y) == (Cell {
                                    state: CellState::Empty,
                                    owner: None,
                                }) by {
                                    lemma_slot_in_range(self.width as int, self.height as int, x, y);
                                    if y * self.width + x != j {
                                        assert(before.tile(x, y) == self.tile(x, y));
                                    } else {
                                        lemma_same_slot(
                                            self.width as int,
                                            self.height as int,
                                            x,
                                            y,
                                            p.0,
                                            p.1,
                                        );
                                    }
                                }
                                assert forall|i2: int, k2: int|
                                    (0 <= i2 < i || (i2 == i && k2 < k + 1)) && #[trigger] covers(
                                        g0.organisms@[i2],
                                        k2,
                                    ) implies !owns_tile(
                                    *self,
                                    g0.organisms@[i2].id,
                                    g0.organisms@[i2].position(k2),
                                ) by {
                                    let q = g0.organisms@[i2].position(k2);
                                    if self.in_bounds(q.0, q.1) {
                                        lemma_slot_in_range(self.width as int, self.height as int, q.0, q.1);
                                        if q.1 * self.width + q.0 != j {
                                            assert(before.tile(q.0, q.1) == self.tile(q.0, q.1));
                                        }
                                    }
                                }
                            }
                        }
                    }
                }
                k += 1;
            }
            i += 1;
        }
        proof {
            assert forall|x: int, y: int| #[trigger] g0.in_bounds(x, y) implies self.tile(x, y) == if owned_footprint(
                g0,
                x,
                y,
            ) {
                Cell { state: CellState::Empty, owner: None }
            } else {
                g0.tile(x, y)
            } by {
                lemma_slot_in_range(self.width as int, self.height as int, x, y);
                if owned_footprint(g0, x, y) {
                    let (i2, k2) = choose|i2: int, k2: int|
                        0 <= i2 < g0.organisms@.len() && #[trigger] covers(g0.organisms@[i2], k2)
                            && g0.organisms@[i2].position(k2) == (x, y) && g0.tile(x, y).owner == Some(
                            g0.organisms@[i2].id,
                        );
                    assert(!owns_tile(*self, g0.organisms@[i2].id, (x, y)));
                } else {
                    if self.tile(x, y) != g0.tile(x, y) {
                        assert(owned_footprint(g0, x, y));
                    }
                }
            }
        }
    }

    /// Runs the update of every organism against the tiles as they stand.
    fn advance_organisms(&mut self)
        requires
            old(self).wf(),
        ensures
            final(self).wf(),
            advanced(*old(self), *final(self)),
    {
        let ghost g0 = *self;
        let mut orgs: Vec<Organism> = Vec::new();
        std::mem::swap(&mut orgs, &mut self.organisms);
        let n = orgs.len();
        let mut i: usize = 0;
        while i < n
            invariant
                n == g0.organisms@.len(),
                g0.wf(),
                i <= n,
                orgs@.len() == n,
                self.dims_ok(),
                forall|j: int|
                    0 <= j < n ==> (#[trigger] orgs@[j]).wf() && orgs@[j].vitals_ok(),
                forall|j: int|
                    0 <= j < i ==> aged(
                        g0.organisms@[j],
                        #[trigger] orgs@[j],
                        g0.lifespan_multiplier,
                    ) && updated(g0, g0.organisms@[j], orgs@[j], g0.lifespan_multiplier),
                forall|j: int| i <= j < n ==> #[trigger] orgs@[j] == g0.organisms@[j],
                *self == (Grid { organisms: self.organisms, ..g0 }),
            decreases n - i,
        {
            orgs[i].update(self, self.lifespan_multiplier);
            proof {
                lemma_updated_tiles(
                    *self,
                    g0,
                    g0.organisms@[i as int],
                    orgs@[i as int],
                    g0.lifespan_multiplier,
                );
            }
            i += 1;
        }
        std::mem::swap(&mut orgs, &mut self.organisms);
    }

    /// Stamps every living organism back onto the tiles, owned by it.
    fn restamp_organisms(&mut self)
        requires
            old(self).wf(),
        ensures
            final(self).wf(),
            restamped(*old(self), *final(self)),
    {
        let ghost g0 = *self;
        let mut orgs: Vec<Organism> = Vec::new();
        std::mem::swap(&mut orgs, &mut self.organisms);
        let n = orgs.len();
        let mut i: usize = 0;
        while i < n
            invariant
                g0.wf(),
                orgs@ == g0.organisms@,
                n == orgs@.len(),
                i <= n,
                self.cells@ == written(
                    g0.cells@,
                    stamp_writes(g0.width as int, g0.height as int, g0.organisms@.take(i as int)),
                ),
                self.pixels@ == painted(
                    g0.pixels@,
                    stamp_writes(g0.width as int, g0.height as int, g0.organisms@.take(i as int)),
                ),
                *self == (Grid {
                    cells: self.cells,
                    pixels: self.pixels,
                    organisms: self.organisms,
                    ..g0
                }),
            decreases n - i,
        {
            let ghost done = stamp_writes(g0.width as int, g0.height as int, g0.organisms@.take(i as int));
            proof {
                assert(g0.organisms@.take(i + 1).drop_last() =~= g0.organisms@.take(i as int));
                assert(g0.organisms@.take(i + 1).last() == orgs@[i as int]);
                lemma_written_len(g0.cells@, done);
                lemma_painted_len(g0.pixels@, done);
            }
            if orgs[i].is_alive {
                assert(orgs@[i as int].wf());
                self.paint_body(&orgs[i], false);
                proof {
                    let w = body_writes(g0.width as int, g0.height as int, orgs@[i as int], false);
                    lemma_written_concat(g0.cells@, done, w);
                    lemma_painted_concat(g0.pixels@, done, w);
                }
            }
            i += 1;
        }
        proof {
            assert(g0.organisms@.take(n as int) =~= g0.organisms@);
            let all = stamp_writes(g0.width as int, g0.height as int, g0.organisms@);
            lemma_written_len(g0.cells@, all);
            lemma_painted_len(g0.pixels@, all);
        }
        std::mem::swap(&mut orgs, &mut self.organisms);
    }

    /// Reproduction: each living organism, in order, while the population cap
    /// leaves room counting the offspring already born this tick and ids are
    /// left, attempts to produce an offspring (see `Organism::try_reproduce`)
    /// on the tiles as they stand, earlier offspring included. An offspring is
    /// registered with the next id and stamped at once; only then has its
    /// parent paid. Offspring follow the parents in the registry. There is no
    /// fallback search of further birth positions beyond the candidates of
    /// `try_reproduce`.
    fn process_reproduction(&mut self)
        requires
            old(self).wf(),
        ensures
            final(self).wf(),
            reproduced(*old(self), *final(self)),
    {
        let ghost g0 = *self;
        let count = self.organisms.len();
        let mut orgs: Vec<Organism> = Vec::new();
        std::mem::swap(&mut orgs, &mut self.organisms);
        let ghost mut src: Seq<int> = Seq::empty();
        proof {
            assert(stamp_writes(g0.width as int, g0.height as int, self.organisms@)
                =~= Seq::<(int, Cell)>::empty());
        }
        let n = orgs.len();
        let mut i: usize = 0;
        while i < n
            invariant
                g0.wf(),
                n == count,
                count == g0.organisms@.len(),
                orgs@.len() == n,
                i <= n,
                self.wf(),
                forall|j: int|
                    0 <= j < n ==> (#[trigger] orgs@[j]).wf() && orgs@[j].vitals_ok(),
                forall|j: int|
                    0 <= j < n ==> #[trigger] orgs@[j] == if src.contains(j) {
                        paid(g0.organisms@[j])
                    } else {
                        g0.organisms@[j]
                    },
                forall|k: int| 0 <= k < src.len() ==> 0 <= #[trigger] src[k] < i,
                forall|k1: int, k2: int|
                    0 <= k1 < k2 < src.len() ==> #[trigger] src[k1] < #[trigger] src[k2],
                self.organisms@.len() == src.len(),
                self.next_organism_id == g0.next_organism_id + src.len(),
                forall|k: int| 0 <= k < src.len() ==> #[trigger] newborn_ok(g0, self.organisms@, src, k),
                self.cells@ == written(
                    g0.cells@,
                    stamp_writes(g0.width as int, g0.height as int, self.organisms@),
                ),
                self.pixels@ == painted(
                    g0.pixels@,
                    stamp_writes(g0.width as int, g0.height as int, self.organisms@),
                ),
                g0.max_organisms > 0 && count <= g0.max_organisms ==> src.len() <= g0.max_organisms
                    - count,
                lone_parent_ready(g0) && i >= 1 ==> src.len() == 1,
                *self == (Grid {
                    cells: self.cells,
                    pixels: self.pixels,
                    organisms: self.organisms,
                    next_organism_id: self.next_organism_id,
                    ..g0
                }),
            decreases n - i,
        {
            let room = self.max_organisms == 0 || (count < self.max_organisms
                && self.organisms.len() < self.max_organisms - count);
            proof {
                assert(!src.contains(i as int));
                assert(orgs@[i as int] == g0.organisms@[i as int]);
                if lone_parent_ready(g0) && i == 0 {
                    if src.len() > 0 {
                        assert(0 <= src[0] < i);
                    }
                    assert(src.len() == 0);
                    assert(self.organisms@ =~= Seq::<Organism>::empty());
                    assert(stamp_writes(g0.width as int, g0.height as int, self.organisms@)
                        =~= Seq::<(int, Cell)>::empty());
                    assert(written(g0.cells@, Seq::<(int, Cell)>::empty()) == g0.cells@);
                    assert(self.cells@ =~= g0.cells@);
                    let p = g0.organisms@[0];
                    assert(self.in_bounds(p.x as int, p.y as int));
                    assert forall|px: int, py: int|
                        0 < chebyshev(p.x as int, p.y as int, px, py) <= 2 * p.birth_distance()
                        implies #[trigger] self.in_bounds(px, py) && self.tile(px, py).state
                        == CellState::Empty by {
                        assert(g0.in_bounds(px, py));
                    }
                    assert(open_ground(*self, p.x as int, p.y as int, 2 * p.birth_distance()));
                    assert(orgs@[0] == p);
                    assert(room);
                }
            }
            if orgs[i].is_alive && room && self.next_organism_id < usize::MAX {
                let ghost before = *self;
                let ghost nb = self.organisms@;
                let child = orgs[i].try_reproduce(self);
                proof {
                    if lone_parent_ready(g0) && i == 0 {
                        assert(child.is_some());
                    }
                }
                if let Some(c) = child {
                    let placed = self.add_organism(c);
                    proof {
                        assert(placed);
                        let c2 = with_assigned_id(c, before.next_organism_id);
                        let m = src.len();
                        assert(self.organisms@ == nb.push(c2));
                        assert forall|q: int| 0 <= q < c2.cells@.len() implies before.placeable(
                            #[trigger] c2.position(q).0,
                            c2.position(q).1,
                        ) by {
                            assert(c2.position(q) == c.position(q));
                        }
                        assert(nb.push(c2).take(m as int) =~= nb);
                        assert(stamp_stage(g0, self.organisms@, m as int, before));
                        let sw = stamp_writes(g0.width as int, g0.height as int, nb);
                        let bw = body_writes(g0.width as int, g0.height as int, c2, false);
                        lemma_written_concat(g0.cells@, sw, bw);
                        lemma_painted_concat(g0.pixels@, sw, bw);
                        assert(self.organisms@.drop_last() =~= nb);
                        let src2 = src.push(i as int);
                        assert forall|k: int| 0 <= k < src2.len() implies #[trigger] newborn_ok(
                            g0,
                            self.organisms@,
                            src2,
                            k,
                        ) by {
                            if k < m {
                                assert(newborn_ok(g0, nb, src, k));
                                assert(self.organisms@[k] == nb[k]);
                                assert(src2[k] == src[k]);
                                let g = choose|g: Grid|
                                    #[trigger] stamp_stage(g0, nb, k, g) && g.can_place(nb[k])
                                        && g.path_clear(
                                        g0.organisms@[src[k]].x as int,
                                        g0.organisms@[src[k]].y as int,
                                        nb[k].x as int,
                                        nb[k].y as int,
                                    );
                                assert(self.organisms@.take(k) =~= nb.take(k));
                                assert(stamp_stage(g0, self.organisms@, k, g));
                            } else {
                                assert(src2[k] == i);
                                assert(self.organisms@[k] == c2);
                                assert(before.path_clear(
                                    g0.organisms@[i as int].x as int,
                                    g0.organisms@[i as int].y as int,
                                    c2.x as int,
                                    c2.y as int,
                                ));
                            }
                        }
                        assert forall|j: int| 0 <= j < n implies #[trigger] orgs@[j] == if src2.contains(j) {
                            paid(g0.organisms@[j])
                        } else {
                            g0.organisms@[j]
                        } by {
                            if j == i {
                                assert(src2[m as int] == j);
                            } else {
                                if src2.contains(j) {
                                    let k = choose|k: int| 0 <= k < src2.len() && src2[k] == j;
                                    assert(k < m);
                                    assert(src.contains(j));
                                } else {
                                    if src.contains(j) {
                                        let k = choose|k: int| 0 <= k < src.len() && src[k] == j;
                                        assert(src2[k] == j);
                                    }
                                }
                            }
                        }
                        src = src2;
                    }
                }
            }
            i += 1;
        }
        let mut newborns: Vec<Organism> = Vec::new();
        std::mem::swap(&mut newborns, &mut self.organisms);
        std::mem::swap(&mut orgs, &mut self.organisms);
        let ghost nbs = newborns@;
        let ghost parents = self.organisms@;
        let ghost gx = *self;
        let ghost mut t: int = 0;
        while newborns.len() > 0
            invariant
                *self == (Grid { organisms: self.organisms, ..gx }),
                0 <= t <= nbs.len(),
                newborns@ == nbs.subrange(t, nbs.len() as int),
                self.organisms@ == parents + nbs.take(t),
                self.dims_ok(),
                forall|j: int|
                    0 <= j < parents.len() ==> (#[trigger] parents[j]).wf() && parents[j].vitals_ok(),
                forall|j: int|
                    0 <= j < nbs.len() ==> (#[trigger] nbs[j]).wf() && nbs[j].vitals_ok(),
            decreases newborns.len(),
        {
            let c = newborns.remove(0);
            self.organisms.push(c);
            proof {
                assert(c == nbs[t]);
                t = t + 1;
                assert(self.organisms@ =~= parents + nbs.take(t));
                assert(newborns@ =~= nbs.subrange(t, nbs.len() as int));
            }
        }
        proof {
            assert(nbs.take(t) =~= nbs);
            assert(self.organisms@.subrange(n as int, self.organisms@.len() as int) =~= nbs);
            assert forall|j: int| 0 <= j < self.organisms@.len() implies (#[trigger] self.organisms@[j]).wf()
                && self.organisms@[j].vitals_ok() by {
                if j < n {
                    assert(self.organisms@[j] == parents[j]);
                } else {
                    assert(self.organisms@[j] == nbs[j - n]);
                }
            }
            assert forall|j: int| 0 <= j < n implies #[trigger] self.organisms@[j] == if src.contains(j) {
                paid(g0.organisms@[j])
            } else {
                g0.organisms@[j]
            } by {
                assert(self.organisms@[j] == parents[j]);
            }
            let nbs2 = self.organisms@.subrange(n as int, self.organisms@.len() as int);
            assert(self.organisms@.len() == n + src.len());
            assert(forall|k: int| 0 <= k < src.len() ==> 0 <= #[trigger] src[k] < n);
            assert(forall|k: int| 0 <= k < src.len() ==> #[trigger] newborn_ok(g0, nbs2, src, k));
            assert(self.next_organism_id == g0.next_organism_id + src.len());
            assert(self.cells@ == written(
                g0.cells@,
                stamp_writes(g0.width as int, g0.height as int, nbs2),
            ));
            assert(self.pixels@ == painted(
                g0.pixels@,
                stamp_writes(g0.width as int, g0.height as int, nbs2),
            ));
            assert(born_from(g0, *self, src));
            if lone_parent_ready(g0) {
                assert(src.len() == 1);
            }
        }
    }

}

/// A producer cell offers food to each empty neighbor with a chance of one in
/// this many.
pub const PRODUCER_ODDS: u32 = 10;

/// Whether a tile grows food given a random `draw`: exactly when it is empty
/// and the draw falls below `chance`.
pub fn sprouts(tile: &Cell, draw: u32, chance: u32) -> (r: bool)
    ensures
        r == (tile.state == CellState::Empty && draw < chance),
{
    tile.state == CellState::Empty && draw < chance
}

impl Grid {
    /// The update phase: every living organism is taken off the tiles,
    /// updated against the tiles without the living bodies (see
    /// `Organism::update`), and stamped back.
    fn update_organisms(&mut self)
        requires
            old(self).wf(),
        ensures
            final(self).wf(),
            organisms_updated(*old(self), *final(self)),
            final(self).organisms@.len() == old(self).organisms@.len(),
            final(self).next_organism_id == old(self).next_organism_id,
            forall|i: int|
                0 <= i < final(self).organisms@.len() ==> (#[trigger] final(self).organisms@[i]).id
                    == old(self).organisms@[i].id,
            forall|i: int|
                0 <= i < final(self).organisms@.len() && (#[trigger] final(self).organisms@[i]).is_alive
                    ==> final(self).organisms@[i].lifetime < final(self).organisms@[i].lifespan(
                    old(self).lifespan_multiplier,
                ),
    {
        self.clear_footprints();
        let ghost g1 = *self;
        self.advance_organisms();
        let ghost g2 = *self;
        self.restamp_organisms();
        assert(cleared(*old(self), g1) && advanced(g1, g2) && restamped(g2, *self));
        assert forall|i: int|
            0 <= i < self.organisms@.len() && (#[trigger] self.organisms@[i]).is_alive implies self.organisms@[i].lifetime
                < self.organisms@[i].lifespan(old(self).lifespan_multiplier) by {
            assert(self.organisms@[i] == g2.organisms@[i]);
            assert(aged(g1.organisms@[i], g2.organisms@[i], g1.lifespan_multiplier));
        }
        assert forall|i: int| 0 <= i < self.organisms@.len() implies (#[trigger] self.organisms@[i]).id
            == old(self).organisms@[i].id by {
            assert(self.organisms@[i] == g2.organisms@[i]);
            assert(aged(g1.organisms@[i], g2.organisms@[i], g1.lifespan_multiplier));
        }
    }

    /// Food growth: each empty tile becomes food with a chance of
    /// `food_production_millionths` in a million; then each producer cell of a
    /// living organism offers food to each empty neighbor with a chance of one
    /// in `PRODUCER_ODDS`.
    fn grow_food(&mut self)
        requires
            old(self).wf(),
        ensures
            final(self).wf(),
            grown(*old(self), *final(self)),
    {
        let ghost g0 = *self;
        let n = self.cells.len();
        let mut j: usize = 0;
        while j < n
            invariant
                n == self.cells@.len(),
                self.wf(),
                j <= n,
                only_turned(g0.cells@, self.cells@, CellState::Empty, CellState::Food),
                grown_so_far(g0, *self),
                forall|q: int| j <= q < n ==> #[trigger] self.cells@[q] == g0.cells@[q],
                forall|q: int|
                    0 <= q < j && g0.food_production_millionths >= CHANCE_SCALE && (
                    #[trigger] g0.cells@[q]).state == CellState::Empty ==> self.cells@[q].state
                        == CellState::Food,
                *self == (Grid { cells: self.cells, pixels: self.pixels, ..g0 }),
            decreases n - j,
        {
            if sprouts(&self.cells[j], random_below(CHANCE_SCALE), self.food_production_millionths) {
                self.write_slot(j, Cell { state: CellState::Food, owner: None });
            }
            j += 1;
        }
        let mut spots: Vec<usize> = Vec::new();
        let m = self.organisms.len();
        let mut i: usize = 0;
        while i < m
            invariant
                m == self.organisms@.len(),
                self.wf(),
                i <= m,
                self.organisms == g0.organisms,
                only_turned(g0.cells@, self.cells@, CellState::Empty, CellState::Food),
                grown_so_far(g0, *self),
                forall|q: int|
                    0 <= q < n && g0.food_production_millionths >= CHANCE_SCALE && (
                    #[trigger] g0.cells@[q]).state == CellState::Empty ==> self.cells@[q].state
                        == CellState::Food,
                forall|s: int|
                    0 <= s < spots@.len() ==> #[trigger] spots@[s] < n && g0.cells@[spots@[s] as int].state
                        == CellState::Empty && producer_slot(g0, spots@[s] as int),
                n == self.cells@.len(),
                *self == (Grid { cells: self.cells, pixels: self.pixels, ..g0 }),
            decreases m - i,
        {
            if self.organisms[i].is_alive {
                let len = self.organisms[i].cells.len();
                let mut k: usize = 0;
                while k < len
                    invariant
                        m == self.organisms@.len(),
                        i < m,
                        len == self.organisms@[i as int].cells@.len(),
                        self.organisms@[i as int].is_alive,
                        self.organisms == g0.organisms,
                        self.wf(),
                        k <= len,
                        only_turned(g0.cells@, self.cells@, CellState::Empty, CellState::Food),
                        grown_so_far(g0, *self),
                        forall|q: int|
                            0 <= q < n && g0.food_production_millionths >= CHANCE_SCALE && (
                            #[trigger] g0.cells@[q]).state == CellState::Empty ==> self.cells@[q].state
                                == CellState::Food,
                        forall|s: int|
                            0 <= s < spots@.len() ==> #[trigger] spots@[s] < n
                                && g0.cells@[spots@[s] as int].state == CellState::Empty
                                && producer_slot(g0, spots@[s] as int),
                        n == self.cells@.len(),
                        *self == (Grid { cells: self.cells, pixels: self.pixels, ..g0 }),
                    decreases len - k,
                {
                    let c = self.organisms[i].cells[k];
                    if c.state == CellState::Producer {
                        assert(self.organisms@[i as int].wf());
                        assert(c.wf());
                        let (dx, dy) = c.get_rotated_position(self.organisms[i].rotation);
                        let cx = self.organisms[i].x as i64 + dx as i64;
                        let cy = self.organisms[i].y as i64 + dy as i64;
                        let mut d: usize = 0;
                        while d < 4
                            invariant
                                i < m,
                                k < len,
                                m == g0.organisms@.len(),
                                len == g0.organisms@[i as int].cells@.len(),
                                g0.organisms@[i as int].is_alive,
                                g0.organisms@[i as int].cells@[k as int].state == CellState::Producer,
                                cx == g0.organisms@[i as int].position(k as int).0,
                                cy == g0.organisms@[i as int].position(k as int).1,
                                self.wf(),
                                d <= 4,
                                -0x1_0000_0000_0000 <= cx <= 0x1_0000_0000_0000,
                                -0x1_0000_0000_0000 <= cy <= 0x1_0000_0000_0000,
                                only_turned(g0.cells@, self.cells@, CellState::Empty, CellState::Food),
                                grown_so_far(g0, *self),
                                forall|q: int|
                                    0 <= q < n && g0.food_production_millionths >= CHANCE_SCALE && (
                                    #[trigger] g0.cells@[q]).state == CellState::Empty ==> self.cells@[q].state
                                        == CellState::Food,
                                forall|s: int|
                                    0 <= s < spots@.len() ==> #[trigger] spots@[s] < n
                                        && g0.cells@[spots@[s] as int].state == CellState::Empty
                                        && producer_slot(g0, spots@[s] as int),
                                n == self.cells@.len(),
                                *self == (Grid { cells: self.cells, pixels: self.pixels, ..g0 }),
                            decreases 4 - d,
                        {
                            let (ex, ey) = neighbor(d);
                            let ghost reach = cell_reach(g0.organisms@[i as int], k as int, d as int);
                            assert(reach == (cx + ex, cy + ey));
                            if let Some(t) = self.slot_of(cx + ex, cy + ey) {
                                if sprouts(&self.cells[t], random_below(PRODUCER_ODDS), 1) {
                                    assert(g0.cells@[t as int].state == CellState::Empty);
                                    assert(produces(g0.organisms@[i as int], k as int, d as int));
                                    assert(producer_slot(g0, t as int));
                                    spots.push(t);
                                }
                            }
                            d += 1;
                        }
                    }
                    k += 1;
                }
            }
            i += 1;
        }
        let mut s: usize = 0;
        while s < spots.len()
            invariant
                self.wf(),
                s <= spots@.len(),
                only_turned(g0.cells@, self.cells@, CellState::Empty, CellState::Food),
                grown_so_far(g0, *self),
                forall|q: int|
                    0 <= q < n && g0.food_production_millionths >= CHANCE_SCALE && (
                    #[trigger] g0.cells@[q]).state == CellState::Empty ==> self.cells@[q].state
                        == CellState::Food,
                forall|q: int|
                    0 <= q < spots@.len() ==> #[trigger] spots@[q] < n && g0.cells@[spots@[q] as int].state
                        == CellState::Empty && producer_slot(g0, spots@[q] as int),
                n == self.cells@.len(),
                *self == (Grid { cells: self.cells, pixels: self.pixels, ..g0 }),
            decreases spots.len() - s,
        {
            let t = spots[s];
            self.write_slot(t, Cell { state: CellState::Food, owner: None });
            s += 1;
        }
    }

    /// Advances the simulation by one tick: eating, combat, the update phase,
    /// reproduction, removal of the dead, food growth, and finally every color
    /// is recomputed from its tile. Afterwards every registered organism is
    /// alive with `0 < health <= len(cells)`, and a population within a
    /// positive cap stays within it.
    pub fn step(&mut self)
        requires
            old(self).wf(),
        ensures
            final(self).wf(),
            ticked(*old(self), *final(self)),
            old(self).max_organisms > 0 && old(self).organisms@.len() <= old(self).max_organisms
                ==> final(self).organisms@.len() <= final(self).max_organisms,
            forall|i: int|
                0 <= i < final(self).organisms@.len() ==> {
                    let o = #[trigger] final(self).organisms@[i];
                    o.is_alive && 0 < o.health <= o.cells@.len()
                },
            final(self).colors_synced(),
            final(self).next_organism_id >= old(self).next_organism_id,
            old(self).ids_fresh() ==> final(self).ids_fresh(),
            forall|i: int|
                0 <= i < final(self).organisms@.len() ==> (#[trigger] final(self).organisms@[i]).lifetime
                    < final(self).organisms@[i].lifespan(final(self).lifespan_multiplier),
            final(self).lifespan_multiplier > 0 ==> forall|i: int|
                0 <= i < final(self).organisms@.len() ==> (#[trigger] final(self).organisms@[i]).lifetime
                    < final(self).organisms@[i].cells@.len() * final(self).lifespan_multiplier,
            final(self).lifespan_multiplier == old(self).lifespan_multiplier,
    {
        let ghost g0 = *self;
        self.process_eating();
        let ghost g1 = *self;
        self.process_killer_cells();
        let ghost g2 = *self;
        self.update_organisms();
        let ghost g3 = *self;
        self.process_reproduction();
        let ghost g4 = *self;
        proof {
            let src = choose|src: Seq<int>| #[trigger] born_from(g3, g4, src);
            if g0.ids_fresh() {
                assert(ids_ok(g3.organisms@, g3.next_organism_id as int)) by {
                    assert forall|i: int| 0 <= i < g3.organisms@.len() implies (#[trigger] g3.organisms@[i]).id
                        == g0.organisms@[i].id by {
                        assert(g3.organisms@[i].id == g2.organisms@[i].id);
                        assert(g2.organisms@[i] == after_combat(g1, g1.organisms@[i]));
                        assert(fed(g0, g0.organisms@[i], g1.organisms@[i]));
                    }
                }
                let n = g3.organisms@.len() as int;
                let nb = g4.organisms@.subrange(n, g4.organisms@.len() as int);
                assert forall|i: int| 0 <= i < g4.organisms@.len() implies (#[trigger] g4.organisms@[i]).id
                    == if i < n {
                    g3.organisms@[i].id as int
                } else {
                    g3.next_organism_id + (i - n)
                } by {
                    if i < n {
                        assert(g4.organisms@[i] == paid(g3.organisms@[i]) || g4.organisms@[i]
                            == g3.organisms@[i]);
                    } else {
                        assert(g4.organisms@[i] == nb[i - n]);
                        assert(newborn_ok(g3, nb, src, i - n));
                    }
                }
                assert(ids_ok(g4.organisms@, g4.next_organism_id as int));
            }
            let n = g3.organisms@.len() as int;
            let nb = g4.organisms@.subrange(n, g4.organisms@.len() as int);
            assert forall|i: int| 0 <= i < g4.organisms@.len() && (#[trigger] g4.organisms@[i]).is_alive
                implies g4.organisms@[i].lifetime < g4.organisms@[i].lifespan(g0.lifespan_multiplier) by {
                if i < n {
                    assert(g4.organisms@[i] == paid(g3.organisms@[i]) || g4.organisms@[i]
                        == g3.organisms@[i]);
                } else {
                    assert(g4.organisms@[i] == nb[i - n]);
                    assert(newborn_ok(g3, nb, src, i - n));
                }
            }
        }
        self.remove_dead_organisms();
        let ghost g5 = *self;
        proof {
            if g0.ids_fresh() {
                lemma_alive_only_ids(g4.organisms@, g4.next_organism_id as int);
            }
            let w = burial_writes(g4.width as int, g4.height as int, g4.organisms@);
            lemma_written_len(g4.cells@, w);
            lemma_painted_len(g4.pixels@, w);
            lemma_alive_only(g4.organisms@);
            assert forall|i: int| 0 <= i < self.organisms@.len() implies (#[trigger] self.organisms@[i]).wf()
                && self.organisms@[i].vitals_ok() && self.organisms@[i].is_alive by {
                assert(alive_only(g4.organisms@)[i] == self.organisms@[i]);
                let j = choose|j: int|
                    0 <= j < g4.organisms@.len() && g4.organisms@[j] == self.organisms@[i];
                assert(g4.organisms@[j].wf());
            }
            assert forall|i: int| 0 <= i < self.organisms@.len() implies (#[trigger] self.organisms@[i]).lifetime
                < self.organisms@[i].lifespan(g0.lifespan_multiplier) by {
                assert(alive_only(g4.organisms@)[i] == self.organisms@[i]);
                let j = choose|j: int|
                    0 <= j < g4.organisms@.len() && g4.organisms@[j] == self.organisms@[i];
                assert(g4.organisms@[j].is_alive);
            }
        }
        self.grow_food();
        let ghost g6 = *self;
        self.sync_pixels();
        assert(tick_through(g0, g1, g2, g3, g4, g5, g6, *self));
        assert forall|i: int| 0 <= i < self.organisms@.len() implies {
            let o = #[trigger] self.organisms@[i];
            o.is_alive && 0 < o.health <= o.cells@.len()
        } by {
            assert(self.organisms@[i].vitals_ok());
            assert(g5.organisms@[i].is_alive);
        }
        if self.lifespan_multiplier > 0 {
            assert forall|i: int| 0 <= i < self.organisms@.len() implies (#[trigger] self.organisms@[i]).lifetime
                < self.organisms@[i].cells@.len() * self.lifespan_multiplier by {
                let o = self.organisms@[i];
                assert(o.vitals_ok() && o.is_alive);
                assert(o.cells@.len() * self.lifespan_multiplier >= 1) by (nonlinear_arith)
                    requires
                        o.cells@.len() >= 1,
                        self.lifespan_multiplier >= 1,
                ;
            }
        }
    }
}

/// The eating phase took `before` to `after` (see `process_eating`).
pub open spec fn ate(before: Grid, after: Grid) -> bool {
    &&& after.organisms@.len() == before.organisms@.len()
    &&& forall|i: int|
        0 <= i < before.organisms@.len() ==> fed(
            before,
            before.organisms@[i],
            #[trigger] after.organisms@[i],
        )
    &&& forall|x: int, y: int|
        #[trigger] before.in_bounds(x, y) ==> after.tile(x, y) == if eaten_at(before, x, y) {
            Cell { state: CellState::Empty, owner: None }
        } else {
            before.tile(x, y)
        }
    &&& forall|x: int, y: int|
        #[trigger] before.in_bounds(x, y) ==> after.pixel(x, y) == if eaten_at(before, x, y) {
            color_of(CellState::Empty)
        } else {
            before.pixel(x, y)
        }
    &&& only_turned(before.cells@, after.cells@, CellState::Food, CellState::Empty)
    &&& after == (Grid {
        cells: after.cells,
        pixels: after.pixels,
        organisms: after.organisms,
        ..before
    })
}

/// The combat phase took `before` to `after` (see `process_killer_cells`).
pub open spec fn fought(before: Grid, after: Grid) -> bool {
    &&& after.organisms@.len() == before.organisms@.len()
    &&& forall|i: int|
        0 <= i < before.organisms@.len() ==> #[trigger] after.organisms@[i] == after_combat(
            before,
            before.organisms@[i],
        )
    &&& after == (Grid { organisms: after.organisms, ..before })
}

/// The living bodies were taken off the tiles of `before` (see
/// `clear_footprints`).
pub open spec fn cleared(before: Grid, after: Grid) -> bool {
    &&& forall|x: int, y: int|
        #[trigger] before.in_bounds(x, y) ==> after.tile(x, y) == if owned_footprint(before, x, y) {
            Cell { state: CellState::Empty, owner: None }
        } else {
            before.tile(x, y)
        }
    &&& after.cells@.len() == before.cells@.len()
    &&& after == (Grid { cells: after.cells, ..before })
}

/// Every organism of `before` went through its update (see
/// `advance_organisms`).
pub open spec fn advanced(before: Grid, after: Grid) -> bool {
    &&& after.organisms@.len() == before.organisms@.len()
    &&& forall|i: int|
        0 <= i < before.organisms@.len() ==> aged(
            before.organisms@[i],
            #[trigger] after.organisms@[i],
            before.lifespan_multiplier,
        ) && updated(before, before.organisms@[i], after.organisms@[i], before.lifespan_multiplier)
    &&& after == (Grid { organisms: after.organisms, ..before })
}

/// The living bodies of `before` were stamped onto its tiles (see
/// `restamp_organisms`).
pub open spec fn restamped(before: Grid, after: Grid) -> bool {
    &&& after.cells@ == written(
        before.cells@,
        stamp_writes(before.width as int, before.height as int, before.organisms@),
    )
    &&& after.pixels@ == painted(
        before.pixels@,
        stamp_writes(before.width as int, before.height as int, before.organisms@),
    )
    &&& after == (Grid { cells: after.cells, pixels: after.pixels, ..before })
}

/// The update phase: bodies taken off, organisms updated, bodies stamped
/// back.
pub open spec fn organisms_updated(before: Grid, after: Grid) -> bool {
    exists|g1: Grid, g2: Grid|
        #![trigger advanced(g1, g2)]
        cleared(before, g1) && advanced(g1, g2) && restamped(g2, after)
}

/// The reproduction phase took `before` to `after` (see
/// `process_reproduction`): some distinct parents paid and each got one
/// newborn, appended and stamped in order; a population within a positive cap
/// stays within it; a lone ready parent on open ground gets its offspring.
pub open spec fn reproduced(before: Grid, after: Grid) -> bool {
    &&& exists|src: Seq<int>| #[trigger] born_from(before, after, src)
    &&& before.max_organisms > 0 && before.organisms@.len() <= before.max_organisms
        ==> after.organisms@.len() <= before.max_organisms
    &&& after.organisms@.len() >= before.organisms@.len()
    &&& after.next_organism_id >= before.next_organism_id
    &&& lone_parent_ready(before) ==> after.organisms@.len() == 2
    &&& after == (Grid {
        cells: after.cells,
        pixels: after.pixels,
        organisms: after.organisms,
        next_organism_id: after.next_organism_id,
        ..before
    })
}

/// The dead were removed from `before` and their bodies turned into food (see
/// `remove_dead_organisms`).
pub open spec fn buried(before: Grid, after: Grid) -> bool {
    &&& after.organisms@ == alive_only(before.organisms@)
    &&& after.cells@ == written(
        before.cells@,
        burial_writes(before.width as int, before.height as int, before.organisms@),
    )
    &&& after.pixels@ == painted(
        before.pixels@,
        burial_writes(before.width as int, before.height as int, before.organisms@),
    )
    &&& after == (Grid {
        cells: after.cells,
        pixels: after.pixels,
        organisms: after.organisms,
        ..before
    })
}

/// Body cell `k` of `o` is a producer of a living organism and `d` a scan
/// direction.
pub open spec fn produces(o: Organism, k: int, d: int) -> bool {
    &&& o.is_alive
    &&& 0 <= k < o.cells@.len()
    &&& o.cells@[k].state == CellState::Producer
    &&& 0 <= d < 4
}

/// Tile index `j` belongs to an in-bounds neighbor of a producer cell of a
/// living organism of `g`'s registry.
pub open spec fn producer_slot(g: Grid, j: int) -> bool {
    exists|i: int, k: int, d: int|
        0 <= i < g.organisms@.len() && #[trigger] produces(g.organisms@[i], k, d) && g.in_bounds(
            cell_reach(g.organisms@[i], k, d).0,
            cell_reach(g.organisms@[i], k, d).1,
        ) && j == cell_reach(g.organisms@[i], k, d).1 * g.width + cell_reach(g.organisms@[i], k, d).0
}

/// Every tile of `after` that differs from `before` gained food by chance:
/// environmental growth is on, or the tile neighbors a producer.
pub open spec fn grown_so_far(before: Grid, after: Grid) -> bool {
    forall|j: int|
        0 <= j < before.cells@.len() && #[trigger] after.cells@[j] != before.cells@[j] ==> (
        before.food_production_millionths > 0 || producer_slot(before, j))
}

/// Food grew on empty tiles of `before` only (see `grow_food`): with
/// environmental growth off only next to producers, and on every empty tile
/// when its chance is certain.
pub open spec fn grown(before: Grid, after: Grid) -> bool {
    &&& only_turned(before.cells@, after.cells@, CellState::Empty, CellState::Food)
    &&& grown_so_far(before, after)
    &&& before.food_production_millionths >= CHANCE_SCALE ==> forall|j: int|
        0 <= j < before.cells@.len() && (#[trigger] before.cells@[j]).state == CellState::Empty
            ==> after.cells@[j].state == CellState::Food
    &&& after.pixels@.len() == before.pixels@.len()
    &&& after == (Grid { cells: after.cells, pixels: after.pixels, ..before })
}

/// One tick through the given intermediate grids: eating, combat, the update
/// phase, reproduction, removal of the dead, food growth, and colors
/// recomputed.
pub open spec fn tick_through(
    g0: Grid,
    g1: Grid,
    g2: Grid,
    g3: Grid,
    g4: Grid,
    g5: Grid,
    g6: Grid,
    g7: Grid,
) -> bool {
    &&& ate(g0, g1)
    &&& fought(g1, g2)
    &&& organisms_updated(g2, g3)
    &&& reproduced(g3, g4)
    &&& buried(g4, g5)
    &&& grown(g5, g6)
    &&& g7 == (Grid { pixels: g7.pixels, ..g6 })
    &&& g7.colors_synced()
}

/// `after` is `before` advanced by one tick, for some outcome of the random
/// draws.
pub open spec fn ticked(before: Grid, after: Grid) -> bool {
    exists|g1: Grid, g2: Grid, g3: Grid, g4: Grid, g5: Grid, g6: Grid|
        #[trigger] tick_through(before, g1, g2, g3, g4, g5, g6, after)
}

/// One tick keeps the population cap and keeps a population within a
/// positive cap within it.
pub proof fn lemma_tick_keeps_cap(before: Grid, after: Grid)
    requires
        ticked(before, after),
    ensures
        after.max_organisms == before.max_organisms,
        before.max_organisms > 0 && before.organisms@.len() <= before.max_organisms
            ==> after.organisms@.len() <= before.max_organisms,
{
    let (g1, g2, g3, g4, g5, g6) = choose|g1: Grid, g2: Grid, g3: Grid, g4: Grid, g5: Grid, g6: Grid|
        #[trigger] tick_through(before, g1, g2, g3, g4, g5, g6, after);
    let (h1, h2) = choose|h1: Grid, h2: Grid|
        #![trigger advanced(h1, h2)]
        cleared(g2, h1) && advanced(h1, h2) && restamped(h2, g3);
    assert(h1.organisms == g2.organisms);
    assert(g3.organisms == h2.organisms);
    lemma_alive_only(g4.organisms@);
}

/// Population cap: along any run of ticks that starts with a population
/// within a positive cap, every grid of the run keeps the population within
/// that cap.
pub proof fn lemma_population_cap_over_run(run: Seq<Grid>)
    requires
        run.len() > 0,
        run[0].max_organisms > 0,
        run[0].organisms@.len() <= run[0].max_organisms,
        forall|i: int| 0 <= i < run.len() - 1 ==> #[trigger] ticked(run[i], run[i + 1]),
    ensures
        forall|i: int|
            0 <= i < run.len() ==> #[trigger] run[i].organisms@.len() <= run[0].max_organisms
                && run[i].max_organisms == run[0].max_organisms,
    decreases run.len(),
{
    if run.len() > 1 {
        let front = run.drop_last();
        assert forall|i: int| 0 <= i < front.len() - 1 implies #[trigger] ticked(front[i], front[i + 1]) by {
            assert(ticked(run[i], run[i + 1]));
        }
        lemma_population_cap_over_run(front);
        let k = run.len() - 2;
        assert(ticked(run[k], run[k + 1]));
        assert(run[k] == front[k]);
        lemma_tick_keeps_cap(run[k], run[k + 1]);
        assert forall|i: int| 0 <= i < run.len() implies #[trigger] run[i].organisms@.len()
            <= run[0].max_organisms && run[i].max_organisms == run[0].max_organisms by {
            if i < run.len() - 1 {
                assert(run[i] == front[i]);
            }
        }
    }
}

/// After a tick, the registry holds living organisms only: the dead were
/// removed in the cleanup phase.
pub proof fn lemma_tick_leaves_only_living(before: Grid, after: Grid)
    requires
        ticked(before, after),
    ensures
        forall|i: int| 0 <= i < after.organisms@.len() ==> (#[trigger] after.organisms@[i]).is_alive,
{
    let (g1, g2, g3, g4, g5, g6) = choose|g1: Grid, g2: Grid, g3: Grid, g4: Grid, g5: Grid, g6: Grid|
        #[trigger] tick_through(before, g1, g2, g3, g4, g5, g6, after);
    lemma_alive_only(g4.organisms@);
    assert(after.organisms == g5.organisms);
}

} // verus!
