use vstd::prelude::*;

use crate::cell::{color_of, Cell, CellState};
use crate::organism::{placed_at, can_step, stalled, turned_in_place, updated, Direction, Organism};
use crate::tiles::{
    body_writes, lemma_painted_len, lemma_slot_in_range, lemma_written_len, lemma_written_step,
    on_grid, painted, slot, written,
};

verus! {

/// Chances of random events are counted in millionths.
pub const CHANCE_SCALE: u32 = 1000000;

/// The world: a row-major matrix of tiles, the colors derived from them, the
/// registry of organisms and the tunables of the simulation.
pub struct Grid {
    pub width: u32,
    pub height: u32,
    pub pixels: Vec<u32>,
    pub cells: Vec<Cell>,
    /// Chance, in millionths, that an empty tile grows food in one tick.
    pub food_production_millionths: u32,
    pub organisms: Vec<Organism>,
    /// The id that the next organism placed without one receives.
    pub next_organism_id: usize,
    /// Population cap; 0 means no cap.
    pub max_organisms: usize,
    pub lifespan_multiplier: u32,
    pub insta_kill: bool,
    pub food_blocks_reproduction: bool,
}

/// The organism as the registry holds it once placed: given the next id when
/// it has none.
pub open spec fn with_assigned_id(o: Organism, next_id: usize) -> Organism {
    if o.id == 0 {
        Organism { id: next_id, ..o }
    } else {
        o
    }
}

impl Grid {
    /// The tile and color buffers match the dimensions, whose product fits in
    /// `u32`.
    pub open spec fn dims_ok(&self) -> bool {
        &&& self.width * self.height <= u32::MAX
        &&& self.cells@.len() == self.width * self.height
        &&& self.pixels@.len() == self.width * self.height
    }

    /// Well-formed: sound dimensions, and every registered organism has a
    /// sound body plan and sound vitals.
    pub open spec fn wf(&self) -> bool {
        &&& self.dims_ok()
        &&& forall|i: int|
            0 <= i < self.organisms@.len() ==> (#[trigger] self.organisms@[i]).wf()
                && self.organisms@[i].vitals_ok()
    }

    pub open spec fn in_bounds(&self, x: int, y: int) -> bool {
        on_grid(self.width as int, self.height as int, x, y)
    }

    /// The tile at `(x, y)`, meaningful when the position is in bounds.
    pub open spec fn tile(&self, x: int, y: int) -> Cell {
        self.cells@[y * self.width + x]
    }

    /// The color at `(x, y)`, meaningful when the position is in bounds.
    pub open spec fn pixel(&self, x: int, y: int) -> u32 {
        self.pixels@[y * self.width + x]
    }

    /// In bounds and empty or food.
    pub open spec fn clear_at(&self, x: int, y: int) -> bool {
        &&& self.in_bounds(x, y)
        &&& (self.tile(x, y).state == CellState::Empty || self.tile(x, y).state == CellState::Food)
    }

    /// In bounds and holding food.
    pub open spec fn food_at(&self, x: int, y: int) -> bool {
        self.in_bounds(x, y) && self.tile(x, y).state == CellState::Food
    }

    /// The organism with id `id` may occupy `(x, y)`: it is clear, or a tile
    /// that the organism already owns.
    pub open spec fn free_for(&self, id: usize, x: int, y: int) -> bool {
        self.clear_at(x, y) || (self.in_bounds(x, y) && self.tile(x, y).owner == Some(id))
    }

    /// A new organism may be placed on `(x, y)`: in bounds and empty, or food
    /// when food does not block placement.
    pub open spec fn placeable(&self, x: int, y: int) -> bool {
        &&& self.in_bounds(x, y)
        &&& (self.tile(x, y).state == CellState::Empty || (self.tile(x, y).state
            == CellState::Food && !self.food_blocks_reproduction))
    }

    /// Every body cell of `o` would be free for it with the anchor at
    /// `(ax, ay)` and the body turned by `rotation`.
    pub open spec fn room_for(&self, o: Organism, ax: int, ay: int, rotation: Direction) -> bool {
        forall|i: int|
            0 <= i < o.cells@.len() ==> self.free_for(
                o.id,
                #[trigger] o.spot(i, ax, ay, rotation).0,
                o.spot(i, ax, ay, rotation).1,
            )
    }

    /// Every body cell of `o`, where it stands, lies on a placeable tile.
    pub open spec fn can_place(&self, o: Organism) -> bool {
        forall|i: int|
            0 <= i < o.cells@.len() ==> self.placeable(
                #[trigger] o.position(i).0,
                o.position(i).1,
            )
    }

    /// Each color equals the color of its tile's state.
    pub open spec fn colors_synced(&self) -> bool {
        forall|i: int|
            0 <= i < self.cells@.len() ==> #[trigger] self.pixels@[i] == color_of(
                self.cells@[i].state,
            )
    }

    /// Registered ids are pairwise distinct and below the id counter.
    pub open spec fn ids_fresh(&self) -> bool {
        ids_ok(self.organisms@, self.next_organism_id as int)
    }

    /// The population cap allows one more organism.
    pub open spec fn below_cap(&self) -> bool {
        self.max_organisms == 0 || self.organisms@.len() < self.max_organisms
    }

    /// A grid of `width` by `height` empty tiles, each colored as empty, with no organisms
    /// and the default tunables: food grows with a chance of 5000 in a million,
    /// at most 1000 organisms, lifespan multiplier 100, no instant kills, and
    /// food blocks placement. Ids are handed out from 0.
    pub fn new(width: u32, height: u32) -> (r: Grid)
        requires
            width * height <= u32::MAX,
        ensures
            r.wf(),
            r.width == width,
            r.height == height,
            forall|i: int|
                0 <= i < r.cells@.len() ==> #[trigger] r.cells@[i] == (Cell {
                    state: CellState::Empty,
                    owner: None,
                }),
            r.colors_synced(),
            r.ids_fresh(),
            r.organisms@.len() == 0,
            r.next_organism_id == 0,
            r.food_production_millionths == 5000,
            r.max_organisms == 1000,
            r.lifespan_multiplier == 100,
            !r.insta_kill,
            r.food_blocks_reproduction,
    {
        let n = (width * height) as usize;
        let mut cells: Vec<Cell> = Vec::new();
        let mut pixels: Vec<u32> = Vec::new();
        let mut i: usize = 0;
        while i < n
            invariant
                i <= n,
                cells@.len() == i,
                pixels@.len() == i,
                forall|j: int|
                    0 <= j < i ==> #[trigger] cells@[j] == (Cell {
                        state: CellState::Empty,
                        owner: None,
                    }),
                forall|j: int| 0 <= j < i ==> #[trigger] pixels@[j] == color_of(CellState::Empty),
            decreases n - i,
        {
            cells.push(Cell { state: CellState::Empty, owner: None });
            pixels.push(CellState::Empty.to_color());
            i += 1;
        }
        Grid {
            width,
            height,
            pixels,
            cells,
            food_production_millionths: 5000,
            organisms: Vec::new(),
            next_organism_id: 0,
            max_organisms: 1000,
            lifespan_multiplier: 100,
            insta_kill: false,
            food_blocks_reproduction: true,
        }
    }

    /// Number of organisms in the registry.
    pub fn organism_count(&self) -> (r: usize)
        ensures
            r == self.organisms@.len(),
    {
        self.organisms.len()
    }

    /// Sets whether food tiles block the placement of new organisms.
    pub fn set_food_blocks_reproduction(&mut self, blocks: bool)
        ensures
            *final(self) == (Grid { food_blocks_reproduction: blocks, ..*old(self) }),
    {
        self.food_blocks_reproduction = blocks;
    }

    /// The index of `(x, y)` in the tile matrix, when it is in bounds.
    pub(crate) fn slot_of(&self, x: i64, y: i64) -> (r: Option<usize>)
        requires
            self.dims_ok(),
        ensures
            r.is_some() == self.in_bounds(x as int, y as int),
            r.is_some() ==> r.unwrap() == y * self.width + x && r.unwrap() < self.cells@.len(),
    {
        if 0 <= x && x < self.width as i64 && 0 <= y && y < self.height as i64 {
            proof {
                lemma_slot_in_range(self.width as int, self.height as int, x as int, y as int);
            }
            Some((y as u32 * self.width + x as u32) as usize)
        } else {
            None
        }
    }

    /// Writes tile `i` and its color.
    pub(crate) fn write_slot(&mut self, i: usize, c: Cell)
        requires
            old(self).dims_ok(),
            i < old(self).cells@.len(),
        ensures
            final(self).cells@ == old(self).cells@.update(i as int, c),
            final(self).pixels@ == old(self).pixels@.update(i as int, color_of(c.state)),
            *final(self) == (Grid {
                cells: final(self).cells,
                pixels: final(self).pixels,
                ..*old(self)
            }),
    {
        self.cells.set(i, c);
        self.pixels.set(i, c.state.to_color());
    }

    /// Sets the color at `(x, y)`; out-of-bounds positions are ignored.
    pub fn set_pixel(&mut self, x: u32, y: u32, color: u32)
        requires
            old(self).dims_ok(),
        ensures
            old(self).in_bounds(x as int, y as int) ==> final(self).pixels@ == old(
                self,
            ).pixels@.update(y * old(self).width + x, color),
            !old(self).in_bounds(x as int, y as int) ==> final(self).pixels@ == old(self).pixels@,
            *final(self) == (Grid { pixels: final(self).pixels, ..*old(self) }),
    {
        if let Some(i) = self.slot_of(x as i64, y as i64) {
            self.pixels.set(i, color);
        }
    }

    /// The color at `(x, y)`, or 0 out of bounds.
    pub fn get_pixel(&self, x: u32, y: u32) -> (r: u32)
        requires
            self.dims_ok(),
        ensures
            r == if self.in_bounds(x as int, y as int) {
                self.pixels@[y * self.width + x]
            } else {
                0
            },
    {
        match self.slot_of(x as i64, y as i64) {
            Some(i) => self.pixels[i],
            None => 0,
        }
    }

    /// Writes the tile at `(x, y)` and its color; out-of-bounds positions are
    /// ignored.
    pub fn set_cell(&mut self, x: u32, y: u32, state: CellState, owner: Option<usize>)
        requires
            old(self).dims_ok(),
        ensures
            final(self).cells@ == written(
                old(self).cells@,
                seq![
                    (
                        slot(old(self).width as int, old(self).height as int, x as int, y as int),
                        Cell { state, owner },
                    ),
                ],
            ),
            final(self).pixels@ == painted(
                old(self).pixels@,
                seq![
                    (
                        slot(old(self).width as int, old(self).height as int, x as int, y as int),
                        Cell { state, owner },
                    ),
                ],
            ),
            *final(self) == (Grid {
                cells: final(self).cells,
                pixels: final(self).pixels,
                ..*old(self)
            }),
    {
        let ghost w = seq![
            (
                slot(self.width as int, self.height as int, x as int, y as int),
                Cell { state, owner },
            ),
        ];
        proof {
            assert(w.drop_last() =~= Seq::<(int, Cell)>::empty());
            assert(written(self.cells@, w.drop_last()) == self.cells@);
            assert(painted(self.pixels@, w.drop_last()) == self.pixels@);
        }
        if let Some(i) = self.slot_of(x as i64, y as i64) {
            self.write_slot(i, Cell { state, owner });
        }
    }

    /// The tile at `(x, y)`, or `None` out of bounds.
    pub fn get_cell(&self, x: u32, y: u32) -> (r: Option<&Cell>)
        requires
            self.dims_ok(),
        ensures
            r.is_some() == self.in_bounds(x as int, y as int),
            r.is_some() ==> *r.unwrap() == self.tile(x as int, y as int),
    {
        match self.slot_of(x as i64, y as i64) {
            Some(i) => Some(&self.cells[i]),
            None => None,
        }
    }

    /// `(x, y)` is in bounds and empty or food.
    pub fn is_position_clear(&self, x: u32, y: u32) -> (r: bool)
        requires
            self.dims_ok(),
        ensures
            r == self.clear_at(x as int, y as int),
    {
        self.is_clear_i64(x as i64, y as i64)
    }

    /// `(x, y)` is in bounds and holds food.
    pub fn has_food_at(&self, x: u32, y: u32) -> (r: bool)
        requires
            self.dims_ok(),
        ensures
            r == self.food_at(x as int, y as int),
    {
        self.has_food_i64(x as i64, y as i64)
    }

    pub(crate) fn is_clear_i64(&self, x: i64, y: i64) -> (r: bool)
        requires
            self.dims_ok(),
        ensures
            r == self.clear_at(x as int, y as int),
    {
        match self.slot_of(x, y) {
            Some(i) => self.cells[i].state == CellState::Empty || self.cells[i].state
                == CellState::Food,
            None => false,
        }
    }

    pub(crate) fn has_food_i64(&self, x: i64, y: i64) -> (r: bool)
        requires
            self.dims_ok(),
        ensures
            r == self.food_at(x as int, y as int),
    {
        match self.slot_of(x, y) {
            Some(i) => self.cells[i].state == CellState::Food,
            None => false,
        }
    }

    pub(crate) fn is_free_for(&self, id: usize, x: i64, y: i64) -> (r: bool)
        requires
            self.dims_ok(),
        ensures
            r == self.free_for(id, x as int, y as int),
    {
        match self.slot_of(x, y) {
            Some(i) => {
                let c = self.cells[i];
                c.state == CellState::Empty || c.state == CellState::Food || match c.owner {
                    Some(o) => o == id,
                    None => false,
                }
            },
            None => false,
        }
    }
}

/// The ids of `orgs` are pairwise distinct and below `next`.
pub open spec fn ids_ok(orgs: Seq<Organism>, next: int) -> bool {
    &&& forall|i: int, j: int|
        0 <= i < j < orgs.len() ==> (#[trigger] orgs[i]).id != (#[trigger] orgs[j]).id
    &&& forall|i: int| 0 <= i < orgs.len() ==> (#[trigger] orgs[i]).id < next
}

/// A basic organism can be placed with its anchor at `(x, y)`: the anchor is
/// in bounds, the cap and the id counter allow one more organism, and the
/// tiles under its cells are placeable.
pub open spec fn basic_fits(g: Grid, x: int, y: int) -> bool {
    &&& g.in_bounds(x, y)
    &&& g.below_cap()
    &&& g.next_organism_id < usize::MAX
    &&& g.placeable(x, y)
    &&& g.placeable(x + 1, y + 1)
    &&& g.placeable(x - 1, y - 1)
}

/// `after` is `before` with a basic organism placed with its anchor at
/// `(x, y)`: a fresh living organism with the next id, two mouths at the anchor
/// and producers at offsets `(1, 1)` and `(-1, -1)`, stamped onto the tiles.
pub open spec fn seeded_basic(before: Grid, after: Grid, x: int, y: int) -> bool {
    let o = after.organisms@.last();
    &&& after.organisms@ == before.organisms@.push(o)
    &&& o.id == before.next_organism_id
    &&& o.x == x && o.y == y
    &&& o.rotation == Direction::Up
    &&& o.is_alive
    &&& o.health == 4
    &&& o.food_collected == 0
    &&& o.lifetime == 0
    &&& o.cells@.len() == 4
    &&& o.cells@[0].state == CellState::Mouth && o.cells@[0].x == 0 && o.cells@[0].y == 0
    &&& o.cells@[1].state == CellState::Mouth && o.cells@[1].x == 0 && o.cells@[1].y == 0
    &&& o.cells@[2].state == CellState::Producer && o.cells@[2].x == 1 && o.cells@[2].y == 1
    &&& o.cells@[3].state == CellState::Producer && o.cells@[3].x == -1 && o.cells@[3].y == -1
    &&& after.cells@ == written(
        before.cells@,
        body_writes(before.width as int, before.height as int, o, false),
    )
    &&& after.pixels@ == painted(
        before.pixels@,
        body_writes(before.width as int, before.height as int, o, false),
    )
    &&& after.next_organism_id == before.next_organism_id + 1
    &&& after == (Grid {
        cells: after.cells,
        pixels: after.pixels,
        organisms: after.organisms,
        next_organism_id: after.next_organism_id,
        ..before
    })
}

impl Grid {
    /// Puts the body of `o` onto the tiles: its own states owned by it, or
    /// food when `as_food`.
    pub(crate) fn paint_body(&mut self, o: &Organism, as_food: bool)
        requires
            old(self).dims_ok(),
            o.wf(),
        ensures
            final(self).cells@ == written(
                old(self).cells@,
                body_writes(old(self).width as int, old(self).height as int, *o, as_food),
            ),
            final(self).pixels@ == painted(
                old(self).pixels@,
                body_writes(old(self).width as int, old(self).height as int, *o, as_food),
            ),
            *final(self) == (Grid {
                cells: final(self).cells,
                pixels: final(self).pixels,
                ..*old(self)
            }),
    {
        let ghost g0 = *self;
        let ghost writes = body_writes(self.width as int, self.height as int, *o, as_food);
        let mut k: usize = 0;
        while k < o.cells.len()
            invariant
                k <= o.cells@.len(),
                o.wf(),
                g0.dims_ok(),
                writes == body_writes(g0.width as int, g0.height as int, *o, as_food),
                self.cells@ == written(g0.cells@, writes.take(k as int)),
                self.pixels@ == painted(g0.pixels@, writes.take(k as int)),
                *self == (Grid { cells: self.cells, pixels: self.pixels, ..g0 }),
            decreases o.cells.len() - k,
        {
            proof {
                lemma_written_step(g0.cells@, writes, k as int);
                lemma_written_len(g0.cells@, writes.take(k as int));
                lemma_painted_len(g0.pixels@, writes.take(k as int));
            }
            let c = o.cells[k];
            assert(c.wf());
            let (x, y) = o.get_cell_position(&c);
            let cell = if as_food {
                Cell { state: CellState::Food, owner: None }
            } else {
                Cell { state: c.state, owner: Some(o.id) }
            };
            if let Some(i) = self.slot_of(x as i64, y as i64) {
                self.write_slot(i, cell);
            }
            k += 1;
        }
        assert(writes.take(o.cells@.len() as int) =~= writes);
    }

    /// `(x, y)` is in bounds and empty, or food when food does not block
    /// placement.
    pub(crate) fn is_placeable_i64(&self, x: i64, y: i64) -> (r: bool)
        requires
            self.dims_ok(),
        ensures
            r == self.placeable(x as int, y as int),
    {
        match self.slot_of(x, y) {
            Some(i) => self.cells[i].state == CellState::Empty || (self.cells[i].state
                == CellState::Food && !self.food_blocks_reproduction),
            None => false,
        }
    }

    /// Every body cell of `o` lies on a placeable tile once its anchor is
    /// moved to `(ax, ay)` and its body turned to `rotation`.
    pub(crate) fn can_place_at(&self, o: &Organism, ax: i64, ay: i64, rotation: Direction) -> (r: bool)
        requires
            self.dims_ok(),
            o.wf(),
            0 <= ax <= u32::MAX,
            0 <= ay <= u32::MAX,
        ensures
            r == self.can_place(placed_at(*o, ax as int, ay as int, rotation)),
    {
        let ghost placed = placed_at(*o, ax as int, ay as int, rotation);
        let mut k: usize = 0;
        while k < o.cells.len()
            invariant
                k <= o.cells@.len(),
                o.wf(),
                self.dims_ok(),
                0 <= ax <= u32::MAX,
                0 <= ay <= u32::MAX,
                placed == placed_at(*o, ax as int, ay as int, rotation),
                forall|j: int|
                    0 <= j < k ==> self.placeable(
                        #[trigger] placed.position(j).0,
                        placed.position(j).1,
                    ),
            decreases o.cells.len() - k,
        {
            let c = o.cells[k];
            assert(c.wf());
            let (dx, dy) = c.get_rotated_position(rotation);
            assert(placed.position(k as int) == (ax + dx, ay + dy));
            if !self.is_placeable_i64(ax + dx as i64, ay + dy as i64) {
                assert(!self.placeable(placed.position(k as int).0, placed.position(k as int).1));
                return false;
            }
            k += 1;
        }
        true
    }

    /// Every body cell of `organism` lies, where it stands, on a placeable
    /// tile.
    pub(crate) fn is_position_clear_for_organism(&self, organism: &Organism) -> (r: bool)
        requires
            self.dims_ok(),
            organism.wf(),
        ensures
            r == self.can_place(*organism),
    {
        let mut k: usize = 0;
        while k < organism.cells.len()
            invariant
                k <= organism.cells@.len(),
                organism.wf(),
                self.dims_ok(),
                forall|j: int|
                    0 <= j < k ==> self.placeable(
                        #[trigger] organism.position(j).0,
                        organism.position(j).1,
                    ),
            decreases organism.cells.len() - k,
        {
            let c = organism.cells[k];
            assert(c.wf());
            let (dx, dy) = c.get_rotated_position(organism.rotation);
            if !self.is_placeable_i64(organism.x as i64 + dx as i64, organism.y as i64 + dy as i64) {
                assert(!self.placeable(
                    organism.position(k as int).0,
                    organism.position(k as int).1,
                ));
                return false;
            }
            k += 1;
        }
        true
    }

    /// Places `organism` when the population cap allows one more and every
    /// body cell lies on a placeable tile: the body is stamped onto the tiles,
    /// owned by the organism, which receives the next id if it has none (id 0)
    /// and joins the registry. Otherwise nothing changes and the result is
    /// `false`; so too when an id is needed and the id counter is exhausted.
    pub fn add_organism(&mut self, organism: Organism) -> (r: bool)
        requires
            old(self).wf(),
            organism.wf(),
            organism.vitals_ok(),
        ensures
            final(self).wf(),
            r == (old(self).below_cap() && (organism.id != 0 || old(self).next_organism_id
                < usize::MAX) && old(self).can_place(organism)),
            old(self).ids_fresh() && organism.id == 0 ==> final(self).ids_fresh(),
            !r ==> *final(self) == *old(self),
            r ==> final(self).organisms@ == old(self).organisms@.push(
                with_assigned_id(organism, old(self).next_organism_id),
            ),
            r ==> final(self).cells@ == written(
                old(self).cells@,
                body_writes(
                    old(self).width as int,
                    old(self).height as int,
                    with_assigned_id(organism, old(self).next_organism_id),
                    false,
                ),
            ),
            r ==> final(self).pixels@ == painted(
                old(self).pixels@,
                body_writes(
                    old(self).width as int,
                    old(self).height as int,
                    with_assigned_id(organism, old(self).next_organism_id),
                    false,
                ),
            ),
            r ==> final(self).next_organism_id == if organism.id == 0 {
                old(self).next_organism_id + 1
            } else {
                old(self).next_organism_id as int
            },
            *final(self) == (Grid {
                cells: final(self).cells,
                pixels: final(self).pixels,
                organisms: final(self).organisms,
                next_organism_id: final(self).next_organism_id,
                ..*old(self)
            }),
    {
        if self.max_organisms > 0 && self.organisms.len() >= self.max_organisms {
            return false;
        }
        if organism.id == 0 && self.next_organism_id == usize::MAX {
            return false;
        }
        if !self.is_position_clear_for_organism(&organism) {
            return false;
        }
        let mut organism = organism;
        if organism.id == 0 {
            organism.id = self.next_organism_id;
            self.next_organism_id = self.next_organism_id + 1;
        }
        self.paint_body(&organism, false);
        self.organisms.push(organism);
        proof {
            lemma_written_len(old(self).cells@, body_writes(self.width as int, self.height as int, organism, false));
            lemma_painted_len(old(self).pixels@, body_writes(self.width as int, self.height as int, organism, false));
        }
        true
    }

    /// Places a basic organism with its anchor at `(x, y)`: a mouth at the
    /// anchor (twice: the one every organism starts with, and one added) and
    /// producers at offsets `(1, 1)` and `(-1, -1)`. Fails, changing nothing,
    /// when `(x, y)` is out of bounds or `add_organism` fails.
    pub fn create_basic_organism(&mut self, x: u32, y: u32) -> (r: bool)
        requires
            old(self).wf(),
        ensures
            final(self).wf(),
            r == basic_fits(*old(self), x as int, y as int),
            old(self).ids_fresh() ==> final(self).ids_fresh(),
            r ==> seeded_basic(*old(self), *final(self), x as int, y as int),
            !r ==> *final(self) == *old(self),
    {
        if x >= self.width || y >= self.height {
            return false;
        }
        let mut organism = Organism::new(0, x, y);
        organism.add_cell(CellState::Mouth, 0, 0);
        organism.add_cell(CellState::Producer, 1, 1);
        organism.add_cell(CellState::Producer, -1, -1);
        proof {
            assert(organism.position(0) == (x as int, y as int));
            assert(organism.position(1) == (x as int, y as int));
            assert(organism.position(2) == (x + 1, y + 1));
            assert(organism.position(3) == (x - 1, y - 1));
            let at_anchor = self.placeable(x as int, y as int);
            let below_right = self.placeable(x + 1, y + 1);
            let above_left = self.placeable(x - 1, y - 1);
            if at_anchor && below_right && above_left {
                assert forall|i: int| 0 <= i < organism.cells@.len() implies self.placeable(
                    #[trigger] organism.position(i).0,
                    organism.position(i).1,
                ) by {
                    if i == 0 {
                    } else if i == 1 {
                    } else if i == 2 {
                    } else {
                    }
                }
            }
            if self.can_place(organism) {
                assert(self.placeable(organism.position(0).0, organism.position(0).1));
                assert(self.placeable(organism.position(2).0, organism.position(2).1));
                assert(self.placeable(organism.position(3).0, organism.position(3).1));
            }
        }
        self.add_organism(organism)
    }

    /// Seeds a basic organism with its anchor at the center of the grid.
    pub fn origin_of_life(&mut self)
        requires
            old(self).wf(),
        ensures
            final(self).wf(),
            old(self).ids_fresh() ==> final(self).ids_fresh(),
            basic_fits(*old(self), (old(self).width / 2) as int, (old(self).height / 2) as int) ==> seeded_basic(
                *old(self),
                *final(self),
                (old(self).width / 2) as int,
                (old(self).height / 2) as int,
            ),
            !basic_fits(*old(self), (old(self).width / 2) as int, (old(self).height / 2) as int) ==> *final(self)
                == *old(self),
    {
        let x = self.width / 2;
        let y = self.height / 2;
        self.create_basic_organism(x, y);
    }

    /// Empties every tile (keeping walls unless `clear_walls`), empties the
    /// registry, restarts ids at 0 and recomputes every color.
    pub fn reset(&mut self, clear_walls: bool)
        requires
            old(self).dims_ok(),
        ensures
            final(self).wf(),
            final(self).cells@.len() == old(self).cells@.len(),
            forall|i: int|
                0 <= i < old(self).cells@.len() ==> #[trigger] final(self).cells@[i] == if clear_walls
                    || old(self).cells@[i].state != CellState::Wall {
                    Cell { state: CellState::Empty, owner: None }
                } else {
                    old(self).cells@[i]
                },
            final(self).colors_synced(),
            final(self).organisms@.len() == 0,
            final(self).next_organism_id == 0,
            final(self).ids_fresh(),
            *final(self) == (Grid {
                cells: final(self).cells,
                pixels: final(self).pixels,
                organisms: final(self).organisms,
                next_organism_id: final(self).next_organism_id,
                ..*old(self)
            }),
    {
        let ghost g0 = *self;
        let n = self.cells.len();
        let mut i: usize = 0;
        while i < n
            invariant
                n == g0.cells@.len(),
                i <= n,
                self.cells@.len() == n,
                forall|j: int|
                    0 <= j < i ==> #[trigger] self.cells@[j] == if clear_walls || g0.cells@[j].state
                        != CellState::Wall {
                        Cell { state: CellState::Empty, owner: None }
                    } else {
                        g0.cells@[j]
                    },
                forall|j: int| i <= j < n ==> #[trigger] self.cells@[j] == g0.cells@[j],
                *self == (Grid { cells: self.cells, ..g0 }),
            decreases n - i,
        {
            if clear_walls || self.cells[i].state != CellState::Wall {
                self.cells.set(i, Cell { state: CellState::Empty, owner: None });
            }
            i += 1;
        }
        self.organisms = Vec::new();
        self.next_organism_id = 0;
        self.sync_pixels();
    }

    /// Recomputes every color from its tile.
    pub(crate) fn sync_pixels(&mut self)
        requires
            old(self).dims_ok(),
        ensures
            final(self).colors_synced(),
            *final(self) == (Grid { pixels: final(self).pixels, ..*old(self) }),
            final(self).pixels@.len() == old(self).pixels@.len(),
    {
        let ghost g0 = *self;
        let n = self.cells.len();
        let mut i: usize = 0;
        while i < n
            invariant
                g0.dims_ok(),
                n == g0.cells@.len(),
                i <= n,
                self.pixels@.len() == n,
                forall|j: int|
                    0 <= j < i ==> #[trigger] self.pixels@[j] == color_of(self.cells@[j].state),
                *self == (Grid { pixels: self.pixels, ..g0 }),
            decreases n - i,
        {
            let c = self.cells[i].state.to_color();
            self.pixels.set(i, c);
            i += 1;
        }
    }


}

/// Number of tiles holding food among the four neighbors of `(x, y)`.
pub open spec fn food_around(g: Grid, x: int, y: int) -> nat {
    (if g.food_at(x, y + 1) { 1nat } else { 0nat }) + (if g.food_at(x + 1, y) { 1nat } else { 0nat })
        + (if g.food_at(x, y - 1) { 1nat } else { 0nat }) + (if g.food_at(x - 1, y) {
        1nat
    } else {
        0nat
    })
}

/// Food within reach of the mouths among the first `n` body cells of `o`: for
/// each mouth, the number of its neighbors holding food.
pub open spec fn mouth_food(g: Grid, o: Organism, n: int) -> nat
    decreases n,
{
    if n <= 0 {
        0
    } else {
        mouth_food(g, o, n - 1) + if o.cells@[n - 1].state == CellState::Mouth {
            food_around(g, o.position(n - 1).0, o.position(n - 1).1)
        } else {
            0
        }
    }
}

/// Food within reach depends on the tiles alone.
pub proof fn lemma_mouth_food_tiles(g1: Grid, g2: Grid, o: Organism, n: int)
    requires
        g1.width == g2.width,
        g1.height == g2.height,
        g1.cells@ == g2.cells@,
    ensures
        mouth_food(g1, o, n) == mouth_food(g2, o, n),
    decreases n,
{
    if n > 0 {
        lemma_mouth_food_tiles(g1, g2, o, n - 1);
    }
}

/// Room for a body and food within reach depend on the tiles alone.
pub proof fn lemma_same_tiles(g1: Grid, g2: Grid)
    requires
        g1.width == g2.width,
        g1.height == g2.height,
        g1.cells@ == g2.cells@,
    ensures
        forall|o: Organism, ax: int, ay: int, r: Direction|
            #[trigger] g1.room_for(o, ax, ay, r) == g2.room_for(o, ax, ay, r),
        forall|o: Organism, n: int| #[trigger] mouth_food(g1, o, n) == mouth_food(g2, o, n),
{
    assert forall|o: Organism, n: int| #[trigger] mouth_food(g1, o, n) == mouth_food(g2, o, n) by {
        lemma_mouth_food_tiles(g1, g2, o, n);
    }
    assert forall|o: Organism, ax: int, ay: int, r: Direction|
        #[trigger] g1.room_for(o, ax, ay, r) == g2.room_for(o, ax, ay, r) by {
        assert forall|i: int| 0 <= i < o.cells@.len() implies g1.free_for(
            o.id,
            #[trigger] o.spot(i, ax, ay, r).0,
            o.spot(i, ax, ay, r).1,
        ) == g2.free_for(o.id, o.spot(i, ax, ay, r).0, o.spot(i, ax, ay, r).1) by {}
    }
}

/// An update outcome depends on the tiles alone.
pub proof fn lemma_updated_tiles(g1: Grid, g2: Grid, before: Organism, after: Organism, m: u32)
    requires
        g1.width == g2.width,
        g1.height == g2.height,
        g1.cells@ == g2.cells@,
        updated(g1, before, after, m),
    ensures
        updated(g2, before, after, m),
{
    lemma_same_tiles(g1, g2);
    let n = before.cells@.len() as int;
    assert(mouth_food(g1, before, n) == mouth_food(g2, before, n));
    let lifetime = if before.lifetime < u32::MAX {
        before.lifetime + 1
    } else {
        before.lifetime as int
    };
    let fed = Organism {
        lifetime: lifetime as u32,
        food_collected: vstd::math::min(before.food_collected + mouth_food(g1, before, n), u32::MAX as int)
            as u32,
        ..before
    };
    if before.is_alive && lifetime < before.lifespan(m) && before.has_state(CellState::Mover) {
        let nx = fed.x + fed.move_direction.delta().0;
        let ny = fed.y + fed.move_direction.delta().1;
        assert(g1.room_for(fed, nx, ny, fed.rotation) == g2.room_for(fed, nx, ny, fed.rotation));
        assert(can_step(g1, fed) == can_step(g2, fed));
        if !can_step(g1, fed) {
            let mid = choose|mid: Organism| stalled(fed, mid) && #[trigger] turned_in_place(g1, mid, after);
            assert(g1.room_for(mid, mid.x as int, mid.y as int, after.rotation) == g2.room_for(
                mid,
                mid.x as int,
                mid.y as int,
                after.rotation,
            ));
            assert(turned_in_place(g2, mid, after));
        }
    }
}

impl Grid {
    /// Every body cell of `o` would be free for it with the anchor at
    /// `(ax, ay)` and the body turned by `rotation`.
    pub(crate) fn has_room_for(&self, o: &Organism, ax: i64, ay: i64, rotation: Direction) -> (r: bool)
        requires
            self.dims_ok(),
            o.wf(),
            -0x1_0000_0000_0000 <= ax <= 0x1_0000_0000_0000,
            -0x1_0000_0000_0000 <= ay <= 0x1_0000_0000_0000,
        ensures
            r == self.room_for(*o, ax as int, ay as int, rotation),
    {
        let mut k: usize = 0;
        while k < o.cells.len()
            invariant
                k <= o.cells@.len(),
                o.wf(),
                self.dims_ok(),
                -0x1_0000_0000_0000 <= ax <= 0x1_0000_0000_0000,
                -0x1_0000_0000_0000 <= ay <= 0x1_0000_0000_0000,
                forall|j: int|
                    0 <= j < k ==> self.free_for(
                        o.id,
                        #[trigger] o.spot(j, ax as int, ay as int, rotation).0,
                        o.spot(j, ax as int, ay as int, rotation).1,
                    ),
            decreases o.cells.len() - k,
        {
            let c = o.cells[k];
            assert(c.wf());
            let (dx, dy) = c.get_rotated_position(rotation);
            if !self.is_free_for(o.id, ax + dx as i64, ay + dy as i64) {
                assert(!self.free_for(
                    o.id,
                    o.spot(k as int, ax as int, ay as int, rotation).0,
                    o.spot(k as int, ax as int, ay as int, rotation).1,
                ));
                return false;
            }
            k += 1;
        }
        true
    }

    /// Number of tiles holding food among the four neighbors of `(x, y)`.
    pub(crate) fn count_food_around(&self, x: i64, y: i64) -> (r: u32)
        requires
            self.dims_ok(),
            -0x1_0000_0000_0000 <= x <= 0x1_0000_0000_0000,
            -0x1_0000_0000_0000 <= y <= 0x1_0000_0000_0000,
        ensures
            r == food_around(*self, x as int, y as int),
            r <= 4,
    {
        let mut n: u32 = 0;
        if self.has_food_i64(x, y + 1) {
            n = n + 1;
        }
        if self.has_food_i64(x + 1, y) {
            n = n + 1;
        }
        if self.has_food_i64(x, y - 1) {
            n = n + 1;
        }
        if self.has_food_i64(x - 1, y) {
            n = n + 1;
        }
        n
    }
}

/// The sign of `v`: -1, 0 or 1.
pub open spec fn sign(v: int) -> int {
    if v < 0 {
        -1
    } else if v > 0 {
        1
    } else {
        0
    }
}

pub open spec fn abs(v: int) -> int {
    if v < 0 {
        -v
    } else {
        v
    }
}

/// The segment from `(x1, y1)` to `(x2, y2)` is horizontal, vertical or
/// diagonal.
pub open spec fn straight(x1: int, y1: int, x2: int, y2: int) -> bool {
    x1 == x2 || y1 == y2 || abs(x2 - x1) == abs(y2 - y1)
}

/// The `k`-th point after `a` stepping by `s`.
pub open spec fn step_from(a: int, s: int, k: int) -> int {
    a + k * s
}

/// `s * n` for a sign `s` of -1, 0 or 1.
pub open spec fn scaled(s: int, n: int) -> int {
    if s > 0 {
        n
    } else if s < 0 {
        -n
    } else {
        0
    }
}

/// Steps taken along an axis spanning `span` tiles after `m` steps of a
/// horizontal, vertical or diagonal sweep.
pub open spec fn ray_step(span: int, m: int) -> int {
    if span > 0 {
        m
    } else {
        0
    }
}

/// The error term of Bresenham's sweep over a segment spanning `dx` by `dy`
/// tiles, after `i` steps along x and `j` steps along y.
pub open spec fn sweep_err(dx: int, dy: int, i: int, j: int) -> int {
    dx * (1 + j) - dy * (1 + i)
}

/// The step counts after one more step of the sweep: along x when twice the
/// error exceeds `-dy`, along y when it is below `dx`, or both.
pub open spec fn sweep_next(dx: int, dy: int, i: int, j: int) -> (int, int) {
    let e2 = 2 * sweep_err(dx, dy, i, j);
    (if e2 > -dy { i + 1 } else { i }, if e2 < dx { j + 1 } else { j })
}

/// From step counts `(i, j)` on, every tile that Bresenham's sweep from
/// `(x1, y1)` (directions `sx`, `sy`, spans `dx`, `dy`) visits before the far
/// end is in bounds and clear.
pub open spec fn sweep_clear(
    g: Grid,
    x1: int,
    y1: int,
    sx: int,
    sy: int,
    dx: int,
    dy: int,
    i: int,
    j: int,
) -> bool
    decreases (dx - i) + (dy - j),
    via lemma_sweep_decreases
{
    if !(0 <= i <= dx && 0 <= j <= dy) || (i == dx && j == dy) {
        true
    } else {
        let n = sweep_next(dx, dy, i, j);
        &&& (n.0 == dx && n.1 == dy) || g.clear_at(x1 + scaled(sx, n.0), y1 + scaled(sy, n.1))
        &&& sweep_clear(g, x1, y1, sx, sy, dx, dy, n.0, n.1)
    }
}

#[via_fn]
proof fn lemma_sweep_decreases(
    g: Grid,
    x1: int,
    y1: int,
    sx: int,
    sy: int,
    dx: int,
    dy: int,
    i: int,
    j: int,
) {
    if (0 <= i <= dx && 0 <= j <= dy) && !(i == dx && j == dy) {
        lemma_sweep_step(dx, dy, i, j);
    }
}

/// Each step of the sweep advances along x, y or both, and never passes the
/// far end.
pub proof fn lemma_sweep_step(dx: int, dy: int, i: int, j: int)
    requires
        0 <= i <= dx,
        0 <= j <= dy,
        !(i == dx && j == dy),
    ensures
        i <= sweep_next(dx, dy, i, j).0 <= dx,
        j <= sweep_next(dx, dy, i, j).1 <= dy,
        sweep_next(dx, dy, i, j).0 + sweep_next(dx, dy, i, j).1 > i + j,
{
    let e = sweep_err(dx, dy, i, j);
    if i == dx {
        assert(dx * (1 + j) <= dx * dy) by (nonlinear_arith)
            requires
                j + 1 <= dy,
                0 <= dx,
        ;
        assert(dy * (1 + i) == dy + dx * dy) by (nonlinear_arith)
            requires
                i == dx,
        ;
        assert(2 * e <= -dy);
    }
    if j == dy {
        assert(dy * (1 + i) <= dx * dy) by (nonlinear_arith)
            requires
                i + 1 <= dx,
                0 <= dy,
        ;
        assert(dx * (1 + j) == dx + dx * dy) by (nonlinear_arith)
            requires
                j == dy,
        ;
        assert(2 * e >= dx);
    }
}

/// On a horizontal, vertical or diagonal segment the sweep visits the unit
/// steps from its start: from step `k` on, it finds the path clear when every
/// later tile before the far end is clear.
pub proof fn lemma_sweep_straight(
    g: Grid,
    x1: int,
    y1: int,
    sx: int,
    sy: int,
    dx: int,
    dy: int,
    k: int,
)
    requires
        (dy == 0 && dx > 0) || (dx == 0 && dy > 0) || (dx == dy && dx > 0),
        0 <= k <= if dx > dy { dx } else { dy },
        forall|m: int|
            k < m < (if dx > dy { dx } else { dy }) ==> #[trigger] g.clear_at(
                x1 + scaled(sx, ray_step(dx, m)),
                y1 + scaled(sy, ray_step(dy, m)),
            ),
    ensures
        sweep_clear(
            g,
            x1,
            y1,
            sx,
            sy,
            dx,
            dy,
            if dx > 0 { k } else { 0 },
            if dy > 0 { k } else { 0 },
        ),
    decreases (if dx > dy { dx } else { dy }) - k,
{
    let n = if dx > dy { dx } else { dy };
    let i = if dx > 0 { k } else { 0 };
    let j = if dy > 0 { k } else { 0 };
    if k < n {
        let e = sweep_err(dx, dy, i, j);
        if dy == 0 {
            assert(dx * (1 + j) == dx) by (nonlinear_arith)
                requires
                    j == 0,
            ;
            assert(dy * (1 + i) == 0) by (nonlinear_arith)
                requires
                    dy == 0,
            ;
            assert(e == dx);
        } else if dx == 0 {
            assert(dy * (1 + i) == dy) by (nonlinear_arith)
                requires
                    i == 0,
            ;
            assert(dx * (1 + j) == 0) by (nonlinear_arith)
                requires
                    dx == 0,
            ;
            assert(e == -dy);
        } else {
            assert(dx * (1 + j) == dy * (1 + i)) by (nonlinear_arith)
                requires
                    dx == dy,
                    i == j,
            ;
            assert(e == 0);
        }
        let i2 = if dx > 0 { k + 1 } else { 0 };
        let j2 = if dy > 0 { k + 1 } else { 0 };
        assert(sweep_next(dx, dy, i, j) == (i2, j2));
        assert(ray_step(dx, k + 1) == i2 && ray_step(dy, k + 1) == j2);
        if k + 1 < n {
            assert(g.clear_at(x1 + scaled(sx, ray_step(dx, k + 1)), y1 + scaled(sy, ray_step(dy, k + 1))));
        } else {
            assert(i2 == dx && j2 == dy);
        }
        lemma_sweep_straight(g, x1, y1, sx, sy, dx, dy, k + 1);
        assert(0 <= i <= dx && 0 <= j <= dy && !(i == dx && j == dy));
        assert(sweep_clear(g, x1, y1, sx, sy, dx, dy, i2, j2));
    } else {
        assert(i == dx && j == dy);
    }
}

/// Chebyshev distance between two points.
pub open spec fn chebyshev(x1: int, y1: int, x2: int, y2: int) -> int {
    let dx = abs(x2 - x1);
    let dy = abs(y2 - y1);
    if dx < dy {
        dy
    } else {
        dx
    }
}

impl Grid {
    /// Every tile strictly between the ends of the segment from `(x1, y1)` to
    /// `(x2, y2)`, as Bresenham's sweep visits them, is in bounds and clear.
    pub open spec fn path_clear(&self, x1: int, y1: int, x2: int, y2: int) -> bool {
        sweep_clear(*self, x1, y1, sign(x2 - x1), sign(y2 - y1), abs(x2 - x1), abs(y2 - y1), 0, 0)
    }

    /// Sweeps the segment from `(x1, y1)` to `(x2, y2)` with Bresenham's line
    /// and reports whether every tile strictly between its ends is in bounds
    /// and clear.
    pub fn is_straight_path_clear(&self, x1: u32, y1: u32, x2: u32, y2: u32) -> (r: bool)
        requires
            self.dims_ok(),
        ensures
            r == self.path_clear(x1 as int, y1 as int, x2 as int, y2 as int),
    {
        let sx: i128 = if x1 < x2 {
            1
        } else if x1 > x2 {
            -1
        } else {
            0
        };
        let sy: i128 = if y1 < y2 {
            1
        } else if y1 > y2 {
            -1
        } else {
            0
        };
        let dx: i128 = if x1 < x2 { (x2 - x1) as i128 } else { (x1 - x2) as i128 };
        let dy: i128 = if y1 < y2 { (y2 - y1) as i128 } else { (y1 - y2) as i128 };
        let mut i: i128 = 0;
        let mut j: i128 = 0;
        let mut err: i128 = dx - dy;
        while i != dx || j != dy
            invariant
                self.dims_ok(),
                sx == sign(x2 as int - x1 as int),
                sy == sign(y2 as int - y1 as int),
                dx == abs(x2 as int - x1 as int),
                dy == abs(y2 as int - y1 as int),
                dx <= u32::MAX,
                dy <= u32::MAX,
                0 <= i <= dx,
                0 <= j <= dy,
                err == sweep_err(dx as int, dy as int, i as int, j as int),
                self.path_clear(x1 as int, y1 as int, x2 as int, y2 as int) == sweep_clear(
                    *self,
                    x1 as int,
                    y1 as int,
                    sx as int,
                    sy as int,
                    dx as int,
                    dy as int,
                    i as int,
                    j as int,
                ),
            decreases (dx - i) + (dy - j),
        {
            proof {
                lemma_sweep_step(dx as int, dy as int, i as int, j as int);
                assert(-0x8_0000_0000_0000_0000 <= err <= 0x8_0000_0000_0000_0000) by (nonlinear_arith)
                    requires
                        err == dx * (1 + j) - dy * (1 + i),
                        0 <= i <= dx,
                        0 <= j <= dy,
                        dx <= u32::MAX,
                        dy <= u32::MAX,
                ;
            }
            let ghost oi = i;
            let ghost oj = j;
            let e2 = 2 * err;
            if e2 > -dy {
                err = err - dy;
                i = i + 1;
            }
            if e2 < dx {
                err = err + dx;
                j = j + 1;
            }
            proof {
                assert((i as int, j as int) == sweep_next(dx as int, dy as int, oi as int, oj as int));
                assert(err == sweep_err(dx as int, dy as int, i as int, j as int)) by {
                    if i != oi {
                        assert(dy * (1 + i) == dy * (1 + oi) + dy) by (nonlinear_arith)
                            requires
                                i == oi + 1,
                        ;
                    }
                    if j != oj {
                        assert(dx * (1 + j) == dx * (1 + oj) + dx) by (nonlinear_arith)
                            requires
                                j == oj + 1,
                        ;
                    }
                }
            }
            if i != dx || j != dy {
                let px: i128 = if sx > 0 {
                    x1 as i128 + i
                } else if sx < 0 {
                    x1 as i128 - i
                } else {
                    x1 as i128
                };
                let py: i128 = if sy > 0 {
                    y1 as i128 + j
                } else if sy < 0 {
                    y1 as i128 - j
                } else {
                    y1 as i128
                };
                let clear = 0 <= px && px <= u32::MAX as i128 && 0 <= py && py <= u32::MAX as i128
                    && self.is_clear_i64(px as i64, py as i64);
                if !clear {
                    return false;
                }
            }
        }
        true
    }
}

} // verus!
