use vstd::prelude::*;

use crate::cell::{is_organ, organ_state, other_organ, other_organ_state, CellState};
use crate::grid::{
    abs, chebyshev, lemma_sweep_straight, ray_step, mouth_food, scaled, sign, step_from, straight, Grid,
};
use crate::random::random_below;

verus! {

/// One of the four cardinal directions, used for facing, rotation and movement.
#[derive(Clone, Copy, PartialEq, Eq, Debug, Structural)]
pub enum Direction {
    Up,
    Right,
    Down,
    Left,
}

/// The direction with clockwise index `i` (`Up` is 0).
pub open spec fn direction_at(i: int) -> Direction {
    if i == 0 {
        Direction::Up
    } else if i == 1 {
        Direction::Right
    } else if i == 2 {
        Direction::Down
    } else {
        Direction::Left
    }
}

impl Direction {
    /// Clockwise index of the direction, `Up` being 0.
    pub open spec fn index_of(self) -> int {
        match self {
            Direction::Up => 0,
            Direction::Right => 1,
            Direction::Down => 2,
            Direction::Left => 3,
        }
    }

    /// The unit step `(dx, dy)` of the direction; `y` grows downwards.
    pub open spec fn delta(self) -> (int, int) {
        match self {
            Direction::Up => (0, -1),
            Direction::Right => (1, 0),
            Direction::Down => (0, 1),
            Direction::Left => (-1, 0),
        }
    }

    /// The direction with clockwise index `i`.
    pub fn from_index(i: u32) -> (r: Direction)
        requires
            i < 4,
        ensures
            r == direction_at(i as int),
            r.index_of() == i,
    {
        if i == 0 {
            Direction::Up
        } else if i == 1 {
            Direction::Right
        } else if i == 2 {
            Direction::Down
        } else {
            Direction::Left
        }
    }

    /// Clockwise index of the direction.
    pub fn index(&self) -> (r: u32)
        ensures
            r == self.index_of(),
    {
        match self {
            Direction::Up => 0,
            Direction::Right => 1,
            Direction::Down => 2,
            Direction::Left => 3,
        }
    }

    /// A direction drawn uniformly at random.
    pub fn random() -> (r: Direction) {
        Direction::from_index(random_below(4))
    }

    /// The opposite direction.
    pub fn opposite(&self) -> (r: Direction)
        ensures
            r.index_of() == (self.index_of() + 2) % 4,
    {
        match self {
            Direction::Up => Direction::Down,
            Direction::Right => Direction::Left,
            Direction::Down => Direction::Up,
            Direction::Left => Direction::Right,
        }
    }

    /// The movement step `(dx, dy)` of the direction.
    pub fn to_delta(&self) -> (r: (i32, i32))
        ensures
            r.0 == self.delta().0,
            r.1 == self.delta().1,
    {
        match self {
            Direction::Up => (0, -1),
            Direction::Right => (1, 0),
            Direction::Down => (0, 1),
            Direction::Left => (-1, 0),
        }
    }
}

/// The direction `d` turned clockwise by the quarter turns of `rotation`.
pub open spec fn turned(d: Direction, rotation: Direction) -> Direction {
    direction_at((d.index_of() + rotation.index_of()) % 4)
}

/// One element of a body plan: a state, an offset from the organism's anchor
/// and, for eyes, a facing relative to the organism.
#[derive(Clone, Copy, Debug)]
pub struct OrganismCell {
    pub state: CellState,
    pub x: i32,
    pub y: i32,
    pub direction: Option<Direction>,
}

/// The offset of a body cell once its organism is turned by `rotation`.
pub open spec fn rotated(c: OrganismCell, rotation: Direction) -> (int, int) {
    match rotation {
        Direction::Up => (c.x as int, c.y as int),
        Direction::Right => (c.y as int, -(c.x as int)),
        Direction::Down => (-(c.x as int), -(c.y as int)),
        Direction::Left => (-(c.y as int), c.x as int),
    }
}

impl OrganismCell {
    /// Offsets can be negated without leaving `i32`.
    pub open spec fn wf(&self) -> bool {
        self.x > i32::MIN && self.y > i32::MIN
    }

    /// A body cell at offset `(x, y)`; an eye gets a random facing.
    pub fn new(state: CellState, x: i32, y: i32) -> (r: OrganismCell)
        ensures
            r.state == state,
            r.x == x,
            r.y == y,
            r.direction.is_some() == (state == CellState::Eye),
    {
        OrganismCell {
            state,
            x,
            y,
            direction: if state == CellState::Eye {
                Some(Direction::random())
            } else {
                None
            },
        }
    }

    /// The offset of this cell once its organism is turned by `rotation`.
    pub fn get_rotated_position(&self, rotation: Direction) -> (r: (i32, i32))
        requires
            self.wf(),
        ensures
            r.0 == rotated(*self, rotation).0,
            r.1 == rotated(*self, rotation).1,
    {
        match rotation {
            Direction::Up => (self.x, self.y),
            Direction::Right => (self.y, -self.x),
            Direction::Down => (-self.x, -self.y),
            Direction::Left => (-self.y, self.x),
        }
    }

    /// The facing of this cell in the world, for an organism turned by
    /// `organism_rotation`; `None` for cells without a facing.
    pub fn get_absolute_direction(&self, organism_rotation: Direction) -> (r: Option<Direction>)
        ensures
            r == (match self.direction {
                Some(d) => Some(turned(d, organism_rotation)),
                None => None,
            }),
    {
        match self.direction {
            Some(d) => Some(Direction::from_index((d.index() + organism_rotation.index()) % 4)),
            None => None,
        }
    }
}

/// Copies a body plan cell by cell.
pub fn copy_cells(cells: &Vec<OrganismCell>) -> (r: Vec<OrganismCell>)
    ensures
        r@ == cells@,
{
    let mut r: Vec<OrganismCell> = Vec::new();
    let mut i: usize = 0;
    while i < cells.len()
        invariant
            i <= cells.len(),
            r@ == cells@.take(i as int),
        decreases cells.len() - i,
    {
        r.push(cells[i]);
        i += 1;
        assert(r@ =~= cells@.take(i as int));
    }
    assert(r@ =~= cells@);
    r
}

/// A body state drawn uniformly from the six that are not environmental.
pub fn random_cell_state() -> (r: CellState)
    ensures
        is_organ(r),
{
    organ_state(random_below(6))
}

/// A living entity: an anchor position, an orientation, a body plan and its
/// vitals.
#[derive(Clone, Debug)]
pub struct Organism {
    pub id: usize,
    pub x: u32,
    pub y: u32,
    pub rotation: Direction,
    pub move_direction: Direction,
    pub cells: Vec<OrganismCell>,
    pub food_collected: u32,
    pub health: u32,
    pub lifetime: u32,
    pub mutability: u8,
    pub move_range: u32,
    pub move_counter: u32,
    pub is_alive: bool,
}

/// The larger of the absolute values of a body cell's offsets.
pub open spec fn cell_extent(c: OrganismCell) -> int {
    let ax = if c.x < 0 { -(c.x as int) } else { c.x as int };
    let ay = if c.y < 0 { -(c.y as int) } else { c.y as int };
    if ax < ay { ay } else { ax }
}

/// The largest `cell_extent` over a body plan, 0 for an empty one.
pub open spec fn plan_extent(cells: Seq<OrganismCell>) -> int
    decreases cells.len(),
{
    if cells.len() == 0 {
        0
    } else {
        let rest = plan_extent(cells.drop_last());
        let e = cell_extent(cells.last());
        if rest < e { e } else { rest }
    }
}

/// The number of tiles of extra distance kept between a parent's body and the
/// anchor of its offspring.
pub const BIRTH_BUFFER: i64 = 3;

impl Organism {
    /// The body plan is small enough for `u32` counts and every offset can be
    /// rotated without overflow.
    pub open spec fn wf(&self) -> bool {
        &&& self.cells@.len() < u32::MAX
        &&& forall|i: int| 0 <= i < self.cells@.len() ==> (#[trigger] self.cells@[i]).wf()
    }

    /// Health never exceeds the number of body cells, and a living organism
    /// has some health left.
    pub open spec fn vitals_ok(&self) -> bool {
        &&& self.health <= self.cells@.len()
        &&& self.is_alive ==> self.health > 0
    }

    /// Where body cell `i` lies when the anchor is at `(ax, ay)` and the body is
    /// turned by `rotation`.
    pub open spec fn spot(&self, i: int, ax: int, ay: int, rotation: Direction) -> (int, int) {
        let r = rotated(self.cells@[i], rotation);
        (ax + r.0, ay + r.1)
    }

    /// Where body cell `i` lies now.
    pub open spec fn position(&self, i: int) -> (int, int) {
        self.spot(i, self.x as int, self.y as int, self.rotation)
    }

    /// Some body cell has state `s`.
    pub open spec fn has_state(&self, s: CellState) -> bool {
        exists|i: int| 0 <= i < self.cells@.len() && (#[trigger] self.cells@[i]).state == s
    }

    /// Food needed to reproduce: one per body cell, and one more for a mover.
    pub open spec fn food_needed(&self) -> int {
        self.cells@.len() + if self.has_state(CellState::Mover) {
            1int
        } else {
            0int
        }
    }

    /// The age at which the organism dies.
    pub open spec fn lifespan(&self, lifespan_multiplier: u32) -> int {
        let l = self.cells@.len() * lifespan_multiplier;
        if l < 1 { 1 } else { l }
    }

    /// Distance from the parent's anchor below which no offspring is placed.
    pub open spec fn birth_distance(&self) -> int {
        plan_extent(self.cells@) + BIRTH_BUFFER
    }

    /// A new living organism at `(x, y)` with a single mouth cell at its
    /// anchor and a random movement direction.
    pub fn new(id: usize, x: u32, y: u32) -> (r: Organism)
        ensures
            r.id == id,
            r.x == x,
            r.y == y,
            r.rotation == Direction::Up,
            r.cells@.len() == 1,
            r.cells@[0].state == CellState::Mouth,
            r.cells@[0].x == 0,
            r.cells@[0].y == 0,
            r.food_collected == 0,
            r.health == 1,
            r.lifetime == 0,
            r.mutability == 5,
            r.move_range == 4,
            r.move_counter == 0,
            r.is_alive,
            r.wf(),
            r.vitals_ok(),
    {
        let mut organism = Organism {
            id,
            x,
            y,
            rotation: Direction::Up,
            move_direction: Direction::random(),
            cells: Vec::new(),
            food_collected: 0,
            health: 0,
            lifetime: 0,
            mutability: 5,
            move_range: 4,
            move_counter: 0,
            is_alive: true,
        };
        organism.add_cell(CellState::Mouth, 0, 0);
        organism
    }

    /// Appends a body cell at offset `(x, y)`; health becomes the new number
    /// of cells.
    pub fn add_cell(&mut self, state: CellState, x: i32, y: i32)
        requires
            old(self).wf(),
            old(self).cells@.len() + 2 <= u32::MAX,
            x > i32::MIN,
            y > i32::MIN,
        ensures
            final(self).wf(),
            final(self).cells@.len() == old(self).cells@.len() + 1,
            final(self).cells@ == old(self).cells@.push(final(self).cells@.last()),
            final(self).cells@.last().state == state,
            final(self).cells@.last().x == x,
            final(self).cells@.last().y == y,
            final(self).cells@.last().direction.is_some() == (state == CellState::Eye),
            final(self).health == final(self).cells@.len(),
            *final(self) == (Organism {
                cells: final(self).cells,
                health: final(self).health,
                ..*old(self)
            }),
    {
        let c = OrganismCell::new(state, x, y);
        self.cells.push(c);
        self.health = self.cells.len() as u32;
    }

    /// No body cell sits at offset `(x, y)`.
    pub fn can_add_cell_at(&self, x: i32, y: i32) -> (r: bool)
        ensures
            r == !(exists|i: int|
                0 <= i < self.cells@.len() && (#[trigger] self.cells@[i]).x == x
                    && self.cells@[i].y == y),
    {
        let mut i: usize = 0;
        while i < self.cells.len()
            invariant
                i <= self.cells@.len(),
                forall|j: int|
                    0 <= j < i ==> !((#[trigger] self.cells@[j]).x == x && self.cells@[j].y == y),
            decreases self.cells.len() - i,
        {
            if self.cells[i].x == x && self.cells[i].y == y {
                return false;
            }
            i += 1;
        }
        true
    }

    /// The grid coordinates of `cell` placed on this organism. A coordinate
    /// that is negative or too large for `u32` comes back as `u32::MAX`, which
    /// no grid contains.
    pub fn get_cell_position(&self, cell: &OrganismCell) -> (r: (u32, u32))
        requires
            cell.wf(),
        ensures
            r.0 == grid_coord(self.x + rotated(*cell, self.rotation).0),
            r.1 == grid_coord(self.y + rotated(*cell, self.rotation).1),
    {
        let (dx, dy) = cell.get_rotated_position(self.rotation);
        (to_grid_coord(self.x as i64 + dx as i64), to_grid_coord(self.y as i64 + dy as i64))
    }

    fn has_cell_state(&self, s: CellState) -> (r: bool)
        ensures
            r == self.has_state(s),
    {
        let mut i: usize = 0;
        while i < self.cells.len()
            invariant
                i <= self.cells@.len(),
                forall|j: int| 0 <= j < i ==> (#[trigger] self.cells@[j]).state != s,
            decreases self.cells.len() - i,
        {
            if self.cells[i].state == s {
                return true;
            }
            i += 1;
        }
        false
    }

    /// Some body cell is an eye.
    pub fn has_eyes(&self) -> (r: bool)
        ensures
            r == self.has_state(CellState::Eye),
    {
        self.has_cell_state(CellState::Eye)
    }

    /// Some body cell is a mover.
    pub fn has_movers(&self) -> (r: bool)
        ensures
            r == self.has_state(CellState::Mover),
    {
        self.has_cell_state(CellState::Mover)
    }

    /// Some body cell is a producer.
    pub fn has_producers(&self) -> (r: bool)
        ensures
            r == self.has_state(CellState::Producer),
    {
        self.has_cell_state(CellState::Producer)
    }

    /// Food needed to reproduce: the number of body cells, plus one for an
    /// organism that has a mover.
    pub fn food_needed_to_reproduce(&self) -> (r: u32)
        requires
            self.wf(),
        ensures
            r == self.food_needed(),
    {
        if self.has_movers() {
            self.cells.len() as u32 + 1
        } else {
            self.cells.len() as u32
        }
    }

    /// The age at which the organism dies: its number of body cells times
    /// `lifespan_multiplier`, and at least 1.
    pub fn max_lifespan(&self, lifespan_multiplier: u32) -> (r: u64)
        requires
            self.wf(),
        ensures
            r == self.lifespan(lifespan_multiplier),
    {
        let n = self.cells.len() as u64;
        let m = lifespan_multiplier as u64;
        assert(n * m <= u64::MAX) by (nonlinear_arith)
            requires
                n <= u32::MAX,
                m <= u32::MAX,
        ;
        let l = n * m;
        if l < 1 {
            1
        } else {
            l
        }
    }

    /// The largest offset of the body plan in either axis plus the birth
    /// buffer.
    fn calculate_birth_distance(&self) -> (r: i64)
        ensures
            r == self.birth_distance(),
            BIRTH_BUFFER <= r <= i32::MAX + 1 + BIRTH_BUFFER,
    {
        let mut max_extent: i64 = 0;
        let mut i: usize = 0;
        while i < self.cells.len()
            invariant
                i <= self.cells@.len(),
                max_extent == plan_extent(self.cells@.take(i as int)),
                0 <= max_extent <= i32::MAX + 1,
            decreases self.cells.len() - i,
        {
            let c = self.cells[i];
            let ax: i64 = if c.x < 0 { -(c.x as i64) } else { c.x as i64 };
            let ay: i64 = if c.y < 0 { -(c.y as i64) } else { c.y as i64 };
            let e: i64 = if ax < ay { ay } else { ax };
            assert(self.cells@.take(i + 1).drop_last() =~= self.cells@.take(i as int));
            if max_extent < e {
                max_extent = e;
            }
            i += 1;
        }
        assert(self.cells@.take(i as int) =~= self.cells@);
        max_extent + BIRTH_BUFFER
    }

    /// Takes one point of damage; the organism dies when no health is left.
    pub fn harm(&mut self)
        ensures
            *final(self) == (Organism {
                health: if old(self).health > 0 { (old(self).health - 1) as u32 } else { 0 },
                is_alive: old(self).is_alive && old(self).health > 1,
                ..*old(self)
            }),
    {
        if self.health > 0 {
            self.health -= 1;
        }
        if self.health == 0 {
            self.is_alive = false;
        }
    }
}

/// A grid coordinate for a position: itself when it fits in `u32`, otherwise
/// `u32::MAX`, which lies outside every grid.
pub open spec fn grid_coord(p: int) -> u32 {
    if 0 <= p <= u32::MAX {
        p as u32
    } else {
        u32::MAX
    }
}

fn to_grid_coord(p: i64) -> (r: u32)
    ensures
        r == grid_coord(p as int),
{
    if 0 <= p && p <= u32::MAX as i64 {
        p as u32
    } else {
        u32::MAX
    }
}


impl Organism {
    /// Attaches a cell of `state` beside body cell `base`, one step towards
    /// `side`, when that offset is unoccupied and representable. Health is
    /// left alone.
    pub fn add_cell_beside(&mut self, base: usize, side: Direction, state: CellState) -> (r: bool)
        requires
            old(self).wf(),
            base < old(self).cells@.len(),
        ensures
            final(self).wf(),
            r == beside_ok(old(self).cells@, base as int, side),
            r ==> final(self).cells@ == old(self).cells@.push(final(self).cells@.last()),
            r ==> final(self).cells@.last().state == state,
            r ==> final(self).cells@.last().x == old(self).cells@[base as int].x + side.delta().0,
            r ==> final(self).cells@.last().y == old(self).cells@[base as int].y + side.delta().1,
            !r ==> *final(self) == *old(self),
            *final(self) == (Organism { cells: final(self).cells, ..*old(self) }),
    {
        if self.cells.len() as u64 + 2 > u32::MAX as u64 {
            return false;
        }
        let (dx, dy) = side.to_delta();
        let tx = self.cells[base].x as i64 + dx as i64;
        let ty = self.cells[base].y as i64 + dy as i64;
        if tx <= i32::MIN as i64 || tx > i32::MAX as i64 || ty <= i32::MIN as i64 || ty
            > i32::MAX as i64 {
            return false;
        }
        if !self.can_add_cell_at(tx as i32, ty as i32) {
            return false;
        }
        let c = OrganismCell::new(state, tx as i32, ty as i32);
        self.cells.push(c);
        true
    }

    /// Gives body cell `idx` the state `state`, unless the cell sits at the
    /// anchor offset or already has that state.
    pub fn change_cell_state(&mut self, idx: usize, state: CellState) -> (r: bool)
        requires
            old(self).wf(),
            idx < old(self).cells@.len(),
        ensures
            final(self).wf(),
            r == (!(old(self).cells@[idx as int].x == 0 && old(self).cells@[idx as int].y == 0)
                && old(self).cells@[idx as int].state != state),
            r ==> final(self).cells@ == old(self).cells@.update(
                idx as int,
                OrganismCell { state, ..old(self).cells@[idx as int] },
            ),
            !r ==> *final(self) == *old(self),
            *final(self) == (Organism { cells: final(self).cells, ..*old(self) }),
    {
        let c = self.cells[idx];
        if (c.x == 0 && c.y == 0) || c.state == state {
            return false;
        }
        self.cells.set(idx, OrganismCell { state, ..c });
        true
    }

    /// Removes body cell `idx`, unless it sits at the anchor offset.
    pub fn remove_cell(&mut self, idx: usize) -> (r: bool)
        requires
            old(self).wf(),
            idx < old(self).cells@.len(),
        ensures
            final(self).wf(),
            r == !(old(self).cells@[idx as int].x == 0 && old(self).cells@[idx as int].y == 0),
            r ==> final(self).cells@ == old(self).cells@.remove(idx as int),
            !r ==> *final(self) == *old(self),
            *final(self) == (Organism { cells: final(self).cells, ..*old(self) }),
    {
        if self.cells[idx].x == 0 && self.cells[idx].y == 0 {
            return false;
        }
        self.cells.remove(idx);
        true
    }

    /// Random changes to the body plan: each of adding a cell beside a random
    /// cell, changing the state of a random cell other than the first, and
    /// removing a random cell other than the first is tried with a chance of
    /// 33 in 100. Cells at the anchor offset are never changed or removed, a
    /// new or changed cell takes one of the six body states, and no cell lies
    /// further from the anchor than one more than the furthest before.
    /// Returns whether the body plan was changed.
    #[verifier::rlimit(100)]
    pub fn mutate(&mut self) -> (r: bool)
        requires
            old(self).wf(),
        ensures
            final(self).wf(),
            *final(self) == (Organism { cells: final(self).cells, ..*old(self) }),
            !r ==> final(self).cells@ == old(self).cells@,
            old(self).cells@.len() > 0 ==> final(self).cells@.len() > 0 && final(self).cells@[0]
                == old(self).cells@[0],
            old(self).cells@.len() - 1 <= final(self).cells@.len() <= old(self).cells@.len() + 1,
            origin_kept(old(self).cells@, final(self).cells@),
            kept_or_organ(old(self).cells@, final(self).cells@),
            bounded_plan(final(self).cells@, plan_extent(old(self).cells@) + 1),
            derived_from(old(self).cells@, final(self).cells@),
    {
        let ghost c0 = self.cells@;
        proof {
            lemma_plan_extent(c0);
        }
        let mut changed = false;
        let roll = random_below(100);
        let base = if self.cells.len() > 0 {
            random_below(self.cells.len() as u32) as usize
        } else {
            0
        };
        let side = Direction::random();
        let state = random_cell_state();
        if self.mutation_add(roll, base, side, state) {
            changed = true;
            proof {
                let c = self.cells@;
                assert forall|j: int| 0 <= j < c.len() implies c0.contains(#[trigger] c[j])
                    || is_organ(c[j].state) by {
                    if j < c0.len() {
                        assert(c[j] == c0[j]);
                    }
                }
                assert forall|i: int| 0 <= i < c0.len() && c0[i].x == 0 && c0[i].y == 0 implies c.contains(
                    #[trigger] c0[i],
                ) by {
                    assert(c[i] == c0[i]);
                }
                assert forall|j: int| 0 <= j < c.len() implies cell_extent(#[trigger] c[j])
                    <= plan_extent(c0) + 1 by {
                    if j < c0.len() {
                        assert(c[j] == c0[j]);
                    } else {
                        assert(cell_extent(c0[base as int]) <= plan_extent(c0));
                    }
                }
                assert forall|j: int| 0 <= j < c.len() implies c0.contains(#[trigger] c[j])
                    || retyped_from(c0, c[j]) || attached_to(c0, c[j]) by {
                    if j < c0.len() {
                        assert(c[j] == c0[j]);
                    } else {
                        assert(orth_adjacent(c0[base as int], c[j]));
                    }
                }
            }
        }
        proof {
            if !changed {
                assert(self.cells@ =~= c0);
                lemma_contains_self(c0);
                assert forall|j: int| 0 <= j < c0.len() implies c0.contains(#[trigger] c0[j])
                    || retyped_from(c0, c0[j]) || attached_to(c0, c0[j]) by {}
            }
        }
        let ghost c1 = self.cells@;
        let roll = random_below(100);
        let idx = if self.cells.len() > 1 {
            1 + random_below((self.cells.len() - 1) as u32) as usize
        } else {
            0
        };
        let pick = random_below(5);
        if self.mutation_change(roll, idx, pick) {
            changed = true;
            proof {
                let c = self.cells@;
                assert forall|j: int| 0 <= j < c.len() implies c1.contains(#[trigger] c[j])
                    || is_organ(c[j].state) by {
                    if j != idx {
                        assert(c[j] == c1[j]);
                    }
                }
                assert forall|i: int| 0 <= i < c1.len() && c1[i].x == 0 && c1[i].y == 0 implies c.contains(
                    #[trigger] c1[i],
                ) by {
                    assert(c[i] == c1[i]);
                }
                assert forall|j: int| 0 <= j < c.len() implies cell_extent(#[trigger] c[j])
                    <= plan_extent(c0) + 1 by {
                    assert(cell_extent(c[j]) == cell_extent(c1[j]));
                }
                assert forall|j: int| 0 <= j < c.len() implies c1.contains(#[trigger] c[j])
                    || retyped_from(c1, c[j]) by {
                    if j != idx {
                        assert(c[j] == c1[j]);
                    } else {
                        assert(c[j] == (OrganismCell { state: c[j].state, ..c1[j] }));
                    }
                }
            }
        }
        proof {
            if self.cells@ == c1 {
                lemma_contains_self(c1);
                assert forall|j: int| 0 <= j < c1.len() implies c1.contains(#[trigger] c1[j])
                    || retyped_from(c1, c1[j]) by {}
            }
            lemma_derived_chain(c0, c1, self.cells@);
        }
        let ghost c2 = self.cells@;
        let roll = random_below(100);
        let idx = if self.cells.len() > 1 {
            1 + random_below((self.cells.len() - 1) as u32) as usize
        } else {
            0
        };
        if self.mutation_remove(roll, idx) {
            changed = true;
            proof {
                let c = self.cells@;
                assert forall|j: int| 0 <= j < c.len() implies c2.contains(#[trigger] c[j])
                    || is_organ(c[j].state) by {
                    if j < idx {
                        assert(c[j] == c2[j]);
                    } else {
                        assert(c[j] == c2[j + 1]);
                    }
                }
                assert forall|i: int| 0 <= i < c2.len() && c2[i].x == 0 && c2[i].y == 0 implies c.contains(
                    #[trigger] c2[i],
                ) by {
                    if i < idx {
                        assert(c[i] == c2[i]);
                    } else {
                        assert(c[i - 1] == c2[i]);
                    }
                }
                assert forall|j: int| 0 <= j < c.len() implies cell_extent(#[trigger] c[j])
                    <= plan_extent(c0) + 1 by {
                    if j < idx {
                        assert(c[j] == c2[j]);
                    } else {
                        assert(c[j] == c2[j + 1]);
                    }
                }
                assert forall|j: int| 0 <= j < c.len() implies c2.contains(#[trigger] c[j]) by {
                    if j < idx {
                        assert(c[j] == c2[j]);
                    } else {
                        assert(c[j] == c2[j + 1]);
                    }
                }
            }
        }
        proof {
            if self.cells@ == c2 {
                lemma_contains_self(c2);
                assert forall|j: int| 0 <= j < c2.len() implies c2.contains(#[trigger] c2[j]) by {}
            }
            lemma_contains_self(c0);
            lemma_chain(c0, c1, c2);
            lemma_chain(c0, c2, self.cells@);
            lemma_derived_subset(c0, c2, self.cells@);
        }
        changed
    }

    /// An offspring of `parent` at `(x, y)`: a copy of the parent's body plan
    /// with random rotation and movement direction, fresh vitals, and health
    /// equal to its number of cells. With a chance of `mutability` in 100 the
    /// body plan is mutated, and then with a chance of 10 in 100 each, the
    /// movement range moves by at most 2 (staying at least 1) and the
    /// mutability by at most 1 (staying within 1..=100).
    pub fn new_from_parent(id: usize, x: u32, y: u32, parent: &Organism) -> (r: Organism)
        requires
            parent.wf(),
        ensures
            r.wf(),
            r.vitals_ok(),
            r.id == id,
            r.x == x,
            r.y == y,
            offspring_of(*parent, r),
    {
        let mut organism = Organism {
            id,
            x,
            y,
            rotation: Direction::random(),
            move_direction: Direction::random(),
            cells: copy_cells(&parent.cells),
            food_collected: 0,
            health: 0,
            lifetime: 0,
            mutability: parent.mutability,
            move_range: parent.move_range,
            move_counter: 0,
            is_alive: true,
        };
        proof {
            lemma_contains_self(parent.cells@);
            lemma_plan_extent(parent.cells@);
            assert forall|i: int| 0 <= i < organism.cells@.len() implies cell_extent(
                #[trigger] organism.cells@[i],
            ) <= plan_extent(parent.cells@) + 1 by {}
            assert forall|j: int| 0 <= j < organism.cells@.len() implies parent.cells@.contains(
                #[trigger] organism.cells@[j],
            ) || retyped_from(parent.cells@, organism.cells@[j]) || attached_to(
                parent.cells@,
                organism.cells@[j],
            ) by {
                assert(organism.cells@[j] == parent.cells@[j]);
            }
        }
        if random_below(100) < organism.mutability as u32 {
            organism.mutate();
            let range_roll = random_below(100);
            let range_jitter = random_below(5);
            let mutability_roll = random_below(100);
            let mutability_jitter = random_below(3);
            organism.adjust_traits(range_roll, range_jitter, mutability_roll, mutability_jitter);
        }
        organism.health = organism.cells.len() as u32;
        organism.is_alive = organism.health > 0;
        organism
    }
}

/// No body cell lies further than `b` from the anchor in either axis.
pub open spec fn bounded_plan(cells: Seq<OrganismCell>, b: int) -> bool {
    forall|i: int| 0 <= i < cells.len() ==> cell_extent(#[trigger] cells[i]) <= b
}

/// Every cell of `before` at the anchor offset is still a cell of `after`.
pub open spec fn origin_kept(before: Seq<OrganismCell>, after: Seq<OrganismCell>) -> bool {
    forall|i: int|
        0 <= i < before.len() && before[i].x == 0 && before[i].y == 0 ==> after.contains(
            #[trigger] before[i],
        )
}

/// Every cell of `after` is a cell of `before` or has one of the six body
/// states.
pub open spec fn kept_or_organ(before: Seq<OrganismCell>, after: Seq<OrganismCell>) -> bool {
    forall|j: int| 0 <= j < after.len() ==> before.contains(#[trigger] after[j]) || is_organ(after[j].state)
}

/// The largest extent bounds every cell of the plan.
pub proof fn lemma_plan_extent(cells: Seq<OrganismCell>)
    ensures
        bounded_plan(cells, plan_extent(cells)),
        plan_extent(cells) >= 0,
    decreases cells.len(),
{
    if cells.len() > 0 {
        lemma_plan_extent(cells.drop_last());
        assert forall|i: int| 0 <= i < cells.len() implies cell_extent(#[trigger] cells[i])
            <= plan_extent(cells) by {
            if i < cells.len() - 1 {
                assert(cells[i] == cells.drop_last()[i]);
            }
        }
    }
}

proof fn lemma_contains_self(c: Seq<OrganismCell>)
    ensures
        origin_kept(c, c),
        kept_or_organ(c, c),
{
    assert forall|j: int| 0 <= j < c.len() implies c.contains(#[trigger] c[j]) || is_organ(c[j].state) by {}
    assert forall|i: int| 0 <= i < c.len() && c[i].x == 0 && c[i].y == 0 implies c.contains(#[trigger] c[i]) by {}
}

proof fn lemma_chain(a: Seq<OrganismCell>, b: Seq<OrganismCell>, c: Seq<OrganismCell>)
    requires
        origin_kept(a, b),
        origin_kept(b, c),
        kept_or_organ(a, b),
        kept_or_organ(b, c),
    ensures
        origin_kept(a, c),
        kept_or_organ(a, c),
{
    assert forall|i: int| 0 <= i < a.len() && a[i].x == 0 && a[i].y == 0 implies c.contains(#[trigger] a[i]) by {
        assert(b.contains(a[i]));
        let j = choose|j: int| 0 <= j < b.len() && b[j] == a[i];
        assert(c.contains(b[j]));
    }
    assert forall|k: int| 0 <= k < c.len() implies a.contains(#[trigger] c[k]) || is_organ(c[k].state) by {
        if !is_organ(c[k].state) {
            assert(b.contains(c[k]));
            let j = choose|j: int| 0 <= j < b.len() && b[j] == c[k];
            assert(a.contains(b[j]) || is_organ(b[j].state));
        }
    }
}

/// `a` and `c` are orthogonal neighbors.
pub open spec fn orth_adjacent(a: OrganismCell, c: OrganismCell) -> bool {
    ||| a.x == c.x && (a.y - c.y == 1 || c.y - a.y == 1)
    ||| a.y == c.y && (a.x - c.x == 1 || c.x - a.x == 1)
}

/// `c` sits beside a cell of `plan`, at an offset that no cell of `plan`
/// occupies.
pub open spec fn attached_to(plan: Seq<OrganismCell>, c: OrganismCell) -> bool {
    &&& exists|i: int| 0 <= i < plan.len() && #[trigger] orth_adjacent(plan[i], c)
    &&& forall|i: int| 0 <= i < plan.len() ==> !((#[trigger] plan[i]).x == c.x && plan[i].y == c.y)
}

/// `c` is a cell of `plan` away from the anchor offset, possibly with another
/// state.
pub open spec fn retyped_from(plan: Seq<OrganismCell>, c: OrganismCell) -> bool {
    exists|i: int|
        0 <= i < plan.len() && c == (OrganismCell { state: c.state, ..#[trigger] plan[i] }) && !(
        plan[i].x == 0 && plan[i].y == 0)
}

/// Every cell of `after` is a cell of `before`, a non-anchor cell of `before`
/// with another state, or a cell attached beside `before`.
pub open spec fn derived_from(before: Seq<OrganismCell>, after: Seq<OrganismCell>) -> bool {
    forall|j: int|
        0 <= j < after.len() ==> before.contains(#[trigger] after[j]) || retyped_from(before, after[j])
            || attached_to(before, after[j])
}

proof fn lemma_derived_chain(a: Seq<OrganismCell>, b: Seq<OrganismCell>, c: Seq<OrganismCell>)
    requires
        derived_from(a, b),
        forall|j: int| 0 <= j < c.len() ==> b.contains(#[trigger] c[j]) || retyped_from(b, c[j]),
    ensures
        derived_from(a, c),
{
    assert forall|j: int| 0 <= j < c.len() implies a.contains(#[trigger] c[j]) || retyped_from(a, c[j])
        || attached_to(a, c[j]) by {
        let x = c[j];
        let k = if b.contains(x) {
            choose|k: int| 0 <= k < b.len() && b[k] == x
        } else {
            choose|k: int|
                0 <= k < b.len() && x == (OrganismCell { state: x.state, ..#[trigger] b[k] }) && !(
                b[k].x == 0 && b[k].y == 0)
        };
        let y = b[k];
        assert(a.contains(y) || retyped_from(a, y) || attached_to(a, y));
        if a.contains(y) {
            let i = choose|i: int| 0 <= i < a.len() && a[i] == y;
            if x != y {
                assert(x == (OrganismCell { state: x.state, ..a[i] }));
            }
        } else if retyped_from(a, y) {
            let i = choose|i: int|
                0 <= i < a.len() && y == (OrganismCell { state: y.state, ..#[trigger] a[i] }) && !(
                a[i].x == 0 && a[i].y == 0);
            assert(x == (OrganismCell { state: x.state, ..a[i] }));
        } else {
            let i = choose|i: int| 0 <= i < a.len() && #[trigger] orth_adjacent(a[i], y);
            assert(orth_adjacent(a[i], x));
        }
    }
}

proof fn lemma_derived_subset(a: Seq<OrganismCell>, b: Seq<OrganismCell>, c: Seq<OrganismCell>)
    requires
        derived_from(a, b),
        forall|j: int| 0 <= j < c.len() ==> b.contains(#[trigger] c[j]),
    ensures
        derived_from(a, c),
{
    assert forall|j: int| 0 <= j < c.len() implies a.contains(#[trigger] c[j]) || retyped_from(a, c[j])
        || attached_to(a, c[j]) by {
        let k = choose|k: int| 0 <= k < b.len() && b[k] == c[j];
        assert(a.contains(b[k]) || retyped_from(a, b[k]) || attached_to(a, b[k]));
    }
}

/// `c` is an offspring of `parent` apart from its id, anchor and rotation:
/// fresh vitals with health equal to its number of cells, the parent's body
/// plan possibly mutated (see `Organism::mutate`), and the movement range and
/// mutability kept or moved by at most 2 and 1.
pub open spec fn offspring_of(parent: Organism, c: Organism) -> bool {
    &&& c.food_collected == 0
    &&& c.lifetime == 0
    &&& c.move_counter == 0
    &&& c.health == c.cells@.len()
    &&& c.is_alive == (c.cells@.len() > 0)
    &&& parent.cells@.len() > 0 ==> c.cells@.len() > 0 && c.cells@[0] == parent.cells@[0]
    &&& c.mutability == parent.mutability || (1 <= c.mutability <= 100 && (parent.mutability <= 100
        ==> c.mutability - parent.mutability <= 1 && parent.mutability - c.mutability <= 1))
    &&& c.move_range == parent.move_range || (c.move_range >= 1 && c.move_range - parent.move_range
        <= 2 && parent.move_range - c.move_range <= 2)
    &&& parent.cells@.len() - 1 <= c.cells@.len() <= parent.cells@.len() + 1
    &&& origin_kept(parent.cells@, c.cells@)
    &&& kept_or_organ(parent.cells@, c.cells@)
    &&& bounded_plan(c.cells@, plan_extent(parent.cells@) + 1)
    &&& derived_from(parent.cells@, c.cells@)
}

/// The body plan of preset organism `kind`, cell by cell as `(state, x, y)`,
/// starting with the mouth every organism is born with: 0 a producer with four
/// producers around its mouth, 1 a mobile hunter (mover, killer and eye), 2 an
/// armored producer, anything else a small producer.
pub open spec fn preset_plan(kind: u8) -> Seq<(CellState, int, int)> {
    if kind == 0 {
        seq![
            (CellState::Mouth, 0, 0),
            (CellState::Mouth, 0, 0),
            (CellState::Producer, 1, 0),
            (CellState::Producer, -1, 0),
            (CellState::Producer, 0, 1),
            (CellState::Producer, 0, -1),
        ]
    } else if kind == 1 {
        seq![
            (CellState::Mouth, 0, 0),
            (CellState::Mouth, 0, 0),
            (CellState::Mover, 1, 0),
            (CellState::Killer, 0, 1),
            (CellState::Eye, -1, 0),
        ]
    } else if kind == 2 {
        seq![
            (CellState::Mouth, 0, 0),
            (CellState::Mouth, 0, 0),
            (CellState::Producer, 1, 0),
            (CellState::Producer, -1, 0),
            (CellState::Armor, 0, 1),
            (CellState::Armor, 0, -1),
        ]
    } else {
        seq![
            (CellState::Mouth, 0, 0),
            (CellState::Mouth, 0, 0),
            (CellState::Producer, 1, 0),
            (CellState::Producer, -1, 0),
        ]
    }
}

impl Organism {
    /// A new living preset organism of `kind` (see `preset_plan`) at
    /// `(x, y)`, without an id, with health equal to its number of cells.
    pub fn preset(kind: u8, x: u32, y: u32) -> (r: Organism)
        ensures
            r.wf(),
            r.vitals_ok(),
            r.id == 0,
            r.x == x,
            r.y == y,
            r.rotation == Direction::Up,
            r.is_alive,
            r.food_collected == 0,
            r.lifetime == 0,
            r.health == r.cells@.len(),
            r.cells@.len() == preset_plan(kind).len(),
            forall|i: int|
                0 <= i < r.cells@.len() ==> ((#[trigger] r.cells@[i]).state, r.cells@[i].x as int,
                r.cells@[i].y as int) == preset_plan(kind)[i],
    {
        let mut o = Organism::new(0, x, y);
        o.add_cell(CellState::Mouth, 0, 0);
        if kind == 0 {
            o.add_cell(CellState::Producer, 1, 0);
            o.add_cell(CellState::Producer, -1, 0);
            o.add_cell(CellState::Producer, 0, 1);
            o.add_cell(CellState::Producer, 0, -1);
        } else if kind == 1 {
            o.add_cell(CellState::Mover, 1, 0);
            o.add_cell(CellState::Killer, 0, 1);
            o.add_cell(CellState::Eye, -1, 0);
        } else if kind == 2 {
            o.add_cell(CellState::Producer, 1, 0);
            o.add_cell(CellState::Producer, -1, 0);
            o.add_cell(CellState::Armor, 0, 1);
            o.add_cell(CellState::Armor, 0, -1);
        } else {
            o.add_cell(CellState::Producer, 1, 0);
            o.add_cell(CellState::Producer, -1, 0);
        }
        proof {
            let plan = preset_plan(kind);
            assert forall|i: int| 0 <= i < o.cells@.len() implies ((#[trigger] o.cells@[i]).state,
                o.cells@[i].x as int, o.cells@[i].y as int) == plan[i] by {
                if i == 0 {
                } else if i == 1 {
                } else if i == 2 {
                } else if i == 3 {
                } else if i == 4 {
                } else {
                }
            }
        }
        o
    }
}

/// A cell can be attached beside cell `base` of `cells`, one step towards
/// `side`: the offset is representable, unoccupied, and the plan can grow.
pub open spec fn beside_ok(cells: Seq<OrganismCell>, base: int, side: Direction) -> bool {
    let tx = cells[base].x + side.delta().0;
    let ty = cells[base].y + side.delta().1;
    &&& cells.len() + 2 <= u32::MAX
    &&& i32::MIN < tx <= i32::MAX
    &&& i32::MIN < ty <= i32::MAX
    &&& !(exists|i: int| 0 <= i < cells.len() && (#[trigger] cells[i]).x == tx && cells[i].y == ty)
}

/// The movement range after a trait change with jitter `j` (`0..5`): moved by
/// `j - 2`, kept within `1..=u32::MAX`.
pub open spec fn shifted_range(range: u32, j: u32) -> u32 {
    let v = range + j - 2;
    if v < 1 {
        1
    } else if v > u32::MAX {
        u32::MAX
    } else {
        v as u32
    }
}

/// The mutability after a trait change with jitter `j` (`0..3`): moved by
/// `j - 1`, kept within `1..=100`.
pub open spec fn shifted_mutability(m: u8, j: u32) -> u8 {
    let v = m + j - 1;
    if v < 1 {
        1
    } else if v > 100 {
        100
    } else {
        v as u8
    }
}

/// Chance in 100 of each trait change of a mutated offspring.
pub const TRAIT_CHANCE: u32 = 10;

impl Organism {
    /// The adding step of a mutation, given its draws: when `roll` is below
    /// the mutation chance, attaches a cell of `state` beside cell `base`
    /// towards `side` (see `add_cell_beside`).
    pub fn mutation_add(&mut self, roll: u32, base: usize, side: Direction, state: CellState) -> (r: bool)
        requires
            old(self).wf(),
            old(self).cells@.len() > 0 ==> base < old(self).cells@.len(),
        ensures
            final(self).wf(),
            r == (roll < MUTATION_CHANCE && old(self).cells@.len() > 0 && beside_ok(
                old(self).cells@,
                base as int,
                side,
            )),
            r ==> final(self).cells@ == old(self).cells@.push(final(self).cells@.last()),
            r ==> final(self).cells@.last().state == state,
            r ==> final(self).cells@.last().x == old(self).cells@[base as int].x + side.delta().0,
            r ==> final(self).cells@.last().y == old(self).cells@[base as int].y + side.delta().1,
            !r ==> *final(self) == *old(self),
            *final(self) == (Organism { cells: final(self).cells, ..*old(self) }),
    {
        if roll < MUTATION_CHANCE && self.cells.len() > 0 {
            self.add_cell_beside(base, side, state)
        } else {
            false
        }
    }

    /// The changing step of a mutation, given its draws: when `roll` is below
    /// the mutation chance and the plan has more than one cell, cell `idx`
    /// takes the `pick`-th other body state, unless it sits at the anchor
    /// offset.
    pub fn mutation_change(&mut self, roll: u32, idx: usize, pick: u32) -> (r: bool)
        requires
            old(self).wf(),
            pick < 5,
            old(self).cells@.len() > 1 ==> 1 <= idx < old(self).cells@.len(),
        ensures
            final(self).wf(),
            r == (roll < MUTATION_CHANCE && old(self).cells@.len() > 1 && !(old(self).cells@[idx as int].x
                == 0 && old(self).cells@[idx as int].y == 0)),
            r ==> final(self).cells@ == old(self).cells@.update(
                idx as int,
                OrganismCell {
                    state: other_organ(old(self).cells@[idx as int].state, pick as int),
                    ..old(self).cells@[idx as int]
                },
            ),
            !r ==> *final(self) == *old(self),
            *final(self) == (Organism { cells: final(self).cells, ..*old(self) }),
    {
        if roll < MUTATION_CHANCE && self.cells.len() > 1 {
            let state = other_organ_state(self.cells[idx].state, pick);
            self.change_cell_state(idx, state)
        } else {
            false
        }
    }

    /// The removing step of a mutation, given its draws: when `roll` is below
    /// the mutation chance and the plan has more than one cell, removes cell
    /// `idx` unless it sits at the anchor offset.
    pub fn mutation_remove(&mut self, roll: u32, idx: usize) -> (r: bool)
        requires
            old(self).wf(),
            old(self).cells@.len() > 1 ==> 1 <= idx < old(self).cells@.len(),
        ensures
            final(self).wf(),
            r == (roll < MUTATION_CHANCE && old(self).cells@.len() > 1 && !(old(self).cells@[idx as int].x
                == 0 && old(self).cells@[idx as int].y == 0)),
            r ==> final(self).cells@ == old(self).cells@.remove(idx as int),
            !r ==> *final(self) == *old(self),
            *final(self) == (Organism { cells: final(self).cells, ..*old(self) }),
    {
        if roll < MUTATION_CHANCE && self.cells.len() > 1 {
            self.remove_cell(idx)
        } else {
            false
        }
    }

    /// The trait changes of a mutated offspring, given their draws: with a
    /// roll below `TRAIT_CHANCE` each, the movement range moves by
    /// `range_jitter - 2` and the mutability by `mutability_jitter - 1`
    /// (see `shifted_range`, `shifted_mutability`).
    pub fn adjust_traits(
        &mut self,
        range_roll: u32,
        range_jitter: u32,
        mutability_roll: u32,
        mutability_jitter: u32,
    )
        requires
            range_jitter < 5,
            mutability_jitter < 3,
        ensures
            *final(self) == (Organism {
                move_range: if range_roll < TRAIT_CHANCE {
                    shifted_range(old(self).move_range, range_jitter)
                } else {
                    old(self).move_range
                },
                mutability: if mutability_roll < TRAIT_CHANCE {
                    shifted_mutability(old(self).mutability, mutability_jitter)
                } else {
                    old(self).mutability
                },
                ..*old(self)
            }),
    {
        if range_roll < TRAIT_CHANCE {
            let range = self.move_range as i64 + range_jitter as i64 - 2;
            self.move_range = if range < 1 {
                1
            } else if range > u32::MAX as i64 {
                u32::MAX
            } else {
                range as u32
            };
        }
        if mutability_roll < TRAIT_CHANCE {
            let m = self.mutability as i64 + mutability_jitter as i64 - 1;
            self.mutability = if m < 1 {
                1
            } else if m > 100 {
                100
            } else {
                m as u8
            };
        }
    }
}

/// Chance in 100 of each kind of change when a body plan mutates.
pub const MUTATION_CHANCE: u32 = 33;

impl Organism {
    /// Tries one step in `move_direction`. Only an organism with a mover can
    /// move, and only when every body cell would land on a tile that is clear
    /// or already its own. After a move the move counter grows, and once it
    /// reaches `move_range` a new direction is drawn and the counter restarts.
    /// When blocked, a new direction is drawn with a chance of one half.
    pub fn try_move(&mut self, grid: &Grid) -> (r: bool)
        requires
            old(self).wf(),
            grid.dims_ok(),
        ensures
            r == can_step(*grid, *old(self)),
            !old(self).has_state(CellState::Mover) ==> *final(self) == *old(self),
            r ==> stepped(*old(self), *final(self)),
            !r ==> stalled(*old(self), *final(self)),
    {
        if !self.has_movers() {
            return false;
        }
        let (dx, dy) = self.move_direction.to_delta();
        let nx = self.x as i64 + dx as i64;
        let ny = self.y as i64 + dy as i64;
        let fits = 0 <= nx && nx <= u32::MAX as i64 && 0 <= ny && ny <= u32::MAX as i64
            && grid.has_room_for(self, nx, ny, self.rotation);
        if fits {
            self.x = nx as u32;
            self.y = ny as u32;
            let c = if self.move_counter < u32::MAX {
                self.move_counter + 1
            } else {
                u32::MAX
            };
            if c >= self.move_range {
                self.move_direction = Direction::random();
                self.move_counter = 0;
            } else {
                self.move_counter = c;
            }
            true
        } else {
            if random_below(2) == 0 {
                self.move_direction = Direction::random();
                self.move_counter = 0;
            }
            false
        }
    }

    /// Turns the body to `rotation` when every body cell would then lie on a
    /// tile that is clear or already its own; otherwise nothing changes.
    pub fn try_rotate_to(&mut self, grid: &Grid, rotation: Direction) -> (r: bool)
        requires
            old(self).wf(),
            grid.dims_ok(),
        ensures
            r == grid.room_for(*old(self), old(self).x as int, old(self).y as int, rotation),
            r ==> *final(self) == (Organism { rotation, ..*old(self) }),
            !r ==> *final(self) == *old(self),
    {
        if grid.has_room_for(self, self.x as i64, self.y as i64, rotation) {
            self.rotation = rotation;
            true
        } else {
            false
        }
    }

    /// Tries to turn the body to a rotation drawn at random (see
    /// `try_rotate_to`).
    pub fn try_rotate(&mut self, grid: &Grid) -> (r: bool)
        requires
            old(self).wf(),
            grid.dims_ok(),
        ensures
            turned_in_place(*grid, *old(self), *final(self)),
            (forall|rot: Direction|
                grid.room_for(*old(self), old(self).x as int, old(self).y as int, rot)) ==> r,
            r ==> grid.room_for(*old(self), old(self).x as int, old(self).y as int, final(self).rotation),
            !r ==> *final(self) == *old(self),
    {
        let rotation = Direction::random();
        self.try_rotate_to(grid, rotation)
    }

    /// Food within reach of this organism's mouths: for each mouth, the number
    /// of its neighbors holding food.
    pub fn food_in_reach(&self, grid: &Grid) -> (r: u64)
        requires
            self.wf(),
            grid.dims_ok(),
        ensures
            r == mouth_food(*grid, *self, self.cells@.len() as int),
            r <= 4 * self.cells@.len(),
    {
        let mut total: u64 = 0;
        let mut k: usize = 0;
        while k < self.cells.len()
            invariant
                k <= self.cells@.len(),
                self.wf(),
                grid.dims_ok(),
                total == mouth_food(*grid, *self, k as int),
                total <= 4 * k,
            decreases self.cells.len() - k,
        {
            let c = self.cells[k];
            if c.state == CellState::Mouth {
                assert(c.wf());
                let (dx, dy) = c.get_rotated_position(self.rotation);
                let n = grid.count_food_around(self.x as i64 + dx as i64, self.y as i64 + dy as i64);
                total = total + n as u64;
            }
            k += 1;
        }
        total
    }

    /// One tick of a living organism's own life, reading the tiles of `grid`.
    /// It ages by one; at its lifespan it dies and nothing else happens.
    /// Otherwise it collects the food within reach of its mouths (the count
    /// saturates at `u32::MAX`), and an organism with a mover tries to move,
    /// and when that fails tries to rotate. A dead organism is left alone.
    pub fn update(&mut self, grid: &Grid, lifespan_multiplier: u32)
        requires
            old(self).wf(),
            grid.dims_ok(),
        ensures
            final(self).wf(),
            updated(*grid, *old(self), *final(self), lifespan_multiplier),
            final(self).lifetime >= final(self).lifespan(lifespan_multiplier) ==> !final(self).is_alive,
    {
        if !self.is_alive {
            return;
        }
        let gain = self.food_in_reach(grid);
        if self.lifetime < u32::MAX {
            self.lifetime = self.lifetime + 1;
        }
        if self.lifetime as u64 >= self.max_lifespan(lifespan_multiplier) {
            self.is_alive = false;
            return;
        }
        let food = self.food_collected as u64 + gain;
        self.food_collected = if food > u32::MAX as u64 {
            u32::MAX
        } else {
            food as u32
        };
        if self.has_movers() {
            let moved = self.try_move(grid);
            if !moved {
                let ghost mid = *self;
                self.try_rotate(grid);
                assert(turned_in_place(*grid, mid, *self));
            }
        }
    }
}

/// `(x, y)` is in bounds, and every other tile within Chebyshev distance `r`
/// of it is in bounds and empty (the tile itself may hold the parent).
pub open spec fn open_ground(g: Grid, x: int, y: int, r: int) -> bool {
    &&& g.in_bounds(x, y)
    &&& forall|px: int, py: int|
        0 < chebyshev(x, y, px, py) <= r ==> #[trigger] g.in_bounds(px, py) && g.tile(px, py).state
            == CellState::Empty
}

/// `o` with its anchor moved to `(x, y)` and its body turned to `rotation`.
pub open spec fn placed_at(o: Organism, x: int, y: int, rotation: Direction) -> Organism {
    Organism { x: x as u32, y: y as u32, rotation, ..o }
}

/// `child` fits at `(x, y)` turned to `rotation` as an offspring of `parent`:
/// the anchor is a grid coordinate, every body cell lies on a placeable tile,
/// and the straight path from the parent's anchor is clear.
pub open spec fn birth_fits(
    g: Grid,
    parent: Organism,
    child: Organism,
    x: int,
    y: int,
    rotation: Direction,
) -> bool {
    &&& 0 <= x <= u32::MAX
    &&& 0 <= y <= u32::MAX
    &&& g.can_place(placed_at(child, x, y, rotation))
    &&& g.path_clear(parent.x as int, parent.y as int, x, y)
}

/// The anchor `dist` tiles from the parent's anchor along the unit step `d`.
pub open spec fn candidate_spot(parent: Organism, d: (i64, i64), dist: i64) -> (int, int) {
    (parent.x + scaled(d.0 as int, dist as int), parent.y + scaled(d.1 as int, dist as int))
}

/// Candidate `i` of a birth search fits.
pub open spec fn candidate_fits(
    g: Grid,
    parent: Organism,
    child: Organism,
    dirs: Seq<(i64, i64)>,
    dists: Seq<i64>,
    rotations: Seq<Direction>,
    i: int,
) -> bool {
    let p = candidate_spot(parent, dirs[i], dists[i]);
    birth_fits(g, parent, child, p.0, p.1, rotations[i])
}

/// For a parent whose cells all sit at its anchor, on open ground of twice
/// the birth distance around it, any candidate at a birth distance (plus up
/// to two) fits, for a child no wider than one cell from its anchor.
pub proof fn lemma_first_candidate_fits(
    g: Grid,
    parent: Organism,
    child: Organism,
    d: (i64, i64),
    dist: i64,
    rotation: Direction,
)
    requires
        g.dims_ok(),
        plan_extent(parent.cells@) == 0,
        open_ground(g, parent.x as int, parent.y as int, 2 * parent.birth_distance()),
        unit_step(d),
        parent.birth_distance() <= dist <= parent.birth_distance() + 2,
        bounded_plan(child.cells@, plan_extent(parent.cells@) + 1),
    ensures
        birth_fits(
            g,
            parent,
            child,
            candidate_spot(parent, d, dist).0,
            candidate_spot(parent, d, dist).1,
            rotation,
        ),
{
    let bd = parent.birth_distance();
    let x = parent.x as int;
    let y = parent.y as int;
    let c = candidate_spot(parent, d, dist);
    assert(chebyshev(x, y, c.0, c.1) == dist);
    assert(g.in_bounds(c.0, c.1));
    let placed = placed_at(child, c.0, c.1, rotation);
    assert forall|i: int| 0 <= i < placed.cells@.len() implies g.placeable(
        #[trigger] placed.position(i).0,
        placed.position(i).1,
    ) by {
        let cell = child.cells@[i];
        assert(cell_extent(cell) <= 1);
        let p = placed.position(i);
        let r = rotated(cell, rotation);
        assert(-1 <= r.0 <= 1 && -1 <= r.1 <= 1);
        assert(p == (c.0 + r.0, c.1 + r.1));
        assert(0 < chebyshev(x, y, p.0, p.1) <= 2 * bd);
        assert(g.in_bounds(p.0, p.1));
    }
    let sx = sign(c.0 - x);
    let sy = sign(c.1 - y);
    let dx = abs(c.0 - x);
    let dy = abs(c.1 - y);
    let n = if dx > dy { dx } else { dy };
    assert(n == dist);
    assert forall|m: int| 0 < m < n implies #[trigger] g.clear_at(
        x + scaled(sx, ray_step(dx, m)),
        y + scaled(sy, ray_step(dy, m)),
    ) by {
        let px = x + scaled(sx, ray_step(dx, m));
        let py = y + scaled(sy, ray_step(dy, m));
        assert(chebyshev(x, y, px, py) == m);
        assert(g.in_bounds(px, py));
    }
    lemma_sweep_straight(g, x, y, sx, sy, dx, dy, 0);
}

/// `(x, y)` is a birth spot for an offspring of `parent`: on one of the eight
/// rays from its anchor (horizontal, vertical or diagonal), at a Chebyshev
/// distance from the birth distance up to two more.
pub open spec fn birth_spot(parent: Organism, x: int, y: int) -> bool {
    let d = chebyshev(parent.x as int, parent.y as int, x, y);
    &&& straight(parent.x as int, parent.y as int, x, y)
    &&& parent.birth_distance() <= d <= parent.birth_distance() + 2
}

/// The rotation given to an offspring born towards the unit step `(dx, dy)`:
/// up or down for a step with a vertical part, otherwise right or left.
pub fn facing_for(dx: i64, dy: i64) -> (r: Direction)
    ensures
        dy < 0 ==> r == Direction::Up,
        dy > 0 ==> r == Direction::Down,
        dy == 0 && dx > 0 ==> r == Direction::Right,
        dy == 0 && dx <= 0 ==> r == Direction::Left,
{
    if dy < 0 {
        Direction::Up
    } else if dy > 0 {
        Direction::Down
    } else if dx > 0 {
        Direction::Right
    } else {
        Direction::Left
    }
}

/// The eight unit steps: four orthogonal, four diagonal.
pub open spec fn unit_step(d: (i64, i64)) -> bool {
    &&& -1 <= d.0 <= 1
    &&& -1 <= d.1 <= 1
    &&& !(d.0 == 0 && d.1 == 0)
}

impl Organism {
    /// The first of the candidate birth spots, in order, at which `child` fits:
    /// candidate `i` puts the child's anchor `dists[i]` tiles from this
    /// organism's anchor along `dirs[i]`, turned to `rotations[i]`; it fits
    /// when the anchor is a grid coordinate, every body cell lies on a
    /// placeable tile, and the straight path from this organism's anchor is
    /// clear. `None` when no candidate fits.
    pub fn find_birth_spot(
        &self,
        grid: &Grid,
        child: &Organism,
        dirs: &Vec<(i64, i64)>,
        dists: &Vec<i64>,
        rotations: &Vec<Direction>,
    ) -> (r: Option<usize>)
        requires
            child.wf(),
            grid.dims_ok(),
            dirs@.len() == dists@.len(),
            dists@.len() == rotations@.len(),
            forall|i: int| 0 <= i < dirs@.len() ==> unit_step(#[trigger] dirs@[i]),
            forall|i: int| 0 <= i < dists@.len() ==> 0 <= #[trigger] dists@[i] <= 0x1_0000_0000,
        ensures
            match r {
                Some(i) => {
                    &&& i < dirs@.len()
                    &&& candidate_fits(*grid, *self, *child, dirs@, dists@, rotations@, i as int)
                    &&& forall|j: int|
                        0 <= j < i ==> !#[trigger] candidate_fits(
                            *grid,
                            *self,
                            *child,
                            dirs@,
                            dists@,
                            rotations@,
                            j,
                        )
                },
                None => forall|j: int|
                    0 <= j < dirs@.len() ==> !#[trigger] candidate_fits(
                        *grid,
                        *self,
                        *child,
                        dirs@,
                        dists@,
                        rotations@,
                        j,
                    ),
            },
    {
        let mut i: usize = 0;
        while i < dirs.len()
            invariant
                i <= dirs@.len(),
                child.wf(),
                grid.dims_ok(),
                dirs@.len() == dists@.len(),
                dists@.len() == rotations@.len(),
                forall|k: int| 0 <= k < dirs@.len() ==> unit_step(#[trigger] dirs@[k]),
                forall|k: int| 0 <= k < dists@.len() ==> 0 <= #[trigger] dists@[k] <= 0x1_0000_0000,
                forall|j: int|
                    0 <= j < i ==> !#[trigger] candidate_fits(
                        *grid,
                        *self,
                        *child,
                        dirs@,
                        dists@,
                        rotations@,
                        j,
                    ),
            decreases dirs.len() - i,
        {
            let (dx, dy) = dirs[i];
            let dist = dists[i];
            assert(unit_step(dirs@[i as int]));
            assert(0 <= dists@[i as int]);
            let ox: i64 = if dx > 0 { dist } else if dx < 0 { -dist } else { 0 };
            let oy: i64 = if dy > 0 { dist } else if dy < 0 { -dist } else { 0 };
            let cx = self.x as i64 + ox;
            let cy = self.y as i64 + oy;
            assert(candidate_spot(*self, dirs@[i as int], dists@[i as int]) == (cx as int, cy as int));
            if 0 <= cx && cx <= u32::MAX as i64 && 0 <= cy && cy <= u32::MAX as i64 {
                let placeable = grid.can_place_at(child, cx, cy, rotations[i]);
                if placeable && grid.is_straight_path_clear(self.x, self.y, cx as u32, cy as u32) {
                    return Some(i);
                }
            }
            i += 1;
        }
        None
    }

    /// Attempts to produce one offspring when enough food has been collected.
    /// The eight directions are put in a random order and each gets a birth
    /// distance plus a random 0 to 2 tiles and a rotation that is this
    /// organism's, the one facing the birth direction, or a random one; a
    /// mutated copy of this organism (see `new_from_parent`) is placed at the
    /// first of those candidates where it fits (see `find_birth_spot`). It is
    /// returned without an id, and the cost of reproduction is taken from the
    /// food collected. When no candidate fits nothing changes. An organism
    /// whose cells all sit at its anchor, with enough food, on open ground
    /// (every other tile within twice the birth distance in bounds and empty)
    /// always succeeds.
    pub fn try_reproduce(&mut self, grid: &Grid) -> (r: Option<Organism>)
        requires
            old(self).wf(),
            grid.dims_ok(),
        ensures
            old(self).food_collected < old(self).food_needed() ==> r.is_none(),
            old(self).food_collected >= old(self).food_needed() && plan_extent(old(self).cells@)
                == 0 && open_ground(
                *grid,
                old(self).x as int,
                old(self).y as int,
                2 * old(self).birth_distance(),
            ) ==> r.is_some(),
            r.is_none() ==> *final(self) == *old(self),
            r.is_some() ==> old(self).food_collected >= old(self).food_needed() && *final(self) == (
            Organism {
                food_collected: (old(self).food_collected - old(self).food_needed()) as u32,
                ..*old(self)
            }),
            r.is_some() ==> ({
                let c = r.unwrap();
                &&& c.wf()
                &&& c.vitals_ok()
                &&& c.id == 0
                &&& c.food_collected == 0
                &&& c.lifetime == 0
                &&& c.health == c.cells@.len()
                &&& c.is_alive == (c.cells@.len() > 0)
                &&& old(self).cells@.len() > 0 ==> c.is_alive
                &&& offspring_of(*old(self), c)
                &&& grid.can_place(c)
                &&& birth_spot(*old(self), c.x as int, c.y as int)
                &&& grid.path_clear(old(self).x as int, old(self).y as int, c.x as int, c.y as int)
            }),
    {
        let needed = self.food_needed_to_reproduce();
        if self.food_collected < needed {
            return None;
        }
        let mut dirs: Vec<(i64, i64)> = vec![
            (0, -1),
            (1, 0),
            (0, 1),
            (-1, 0),
            (1, -1),
            (1, 1),
            (-1, 1),
            (-1, -1),
        ];
        let mut i: usize = 0;
        while i < 8
            invariant
                dirs@.len() == 8,
                forall|j: int| 0 <= j < 8 ==> unit_step(#[trigger] dirs@[j]),
            decreases 8 - i,
        {
            let j = random_below(8) as usize;
            let a = dirs[i];
            let b = dirs[j];
            dirs.set(i, b);
            dirs.set(j, a);
            i += 1;
        }
        let bd = self.calculate_birth_distance();
        let mut dists: Vec<i64> = Vec::new();
        let mut rotations: Vec<Direction> = Vec::new();
        let mut i: usize = 0;
        while i < 8
            invariant
                i <= 8,
                dirs@.len() == 8,
                forall|j: int| 0 <= j < 8 ==> unit_step(#[trigger] dirs@[j]),
                dists@.len() == i,
                rotations@.len() == i,
                bd == self.birth_distance(),
                BIRTH_BUFFER <= bd <= i32::MAX + 1 + BIRTH_BUFFER,
                forall|j: int| 0 <= j < i ==> bd <= #[trigger] dists@[j] <= bd + 2,
            decreases 8 - i,
        {
            dists.push(bd + random_below(3) as i64);
            let (dx, dy) = dirs[i];
            let rotation = if random_below(2) == 0 {
                self.rotation
            } else if random_below(2) == 0 {
                facing_for(dx, dy)
            } else {
                Direction::random()
            };
            rotations.push(rotation);
            i += 1;
        }
        let mut child = Organism::new_from_parent(0, self.x, self.y, self);
        match self.find_birth_spot(grid, &child, &dirs, &dists, &rotations) {
            Some(k) => {
                let (dx, dy) = dirs[k];
                let dist = dists[k];
                assert(unit_step(dirs@[k as int]));
                let cx = self.x as i64 + if dx > 0 { dist } else if dx < 0 { -dist } else { 0 };
                let cy = self.y as i64 + if dy > 0 { dist } else if dy < 0 { -dist } else { 0 };
                assert(candidate_spot(*self, dirs@[k as int], dists@[k as int]) == (cx as int, cy as int));
                child.x = cx as u32;
                child.y = cy as u32;
                child.rotation = rotations[k];
                proof {
                    assert(straight(self.x as int, self.y as int, cx as int, cy as int));
                }
                self.food_collected = self.food_collected - needed;
                Some(child)
            },
            None => {
                proof {
                    if plan_extent(self.cells@) == 0 && open_ground(
                        *grid,
                        self.x as int,
                        self.y as int,
                        2 * self.birth_distance(),
                    ) {
                        lemma_first_candidate_fits(
                            *grid,
                            *self,
                            child,
                            dirs@[0],
                            dists@[0],
                            rotations@[0],
                        );
                        assert(candidate_fits(*grid, *self, child, dirs@, dists@, rotations@, 0));
                    }
                }
                None
            },
        }
    }
}

/// The step that `try_move` attempts is possible: the organism has a mover,
/// the anchor one step in `move_direction` fits in `u32`, and every body cell
/// would land on a tile that is clear or its own.
pub open spec fn can_step(g: Grid, o: Organism) -> bool {
    let nx = o.x + o.move_direction.delta().0;
    let ny = o.y + o.move_direction.delta().1;
    &&& o.has_state(CellState::Mover)
    &&& 0 <= nx <= u32::MAX
    &&& 0 <= ny <= u32::MAX
    &&& g.room_for(o, nx, ny, o.rotation)
}

/// `after` is `before` moved one step in its movement direction; the move
/// counter grew by one (saturating), or restarted at 0 with a new direction
/// once it reached the range.
pub open spec fn stepped(before: Organism, after: Organism) -> bool {
    let counted = if before.move_counter < u32::MAX {
        before.move_counter + 1
    } else {
        before.move_counter as int
    };
    &&& after.x == before.x + before.move_direction.delta().0
    &&& after.y == before.y + before.move_direction.delta().1
    &&& counted < before.move_range ==> after.move_counter == counted && after.move_direction
        == before.move_direction
    &&& counted >= before.move_range ==> after.move_counter == 0
    &&& after == (Organism {
        x: after.x,
        y: after.y,
        move_direction: after.move_direction,
        move_counter: after.move_counter,
        ..before
    })
}

/// `after` is `before` after a blocked step: in place, perhaps with a new
/// direction and a restarted move counter.
pub open spec fn stalled(before: Organism, after: Organism) -> bool {
    &&& after.move_counter == 0 || (after.move_counter == before.move_counter
        && after.move_direction == before.move_direction)
    &&& after == (Organism {
        move_direction: after.move_direction,
        move_counter: after.move_counter,
        ..before
    })
}

/// `after` is `before`, or `before` turned in place to a rotation for which it
/// has room on `g`.
pub open spec fn turned_in_place(g: Grid, before: Organism, after: Organism) -> bool {
    ||| after == before
    ||| g.room_for(before, before.x as int, before.y as int, after.rotation) && after == (Organism {
        rotation: after.rotation,
        ..before
    })
}

/// `after` is `before` after one update against the tiles of `g` (see
/// `Organism::update`).
pub open spec fn updated(g: Grid, before: Organism, after: Organism, lifespan_multiplier: u32) -> bool {
    let lifetime = if before.lifetime < u32::MAX {
        before.lifetime + 1
    } else {
        before.lifetime as int
    };
    let fed = Organism {
        lifetime: lifetime as u32,
        food_collected: vstd::math::min(
            before.food_collected + mouth_food(g, before, before.cells@.len() as int),
            u32::MAX as int,
        ) as u32,
        ..before
    };
    if !before.is_alive {
        after == before
    } else if lifetime >= before.lifespan(lifespan_multiplier) {
        after == Organism { lifetime: lifetime as u32, is_alive: false, ..before }
    } else if !before.has_state(CellState::Mover) {
        after == fed
    } else if can_step(g, fed) {
        stepped(fed, after)
    } else {
        exists|mid: Organism| stalled(fed, mid) && #[trigger] turned_in_place(g, mid, after)
    }
}

} // verus!
