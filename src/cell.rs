use vstd::prelude::*;

verus! {

/// What occupies a single tile of the world, or the role of one body cell.
#[derive(Clone, Copy, PartialEq, Eq, Debug, Structural)]
pub enum CellState {
    Empty,
    Food,
    Wall,
    Mouth,
    Producer,
    Mover,
    Killer,
    Armor,
    Eye,
}

/// The packed `0xRRGGBB` color in which a state is drawn.
pub open spec fn color_of(s: CellState) -> u32 {
    match s {
        CellState::Empty => 0x0E1318,
        CellState::Food => 0x2F7AB7,
        CellState::Wall => 0x808080,
        CellState::Mouth => 0xDEB14D,
        CellState::Producer => 0x15DE59,
        CellState::Mover => 0x60D4FF,
        CellState::Killer => 0xF82380,
        CellState::Armor => 0x7230DB,
        CellState::Eye => 0xB6C1EA,
    }
}

impl CellState {
    /// Convert a cell state to its packed display color.
    pub fn to_color(&self) -> (r: u32)
        ensures
            r == color_of(*self),
    {
        match self {
            CellState::Empty => 0x0E1318,
            CellState::Food => 0x2F7AB7,
            CellState::Wall => 0x808080,
            CellState::Mouth => 0xDEB14D,
            CellState::Producer => 0x15DE59,
            CellState::Mover => 0x60D4FF,
            CellState::Killer => 0xF82380,
            CellState::Armor => 0x7230DB,
            CellState::Eye => 0xB6C1EA,
        }
    }
}

/// One tile of the world: what occupies it and, for body cells, the id of the
/// organism that owns it.
#[derive(Clone, Copy, Debug)]
pub struct Cell {
    pub state: CellState,
    pub owner: Option<usize>,
}

/// The six states a body cell can take; the environmental states (empty, food
/// and wall) are excluded.
pub open spec fn is_organ(s: CellState) -> bool {
    !(s == CellState::Empty || s == CellState::Food || s == CellState::Wall)
}

/// Body cell states in a fixed order, for drawing one by index.
pub open spec fn organ_at(k: int) -> CellState {
    if k == 0 {
        CellState::Mouth
    } else if k == 1 {
        CellState::Producer
    } else if k == 2 {
        CellState::Mover
    } else if k == 3 {
        CellState::Killer
    } else if k == 4 {
        CellState::Armor
    } else {
        CellState::Eye
    }
}

/// Position of a body cell state in the order of `organ_at`.
pub open spec fn organ_index(s: CellState) -> int {
    match s {
        CellState::Mouth => 0,
        CellState::Producer => 1,
        CellState::Mover => 2,
        CellState::Killer => 3,
        CellState::Armor => 4,
        _ => 5,
    }
}

/// The `k`-th body cell state after `current`, cyclically, among those that
/// differ from it (any `k`-th for a state that is not a body state).
pub open spec fn other_organ(current: CellState, k: int) -> CellState {
    if is_organ(current) {
        organ_at((organ_index(current) + 1 + k) % 6)
    } else {
        organ_at(k)
    }
}

/// The body cell state with index `k` (`0 <= k < 6`).
pub fn organ_state(k: u32) -> (r: CellState)
    requires
        k < 6,
    ensures
        r == organ_at(k as int),
        is_organ(r),
{
    if k == 0 {
        CellState::Mouth
    } else if k == 1 {
        CellState::Producer
    } else if k == 2 {
        CellState::Mover
    } else if k == 3 {
        CellState::Killer
    } else if k == 4 {
        CellState::Armor
    } else {
        CellState::Eye
    }
}

/// The `k`-th body cell state (`0 <= k < 5`) among the five that differ from
/// `current`, counting on cyclically after `current`.
pub fn other_organ_state(current: CellState, k: u32) -> (r: CellState)
    requires
        k < 5,
    ensures
        is_organ(r),
        r != current,
        r == other_organ(current, k as int),
{
    let j: u32 = match current {
        CellState::Mouth => 0,
        CellState::Producer => 1,
        CellState::Mover => 2,
        CellState::Killer => 3,
        CellState::Armor => 4,
        CellState::Eye => 5,
        _ => 6,
    };
    if j < 6 {
        organ_state((j + 1 + k) % 6)
    } else {
        organ_state(k)
    }
}

} // verus!
