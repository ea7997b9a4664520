use simulation::cell::{organ_state, other_organ_state, CellState};
use simulation::grid::Grid;
use simulation::tick::sprouts;
use simulation::organism::{copy_cells, facing_for, Direction, Organism, OrganismCell};

fn quiet_grid(width: u32, height: u32) -> Grid {
    let mut grid = Grid::new(width, height);
    grid.food_production_millionths = 0;
    grid
}

fn state_at(grid: &Grid, x: u32, y: u32) -> CellState {
    grid.get_cell(x, y).unwrap().state
}

#[test]
fn colors_of_every_state() {
    assert_eq!(CellState::Empty.to_color(), 0x0E1318);
    assert_eq!(CellState::Food.to_color(), 0x2F7AB7);
    assert_eq!(CellState::Wall.to_color(), 0x808080);
    assert_eq!(CellState::Mouth.to_color(), 0xDEB14D);
    assert_eq!(CellState::Producer.to_color(), 0x15DE59);
    assert_eq!(CellState::Mover.to_color(), 0x60D4FF);
    assert_eq!(CellState::Killer.to_color(), 0xF82380);
    assert_eq!(CellState::Armor.to_color(), 0x7230DB);
    assert_eq!(CellState::Eye.to_color(), 0xB6C1EA);
}

#[test]
fn other_organ_state_differs() {
    assert_eq!(other_organ_state(CellState::Mouth, 0), CellState::Producer);
    assert_eq!(other_organ_state(CellState::Eye, 0), CellState::Mouth);
    assert_eq!(other_organ_state(CellState::Armor, 4), CellState::Killer);
    assert_eq!(other_organ_state(CellState::Food, 2), CellState::Mover);
}

#[test]
fn new_grid_is_empty() {
    let grid = Grid::new(4, 3);
    assert_eq!(grid.width, 4);
    assert_eq!(grid.height, 3);
    assert_eq!(grid.cells.len(), 12);
    assert_eq!(grid.organism_count(), 0);
    assert_eq!(grid.next_organism_id, 0);
    assert_eq!(grid.max_organisms, 1000);
    assert_eq!(grid.lifespan_multiplier, 100);
    assert!(!grid.insta_kill);
    assert!(grid.food_blocks_reproduction);
    assert_eq!(grid.get_pixel(1, 1), 0x0E1318);
    assert!(grid.is_position_clear(3, 2));
}

#[test]
fn out_of_bounds_queries_are_safe() {
    let mut grid = Grid::new(4, 3);
    assert!(grid.get_cell(4, 0).is_none());
    assert!(grid.get_cell(0, 3).is_none());
    assert_eq!(grid.get_pixel(4, 0), 0);
    assert!(!grid.is_position_clear(0, 3));
    assert!(!grid.has_food_at(9, 9));
    grid.set_cell(7, 7, CellState::Wall, None);
    grid.set_pixel(7, 7, 5);
    assert!(grid.cells.iter().all(|c| c.state == CellState::Empty));
}

#[test]
fn set_cell_writes_tile_and_color() {
    let mut grid = Grid::new(4, 3);
    grid.set_cell(2, 1, CellState::Food, None);
    assert!(grid.has_food_at(2, 1));
    assert!(grid.is_position_clear(2, 1));
    assert_eq!(grid.get_pixel(2, 1), 0x2F7AB7);
    assert_eq!(grid.cells[6].state, CellState::Food);
    grid.set_cell(0, 2, CellState::Killer, Some(9));
    assert!(!grid.is_position_clear(0, 2));
    assert_eq!(grid.get_cell(0, 2).unwrap().owner, Some(9));
    grid.set_pixel(3, 0, 0x123456);
    assert_eq!(grid.get_pixel(3, 0), 0x123456);
}

#[test]
fn basic_organism_is_stamped() {
    let mut grid = Grid::new(10, 10);
    assert!(grid.create_basic_organism(5, 5));
    assert_eq!(grid.organism_count(), 1);
    let o = &grid.organisms[0];
    assert_eq!(o.id, 0);
    assert_eq!(o.cells.len(), 4);
    assert_eq!(o.health, 4);
    assert_eq!(state_at(&grid, 5, 5), CellState::Mouth);
    assert_eq!(state_at(&grid, 6, 6), CellState::Producer);
    assert_eq!(state_at(&grid, 4, 4), CellState::Producer);
    assert_eq!(grid.get_cell(6, 6).unwrap().owner, Some(0));
    assert_eq!(grid.get_pixel(6, 6), 0x15DE59);
    assert_eq!(grid.next_organism_id, 1);
    assert!(grid.create_basic_organism(2, 2));
    assert_eq!(grid.organisms[1].id, 1);
}

#[test]
fn basic_organism_out_of_bounds_or_at_edge_fails() {
    let mut grid = Grid::new(10, 10);
    assert!(!grid.create_basic_organism(10, 3));
    assert!(!grid.create_basic_organism(0, 5));
    assert!(!grid.create_basic_organism(9, 9));
    assert_eq!(grid.organism_count(), 0);
    assert_eq!(grid.next_organism_id, 0);
}

#[test]
fn origin_of_life_is_centered() {
    let mut grid = Grid::new(20, 10);
    grid.origin_of_life();
    assert_eq!(grid.organism_count(), 1);
    assert_eq!(grid.organisms[0].x, 10);
    assert_eq!(grid.organisms[0].y, 5);
    assert_eq!(state_at(&grid, 10, 5), CellState::Mouth);
}

#[test]
fn failed_placement_changes_nothing() {
    let mut grid = Grid::new(10, 10);
    grid.set_cell(6, 5, CellState::Wall, None);
    let cells_before: Vec<(CellState, Option<usize>)> =
        grid.cells.iter().map(|c| (c.state, c.owner)).collect();
    let pixels_before = grid.pixels.clone();
    let mut o = Organism::new(0, 5, 5);
    o.add_cell(CellState::Producer, 1, 0);
    assert!(!grid.add_organism(o));
    let cells_after: Vec<(CellState, Option<usize>)> =
        grid.cells.iter().map(|c| (c.state, c.owner)).collect();
    assert_eq!(cells_before, cells_after);
    assert_eq!(pixels_before, grid.pixels);
    assert_eq!(grid.organism_count(), 0);
    assert_eq!(grid.next_organism_id, 0);
}

#[test]
fn placement_off_the_grid_fails() {
    let mut grid = Grid::new(10, 10);
    let mut o = Organism::new(0, 0, 0);
    o.add_cell(CellState::Producer, -1, 0);
    assert!(!grid.add_organism(o));
    assert_eq!(grid.organism_count(), 0);
}

#[test]
fn population_cap_blocks_placement() {
    let mut grid = Grid::new(10, 10);
    grid.max_organisms = 1;
    assert!(grid.add_organism(Organism::new(0, 2, 2)));
    assert!(!grid.add_organism(Organism::new(0, 7, 7)));
    assert_eq!(grid.organism_count(), 1);
    grid.max_organisms = 0;
    assert!(grid.add_organism(Organism::new(0, 7, 7)));
    assert_eq!(grid.organism_count(), 2);
}

#[test]
fn food_blocks_placement_only_when_set() {
    let mut grid = Grid::new(10, 10);
    grid.set_cell(3, 3, CellState::Food, None);
    assert!(!grid.add_organism(Organism::new(0, 3, 3)));
    grid.set_food_blocks_reproduction(false);
    assert!(grid.add_organism(Organism::new(0, 3, 3)));
    assert_eq!(state_at(&grid, 3, 3), CellState::Mouth);
}

#[test]
fn given_id_is_kept() {
    let mut grid = Grid::new(10, 10);
    assert!(grid.add_organism(Organism::new(42, 3, 3)));
    assert_eq!(grid.organisms[0].id, 42);
    assert_eq!(grid.next_organism_id, 0);
    assert_eq!(grid.get_cell(3, 3).unwrap().owner, Some(42));
}

#[test]
fn reset_clearing_walls_empties_everything() {
    let mut grid = Grid::new(8, 8);
    grid.set_cell(1, 1, CellState::Wall, None);
    grid.set_cell(2, 2, CellState::Food, None);
    grid.origin_of_life();
    grid.reset(true);
    assert_eq!(grid.organism_count(), 0);
    assert_eq!(grid.next_organism_id, 0);
    assert!(grid.cells.iter().all(|c| c.state == CellState::Empty && c.owner.is_none()));
    assert!(grid.pixels.iter().all(|p| *p == 0x0E1318));
}

#[test]
fn reset_keeping_walls_keeps_only_walls() {
    let mut grid = Grid::new(8, 8);
    grid.set_cell(1, 1, CellState::Wall, None);
    grid.set_cell(2, 2, CellState::Food, None);
    grid.origin_of_life();
    grid.reset(false);
    assert_eq!(grid.organism_count(), 0);
    assert_eq!(state_at(&grid, 1, 1), CellState::Wall);
    assert_eq!(grid.get_pixel(1, 1), 0x808080);
    let walls = grid.cells.iter().filter(|c| c.state == CellState::Wall).count();
    let empty = grid.cells.iter().filter(|c| c.state == CellState::Empty).count();
    assert_eq!(walls, 1);
    assert_eq!(empty, 63);
}

#[test]
fn single_cell_dies_of_age_on_tiny_grid() {
    let mut grid = quiet_grid(1, 1);
    grid.lifespan_multiplier = 1;
    assert!(grid.add_organism(Organism::new(0, 0, 0)));
    grid.step();
    assert_eq!(grid.organism_count(), 0);
    assert_eq!(state_at(&grid, 0, 0), CellState::Food);
    assert_eq!(grid.get_pixel(0, 0), 0x2F7AB7);
}

#[test]
fn update_kills_at_lifespan() {
    let grid = quiet_grid(1, 1);
    let mut o = Organism::new(0, 0, 0);
    o.update(&grid, 1);
    assert_eq!(o.lifetime, 1);
    assert!(!o.is_alive);
}

#[test]
fn update_feeds_and_ages() {
    let mut grid = quiet_grid(5, 5);
    grid.set_cell(2, 1, CellState::Food, None);
    grid.set_cell(3, 2, CellState::Food, None);
    let mut o = Organism::new(0, 2, 2);
    o.update(&grid, 100);
    assert!(o.is_alive);
    assert_eq!(o.lifetime, 1);
    assert_eq!(o.food_collected, 2);
    let mut dead = Organism::new(0, 2, 2);
    dead.is_alive = false;
    dead.update(&grid, 100);
    assert_eq!(dead.lifetime, 0);
    assert_eq!(dead.food_collected, 0);
}

#[test]
fn reproduction_places_one_offspring_beyond_birth_distance() {
    let mut grid = quiet_grid(100, 100);
    let mut parent = Organism::new(0, 50, 50);
    parent.add_cell(CellState::Armor, 1, 0);
    assert!(grid.add_organism(parent));
    let needed = grid.organisms[0].food_needed_to_reproduce();
    assert_eq!(needed, 2);
    grid.organisms[0].food_collected = needed;
    grid.step();
    assert_eq!(grid.organism_count(), 2);
    assert_eq!(grid.organisms[0].food_collected, 0);
    let child = &grid.organisms[1];
    assert_eq!(child.id, 1);
    let dx = (child.x as i64 - 50).abs();
    let dy = (child.y as i64 - 50).abs();
    assert!(dx == 0 || dy == 0 || dx == dy);
    let distance = dx.max(dy);
    assert!(distance >= 4 && distance <= 6);
    let sx = (child.x as i64 - 50).signum();
    let sy = (child.y as i64 - 50).signum();
    for k in 1..distance {
        let x = (50 + k * sx) as u32;
        let y = (50 + k * sy) as u32;
        let cell = grid.get_cell(x, y).unwrap();
        assert!(grid.is_position_clear(x, y) || cell.owner == Some(child.id));
    }
}

#[test]
fn reproduction_respects_population_cap() {
    let mut grid = quiet_grid(100, 100);
    grid.max_organisms = 1;
    assert!(grid.add_organism(Organism::new(0, 50, 50)));
    grid.organisms[0].food_collected = 1;
    grid.step();
    assert_eq!(grid.organism_count(), 1);
    assert_eq!(grid.organisms[0].food_collected, 1);
}

#[test]
fn insta_kill_removes_a_large_victim() {
    let mut grid = quiet_grid(30, 30);
    grid.insta_kill = true;
    let mut hunter = Organism::new(0, 10, 10);
    hunter.add_cell(CellState::Killer, 1, 0);
    hunter.add_cell(CellState::Armor, 0, 1);
    assert!(grid.add_organism(hunter));
    let mut victim = Organism::new(0, 13, 10);
    victim.add_cell(CellState::Producer, -1, 0);
    victim.add_cell(CellState::Armor, 1, 0);
    victim.add_cell(CellState::Armor, 2, 0);
    victim.add_cell(CellState::Armor, 0, 1);
    victim.add_cell(CellState::Armor, 0, -1);
    assert!(grid.add_organism(victim));
    grid.step();
    assert_eq!(grid.organism_count(), 1);
    assert_eq!(grid.organisms[0].id, 0);
    assert_eq!(state_at(&grid, 12, 10), CellState::Food);
    assert_eq!(state_at(&grid, 15, 10), CellState::Food);
}

#[test]
fn killer_harms_without_insta_kill() {
    let mut grid = quiet_grid(30, 30);
    let mut hunter = Organism::new(0, 10, 10);
    hunter.add_cell(CellState::Killer, 1, 0);
    hunter.add_cell(CellState::Armor, 0, 1);
    assert!(grid.add_organism(hunter));
    let mut victim = Organism::new(0, 13, 10);
    victim.add_cell(CellState::Producer, -1, 0);
    victim.add_cell(CellState::Armor, 1, 0);
    assert!(grid.add_organism(victim));
    grid.step();
    assert_eq!(grid.organism_count(), 2);
    assert_eq!(grid.organisms[1].health, 2);
    assert!(grid.organisms[1].is_alive);
}

#[test]
fn armor_stops_a_killer() {
    let mut grid = quiet_grid(30, 30);
    grid.insta_kill = true;
    let mut hunter = Organism::new(0, 10, 10);
    hunter.add_cell(CellState::Killer, 1, 0);
    hunter.add_cell(CellState::Armor, 0, 1);
    assert!(grid.add_organism(hunter));
    let mut victim = Organism::new(0, 13, 10);
    victim.add_cell(CellState::Armor, -1, 0);
    victim.add_cell(CellState::Armor, 1, 0);
    assert!(grid.add_organism(victim));
    grid.step();
    assert_eq!(grid.organism_count(), 2);
    assert_eq!(grid.organisms[1].health, 3);
}

#[test]
fn shared_food_feeds_both_mouths() {
    let mut grid = quiet_grid(30, 30);
    let mut left = Organism::new(0, 10, 10);
    left.add_cell(CellState::Armor, -1, 0);
    left.add_cell(CellState::Armor, 0, -1);
    assert!(grid.add_organism(left));
    let mut right = Organism::new(0, 12, 10);
    right.add_cell(CellState::Armor, 1, 0);
    right.add_cell(CellState::Armor, 0, -1);
    assert!(grid.add_organism(right));
    grid.set_cell(11, 10, CellState::Food, None);
    grid.step();
    assert_eq!(grid.organism_count(), 2);
    assert_eq!(grid.organisms[0].food_collected, 1);
    assert_eq!(grid.organisms[1].food_collected, 1);
    assert_eq!(state_at(&grid, 11, 10), CellState::Empty);
}

#[test]
fn steps_keep_organisms_sound() {
    let mut grid = Grid::new(40, 40);
    grid.food_production_millionths = 50000;
    grid.max_organisms = 30;
    grid.origin_of_life();
    for _ in 0..200 {
        grid.step();
        assert!(grid.organism_count() <= 30);
        for o in grid.organisms.iter() {
            assert!(o.is_alive);
            assert!(o.health > 0 && (o.health as usize) <= o.cells.len());
        }
        for (i, c) in grid.cells.iter().enumerate() {
            assert_eq!(grid.pixels[i], c.state.to_color());
        }
    }
}

#[test]
fn direction_helpers() {
    assert_eq!(Direction::Up.opposite(), Direction::Down);
    assert_eq!(Direction::Left.opposite(), Direction::Right);
    assert_eq!(Direction::Up.to_delta(), (0, -1));
    assert_eq!(Direction::Right.to_delta(), (1, 0));
    assert_eq!(Direction::Down.to_delta(), (0, 1));
    assert_eq!(Direction::Left.to_delta(), (-1, 0));
    assert_eq!(Direction::from_index(2), Direction::Down);
    assert_eq!(Direction::Left.index(), 3);
}

#[test]
fn rotated_positions() {
    let c = OrganismCell { state: CellState::Mouth, x: 2, y: 1, direction: None };
    assert_eq!(c.get_rotated_position(Direction::Up), (2, 1));
    assert_eq!(c.get_rotated_position(Direction::Right), (1, -2));
    assert_eq!(c.get_rotated_position(Direction::Down), (-2, -1));
    assert_eq!(c.get_rotated_position(Direction::Left), (-1, 2));
}

#[test]
fn absolute_direction_turns_with_the_body() {
    let eye = OrganismCell { state: CellState::Eye, x: 0, y: 1, direction: Some(Direction::Right) };
    assert_eq!(eye.get_absolute_direction(Direction::Up), Some(Direction::Right));
    assert_eq!(eye.get_absolute_direction(Direction::Down), Some(Direction::Left));
    assert_eq!(eye.get_absolute_direction(Direction::Left), Some(Direction::Up));
    let mouth = OrganismCell::new(CellState::Mouth, 0, 0);
    assert_eq!(mouth.get_absolute_direction(Direction::Right), None);
    let new_eye = OrganismCell::new(CellState::Eye, 1, 1);
    assert!(new_eye.direction.is_some());
}

#[test]
fn new_organism_and_cells() {
    let mut o = Organism::new(3, 7, 8);
    assert_eq!(o.id, 3);
    assert_eq!((o.x, o.y), (7, 8));
    assert_eq!(o.cells.len(), 1);
    assert_eq!(o.health, 1);
    assert_eq!(o.mutability, 5);
    assert_eq!(o.move_range, 4);
    assert!(o.is_alive);
    assert!(!o.can_add_cell_at(0, 0));
    assert!(o.can_add_cell_at(1, 0));
    o.add_cell(CellState::Mover, 1, 0);
    o.add_cell(CellState::Eye, 0, 1);
    assert_eq!(o.health, 3);
    assert!(o.has_movers());
    assert!(o.has_eyes());
    assert!(!o.has_producers());
    assert_eq!(o.food_needed_to_reproduce(), 4);
    assert_eq!(o.max_lifespan(10), 30);
    assert_eq!(o.max_lifespan(0), 1);
}

#[test]
fn cell_positions_follow_rotation() {
    let mut o = Organism::new(0, 5, 5);
    o.add_cell(CellState::Producer, 2, 1);
    o.rotation = Direction::Right;
    let c = o.cells[1];
    assert_eq!(o.get_cell_position(&c), (6, 3));
    let mut edge = Organism::new(0, 0, 0);
    edge.add_cell(CellState::Producer, -1, 0);
    let c = edge.cells[1];
    assert_eq!(edge.get_cell_position(&c), (u32::MAX, 0));
}

#[test]
fn harm_reduces_health_then_kills() {
    let mut o = Organism::new(0, 1, 1);
    o.add_cell(CellState::Armor, 1, 0);
    o.harm();
    assert_eq!(o.health, 1);
    assert!(o.is_alive);
    o.harm();
    assert_eq!(o.health, 0);
    assert!(!o.is_alive);
    o.harm();
    assert_eq!(o.health, 0);
}

#[test]
fn body_plan_edits_protect_the_anchor() {
    let mut o = Organism::new(0, 1, 1);
    o.add_cell(CellState::Producer, 1, 0);
    assert!(!o.change_cell_state(0, CellState::Killer));
    assert!(!o.change_cell_state(1, CellState::Producer));
    assert!(o.change_cell_state(1, CellState::Killer));
    assert_eq!(o.cells[1].state, CellState::Killer);
    assert!(!o.add_cell_beside(0, Direction::Right, CellState::Eye));
    assert!(o.add_cell_beside(1, Direction::Down, CellState::Armor));
    assert_eq!((o.cells[2].x, o.cells[2].y), (1, 1));
    assert!(!o.remove_cell(0));
    assert!(o.remove_cell(1));
    assert_eq!(o.cells.len(), 2);
    assert_eq!(o.cells[1].state, CellState::Armor);
}

#[test]
fn offspring_copy_the_parent() {
    let mut parent = Organism::new(0, 1, 1);
    parent.add_cell(CellState::Producer, 1, 0);
    parent.mutability = 0;
    parent.food_collected = 9;
    let child = Organism::new_from_parent(7, 4, 5, &parent);
    assert_eq!(child.id, 7);
    assert_eq!((child.x, child.y), (4, 5));
    assert_eq!(child.cells.len(), 2);
    assert_eq!(child.health, 2);
    assert_eq!(child.food_collected, 0);
    assert_eq!(child.cells[1].state, CellState::Producer);
    assert!(child.is_alive);
}

#[test]
fn mutating_offspring_stay_sound() {
    let mut parent = Organism::new(0, 1, 1);
    parent.add_cell(CellState::Producer, 1, 0);
    parent.mutability = 100;
    for _ in 0..500 {
        let child = Organism::new_from_parent(0, 4, 5, &parent);
        assert!(!child.cells.is_empty());
        assert_eq!(child.cells[0].state, CellState::Mouth);
        assert_eq!((child.cells[0].x, child.cells[0].y), (0, 0));
        assert_eq!(child.health as usize, child.cells.len());
        assert!(child.mutability >= 1 && child.mutability <= 100);
        assert!(child.move_range >= 1);
    }
}

#[test]
fn rotation_to_a_blocked_spot_fails() {
    let mut grid = quiet_grid(10, 10);
    grid.set_cell(6, 5, CellState::Wall, None);
    let mut o = Organism::new(0, 5, 5);
    o.add_cell(CellState::Producer, 0, -1);
    assert!(!o.try_rotate_to(&grid, Direction::Left));
    assert_eq!(o.rotation, Direction::Up);
    assert!(o.try_rotate_to(&grid, Direction::Right));
    assert_eq!(o.rotation, Direction::Right);
    assert!(o.try_rotate_to(&grid, Direction::Down));
    assert_eq!(o.rotation, Direction::Down);
}

#[test]
fn movers_move_one_tile() {
    let grid = quiet_grid(10, 10);
    let mut o = Organism::new(0, 5, 5);
    o.add_cell(CellState::Mover, 1, 0);
    o.move_direction = Direction::Left;
    o.move_range = 10;
    assert!(o.try_move(&grid));
    assert_eq!((o.x, o.y), (4, 5));
    assert_eq!(o.move_counter, 1);
    let mut still = Organism::new(0, 5, 5);
    assert!(!still.try_move(&grid));
    assert_eq!((still.x, still.y), (5, 5));
}

#[test]
fn movers_stop_at_the_edge() {
    let grid = quiet_grid(10, 10);
    let mut o = Organism::new(0, 0, 5);
    o.add_cell(CellState::Mover, 1, 0);
    o.move_direction = Direction::Left;
    assert!(!o.try_move(&grid));
    assert_eq!((o.x, o.y), (0, 5));
}

#[test]
fn try_reproduce_needs_food() {
    let grid = quiet_grid(50, 50);
    let mut o = Organism::new(0, 25, 25);
    assert!(o.try_reproduce(&grid).is_none());
    o.food_collected = 1;
    let child = o.try_reproduce(&grid).unwrap();
    assert_eq!(o.food_collected, 0);
    assert_eq!(child.id, 0);
    assert!(child.is_alive);
}

#[test]
fn try_reproduce_fails_when_boxed_in() {
    let mut grid = quiet_grid(50, 50);
    for x in 20..31 {
        for y in 20..31 {
            if x != 25 || y != 25 {
                grid.set_cell(x, y, CellState::Wall, None);
            }
        }
    }
    let mut o = Organism::new(0, 25, 25);
    o.food_collected = 3;
    assert!(o.try_reproduce(&grid).is_none());
    assert_eq!(o.food_collected, 3);
}

#[test]
fn food_in_reach_counts_per_mouth() {
    let mut grid = quiet_grid(10, 10);
    grid.set_cell(5, 4, CellState::Food, None);
    let mut o = Organism::new(0, 5, 5);
    o.add_cell(CellState::Mouth, 0, -2);
    assert_eq!(o.food_in_reach(&grid), 2);
}

#[test]
fn birth_facing_follows_the_step() {
    assert_eq!(facing_for(1, -1), Direction::Up);
    assert_eq!(facing_for(-1, 1), Direction::Down);
    assert_eq!(facing_for(1, 0), Direction::Right);
    assert_eq!(facing_for(-1, 0), Direction::Left);
}

#[test]
fn organ_states_by_index() {
    assert_eq!(organ_state(0), CellState::Mouth);
    assert_eq!(organ_state(2), CellState::Mover);
    assert_eq!(organ_state(5), CellState::Eye);
}

#[test]
fn copied_cells_match() {
    let mut o = Organism::new(0, 3, 3);
    o.add_cell(CellState::Killer, 2, -1);
    let copy = copy_cells(&o.cells);
    assert_eq!(copy.len(), 2);
    assert_eq!(copy[1].state, CellState::Killer);
    assert_eq!((copy[1].x, copy[1].y), (2, -1));
}

#[test]
fn initialize_and_count() {
    simulation::initialize();
    let mut grid = Grid::new(6, 6);
    assert_eq!(grid.organism_count(), 0);
    assert!(grid.create_basic_organism(3, 3));
    assert_eq!(grid.organism_count(), 1);
}

#[test]
fn organism_at_lifespan_dies_in_the_grid() {
    let mut grid = quiet_grid(10, 10);
    grid.lifespan_multiplier = 2;
    let mut o = Organism::new(0, 5, 5);
    o.add_cell(CellState::Armor, 1, 0);
    assert!(grid.add_organism(o));
    grid.step();
    grid.step();
    grid.step();
    assert_eq!(grid.organism_count(), 1);
    grid.step();
    assert_eq!(grid.organism_count(), 0);
    assert_eq!(state_at(&grid, 5, 5), CellState::Food);
    assert_eq!(state_at(&grid, 6, 5), CellState::Food);
}

#[test]
fn certain_growth_fills_every_empty_tile() {
    let mut grid = Grid::new(5, 4);
    grid.food_production_millionths = simulation::grid::CHANCE_SCALE;
    grid.set_cell(1, 1, CellState::Wall, None);
    grid.step();
    assert_eq!(state_at(&grid, 1, 1), CellState::Wall);
    let food = grid.cells.iter().filter(|c| c.state == CellState::Food).count();
    assert_eq!(food, 19);
    assert_eq!(grid.get_pixel(0, 0), 0x2F7AB7);
}

#[test]
fn no_growth_without_chance_or_producers() {
    let mut grid = quiet_grid(5, 4);
    grid.step();
    grid.step();
    assert!(grid.cells.iter().all(|c| c.state == CellState::Empty));
    assert_eq!(grid.get_pixel(2, 2), 0x0E1318);
}

#[test]
fn growth_rule_per_tile() {
    let empty = simulation::Cell { state: CellState::Empty, owner: None };
    let food = simulation::Cell { state: CellState::Food, owner: None };
    assert!(sprouts(&empty, 4, 5));
    assert!(!sprouts(&empty, 5, 5));
    assert!(!sprouts(&food, 0, 5));
}

#[test]
fn birth_spot_search_takes_the_first_fit() {
    let mut grid = quiet_grid(30, 30);
    let parent = Organism::new(0, 15, 15);
    let child = Organism::new(0, 0, 0);
    let dirs: Vec<(i64, i64)> = vec![(1, 0), (0, 1), (-1, -1)];
    let dists: Vec<i64> = vec![4, 4, 5];
    let rotations = vec![Direction::Up, Direction::Up, Direction::Up];
    assert_eq!(parent.find_birth_spot(&grid, &child, &dirs, &dists, &rotations), Some(0));
    grid.set_cell(17, 15, CellState::Wall, None);
    assert_eq!(parent.find_birth_spot(&grid, &child, &dirs, &dists, &rotations), Some(1));
    grid.set_cell(15, 19, CellState::Wall, None);
    assert_eq!(parent.find_birth_spot(&grid, &child, &dirs, &dists, &rotations), Some(2));
    grid.set_cell(10, 10, CellState::Wall, None);
    assert_eq!(parent.find_birth_spot(&grid, &child, &dirs, &dists, &rotations), None);
}

#[test]
fn reproduction_on_open_ground_succeeds() {
    for _ in 0..50 {
        let mut grid = quiet_grid(60, 60);
        assert!(grid.add_organism(Organism::new(0, 30, 30)));
        grid.organisms[0].food_collected = 1;
        let mut parent = grid.organisms[0].clone();
        let child = parent.try_reproduce(&grid).unwrap();
        assert_eq!(parent.food_collected, 0);
        let dx = (child.x as i64 - 30).abs();
        let dy = (child.y as i64 - 30).abs();
        assert!(dx == 0 || dy == 0 || dx == dy);
        assert!(dx.max(dy) >= 3 && dx.max(dy) <= 5);
        assert_eq!(child.move_counter, 0);
    }
}

#[test]
fn lone_single_cell_parent_always_reproduces() {
    for _ in 0..20 {
        let mut grid = quiet_grid(60, 60);
        assert!(grid.add_organism(Organism::new(0, 30, 30)));
        grid.organisms[0].food_collected = 1;
        grid.step();
        assert_eq!(grid.organism_count(), 2);
        assert_eq!(grid.organisms[1].id, 1);
    }
}

#[test]
fn presets_have_their_plans() {
    let hunter = Organism::preset(1, 5, 6);
    assert_eq!((hunter.x, hunter.y, hunter.id), (5, 6, 0));
    let states: Vec<CellState> = hunter.cells.iter().map(|c| c.state).collect();
    assert_eq!(
        states,
        vec![CellState::Mouth, CellState::Mouth, CellState::Mover, CellState::Killer, CellState::Eye]
    );
    assert_eq!((hunter.cells[3].x, hunter.cells[3].y), (0, 1));
    assert_eq!(hunter.health, 5);
    assert!(hunter.cells[4].direction.is_some());
    assert_eq!(Organism::preset(0, 1, 1).cells.len(), 6);
    assert_eq!(Organism::preset(2, 1, 1).cells[5].state, CellState::Armor);
    assert_eq!(Organism::preset(9, 1, 1).cells.len(), 4);
}

#[test]
fn mutation_steps_follow_their_draws() {
    let mut o = Organism::new(0, 5, 5);
    o.add_cell(CellState::Producer, 1, 0);
    assert!(!o.mutation_add(33, 1, Direction::Right, CellState::Killer));
    assert_eq!(o.cells.len(), 2);
    assert!(o.mutation_add(32, 1, Direction::Right, CellState::Killer));
    assert_eq!((o.cells[2].x, o.cells[2].y, o.cells[2].state), (2, 0, CellState::Killer));
    assert!(!o.mutation_change(50, 1, 0));
    assert!(o.mutation_change(0, 1, 0));
    assert_eq!(o.cells[1].state, CellState::Mover);
    assert!(!o.mutation_remove(99, 2));
    assert!(o.mutation_remove(10, 2));
    assert_eq!(o.cells.len(), 2);
}

#[test]
fn trait_changes_follow_their_draws() {
    let mut o = Organism::new(0, 5, 5);
    o.move_range = 1;
    o.mutability = 100;
    o.adjust_traits(9, 0, 9, 2);
    assert_eq!(o.move_range, 1);
    assert_eq!(o.mutability, 100);
    o.adjust_traits(0, 4, 0, 0);
    assert_eq!(o.move_range, 3);
    assert_eq!(o.mutability, 99);
    o.adjust_traits(10, 4, 10, 0);
    assert_eq!(o.move_range, 3);
    assert_eq!(o.mutability, 99);
}

#[test]
fn path_follows_bresenham() {
    let mut grid = quiet_grid(3, 1);
    assert!(grid.is_straight_path_clear(0, 0, 2, 1));
    assert!(grid.is_straight_path_clear(1, 0, 1, 0));
    grid.set_cell(1, 0, CellState::Wall, None);
    assert!(!grid.is_straight_path_clear(0, 0, 2, 1));
    let mut wide = quiet_grid(10, 10);
    assert!(wide.is_straight_path_clear(0, 0, 9, 3));
    wide.set_cell(3, 1, CellState::Wall, None);
    assert!(!wide.is_straight_path_clear(0, 0, 9, 3));
    assert!(wide.is_straight_path_clear(0, 0, 9, 0));
    wide.set_cell(5, 0, CellState::Food, None);
    assert!(wide.is_straight_path_clear(0, 0, 9, 0));
}
