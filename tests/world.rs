use wire_world::world::{CellChange, CellType, Point, World};

#[test]
fn test_new() {
    let world = World::new(10, 10);
    assert_eq!(world.size, (10, 10));
    assert_eq!(world.next_step.len(), 0);
    assert_eq!(world.map.len(), 100);
}

#[test]
fn test_add_cell() {
    let mut world = World::new(10, 10);
    world.add_cell(Point(0, 0), CellType::WIRE);
    assert_eq!(world.map[0], CellType::WIRE);
    world.add_cell(Point(0, 1), CellType::ELECTRON);
    assert_eq!(world.map[1], CellType::ELECTRON);
    world.add_cell(Point(0, 2), CellType::TAIL);
    assert_eq!(world.map[2], CellType::TAIL);
}

#[test]
fn test_remove_cell() {
    let mut world = World::new(10, 10);
    world.add_cell(Point(0, 0), CellType::WIRE);
    world.remove_cell(Point(0, 0));
    assert_eq!(world.map[0], CellType::EMPTY);
}

#[test]
fn test_get_cells() {
    let mut world = World::new(10, 10);
    world.add_cell(Point(0, 0), CellType::WIRE);
    world.add_cell(Point(0, 1), CellType::ELECTRON);
    world.add_cell(Point(0, 2), CellType::TAIL);
    assert_eq!(world.get_cells()[0].cell_type, CellType::WIRE);
    assert_eq!(world.get_cells()[1].cell_type, CellType::ELECTRON);
    assert_eq!(world.get_cells()[2].cell_type, CellType::TAIL);
}

#[test]
fn test_delight_elector_signal() {
    let mut world = World::new(1, 1);
    world.add_cell(Point(0, 0), CellType::ELECTRON);
    let changes = world.tick();
    let change = &changes[0];
    assert_eq!(change.position, Point(0, 0));
    assert_eq!(change.old_state, CellType::ELECTRON);
    assert_eq!(change.new_state, CellType::TAIL);
    assert_eq!(world.get_cells()[0].cell_type, CellType::TAIL);
}

#[test]
fn test_lose_signal() {
    let mut world = World::new(1, 1);
    world.add_cell(Point(0, 0), CellType::TAIL);
    let changes = world.tick();
    let change = &changes[0];
    assert_eq!(change.position, Point(0, 0));
    assert_eq!(change.old_state, CellType::TAIL);
    assert_eq!(change.new_state, CellType::WIRE);
    assert_eq!(world.get_cells()[0].cell_type, CellType::WIRE);
}

#[test]
fn test_create_signal() {
    let mut world = World::new(4, 7);
    world.add_cell(Point(0, 0), CellType::WIRE);
    world.add_cell(Point(0, 1), CellType::ELECTRON);
    world.add_cell(Point(2, 0), CellType::ELECTRON);
    world.add_cell(Point(2, 1), CellType::WIRE);
    world.add_cell(Point(2, 2), CellType::ELECTRON);
    world.add_cell(Point(4, 0), CellType::ELECTRON);
    world.add_cell(Point(4, 1), CellType::WIRE);
    world.add_cell(Point(4, 2), CellType::ELECTRON);
    world.add_cell(Point(5, 1), CellType::ELECTRON);

    let changes = world.tick();

    for change in changes {
        match change {
            CellChange { position: Point(0, 0), old_state: _, new_state } => {
                assert_eq!(new_state, CellType::ELECTRON)
            }
            CellChange { position: Point(2, 1), old_state: _, new_state } => {
                assert_eq!(new_state, CellType::ELECTRON)
            }
            CellChange { position: Point(4, 1), old_state: _, new_state } => {
                assert_eq!(new_state, CellType::WIRE)
            }
            _other => (),
        }
    }
}

#[test]
fn test_index() {
    let world = World::new(4, 7);

    let mut test_case = 0;
    for j in 0..7 {
        for i in 0..4 {
            let ind = world.index(&Point(j, i));
            assert_eq!(test_case, ind);
            test_case += 1;
        }
    }
}

#[test]
fn test_get_neighbors() {
    let world = World::new(4, 4);
    let neighbors = world.get_cells_around(&Point(0, 0), &CellType::EMPTY);
    assert_eq!(8, neighbors.len());
}

#[test]
fn create_signal_ignites_two_and_not_three() {
    let mut world = World::new(4, 7);
    world.add_cell(Point(0, 0), CellType::WIRE);
    world.add_cell(Point(0, 1), CellType::ELECTRON);
    world.add_cell(Point(2, 0), CellType::ELECTRON);
    world.add_cell(Point(2, 1), CellType::WIRE);
    world.add_cell(Point(2, 2), CellType::ELECTRON);
    world.add_cell(Point(4, 0), CellType::ELECTRON);
    world.add_cell(Point(4, 1), CellType::WIRE);
    world.add_cell(Point(4, 2), CellType::ELECTRON);
    world.add_cell(Point(5, 1), CellType::ELECTRON);
    world.tick();
    assert_eq!(world.map[world.index(&Point(0, 0))], CellType::ELECTRON);
    assert_eq!(world.map[world.index(&Point(2, 1))], CellType::ELECTRON);
    assert_eq!(world.map[world.index(&Point(4, 1))], CellType::WIRE);
    assert_eq!(world.map[world.index(&Point(0, 1))], CellType::TAIL);
}

#[test]
fn isolated_electron_decays_then_rests() {
    let mut world = World::new(1, 1);
    world.add_cell(Point(0, 0), CellType::ELECTRON);
    world.tick();
    assert_eq!(world.map[0], CellType::TAIL);
    world.tick();
    assert_eq!(world.map[0], CellType::WIRE);
    let changes = world.tick();
    assert!(changes.is_empty());
    assert!(world.next_step.is_empty());
    assert_eq!(world.map[0], CellType::WIRE);
}

#[test]
fn tick_reports_each_cell_once_in_order() {
    let mut world = World::new(3, 3);
    world.add_cell(Point(1, 1), CellType::ELECTRON);
    world.add_cell(Point(1, 1), CellType::ELECTRON);
    world.add_cell(Point(0, 1), CellType::WIRE);
    world.add_cell(Point(2, 2), CellType::TAIL);
    let changes = world.tick();
    let idx: Vec<usize> = changes.iter().map(|c| world.index(&c.position)).collect();
    assert_eq!(idx, vec![1, 4, 8]);
}
