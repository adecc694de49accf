use wire_world::components::{CellType, MouseButton, OutputStatus, Point};
use wire_world::exercises::{spawn_level, ExerciseOutcome};
use wire_world::level::{LevelError, LevelField};
use wire_world::resources::World;

fn grid_world(w: usize, h: usize, cells: &[(usize, usize, CellType)]) -> World {
    let mut map = vec![CellType::EMPTY(false); w * h];
    for (x, y, c) in cells {
        map[y * w + x] = *c;
    }
    World { size: (w, h), map, electron_available: true, exercises: Vec::new() }
}

#[test]
fn single_electron_level_decays() {
    let world = World::from_string("1 1\nfalse\na\n0\n".to_string()).unwrap();
    assert_eq!(world.size, (1, 1));
    assert_eq!(world.map, vec![CellType::ELECTRON(false)]);
    assert!(!world.electron_available);
    assert!(world.exercises.is_empty());
    let mut state = spawn_level(&world);
    state.tick();
    assert_eq!(state.map[0], CellType::TAIL(false));
    state.tick();
    assert_eq!(state.map[0], CellType::WIRE(false));
    let changes = state.tick();
    assert!(changes.is_empty());
    assert_eq!(state.map[0], CellType::WIRE(false));
    assert!(state.active.is_empty());
}

#[test]
fn two_electrons_ignite_three_do_not() {
    // a 4 by 7 grid: the wire at (1, 1) sees two electrons, the one at (1, 5) three
    let world = grid_world(
        4,
        7,
        &[
            (1, 1, CellType::WIRE(false)),
            (0, 0, CellType::ELECTRON(false)),
            (2, 2, CellType::ELECTRON(false)),
            (1, 5, CellType::WIRE(false)),
            (0, 4, CellType::ELECTRON(false)),
            (1, 4, CellType::ELECTRON(false)),
            (2, 6, CellType::ELECTRON(false)),
        ],
    );
    let mut state = spawn_level(&world);
    let changes = state.tick();
    assert_eq!(state.map[1 * 4 + 1], CellType::ELECTRON(false));
    assert_eq!(state.map[5 * 4 + 1], CellType::WIRE(false));
    assert!(changes.iter().any(|c| c.position == Point(1, 1) && c.new_state == CellType::ELECTRON(false)));
    assert!(!changes.iter().any(|c| c.position == Point(1, 5)));
}

#[test]
fn wire_with_one_neighbor_wraps_around_edges() {
    // the electron at (2, 2) is a neighbour of the wire at (0, 0) on a 3 by 3 torus
    let world = grid_world(3, 3, &[(0, 0, CellType::WIRE(true)), (2, 2, CellType::ELECTRON(false))]);
    let mut state = spawn_level(&world);
    state.tick();
    assert_eq!(state.map[0], CellType::ELECTRON(true));
    assert_eq!(state.map[8], CellType::TAIL(false));
}

#[test]
fn wire_without_electrons_stays() {
    let world = grid_world(3, 3, &[(1, 1, CellType::WIRE(false))]);
    let mut state = spawn_level(&world);
    assert!(state.active.is_empty());
    let changes = state.tick();
    assert!(changes.is_empty());
    assert_eq!(state.map[4], CellType::WIRE(false));
}

#[test]
fn fixed_cell_refuses_clicks() {
    let world = grid_world(2, 2, &[(0, 0, CellType::WIRE(true)), (1, 0, CellType::EMPTY(true))]);
    let mut state = spawn_level(&world);
    assert!(!state.handle_clicks(Point(0, 0), MouseButton::Left));
    assert!(!state.handle_clicks(Point(0, 0), MouseButton::Right));
    assert!(!state.handle_clicks(Point(1, 0), MouseButton::Left));
    assert_eq!(state.map[0], CellType::WIRE(true));
    assert_eq!(state.map[1], CellType::EMPTY(true));
}

#[test]
fn clicks_edit_free_cells() {
    let world = grid_world(2, 2, &[]);
    let mut state = spawn_level(&world);
    assert!(state.handle_clicks(Point(1, 1), MouseButton::Left));
    assert_eq!(state.map[3], CellType::WIRE(false));
    assert!(state.handle_clicks(Point(1, 1), MouseButton::Right));
    assert_eq!(state.map[3], CellType::ELECTRON(false));
    assert!(!state.handle_clicks(Point(2, 0), MouseButton::Left));
    state.lock = true;
    assert!(!state.handle_clicks(Point(0, 0), MouseButton::Left));
    assert_eq!(state.map[0], CellType::EMPTY(false));
}

#[test]
fn electrons_refused_when_unavailable() {
    let mut world = grid_world(2, 2, &[(0, 0, CellType::WIRE(false))]);
    world.electron_available = false;
    let mut state = spawn_level(&world);
    assert!(!state.handle_clicks(Point(0, 0), MouseButton::Right));
    assert_eq!(state.map[0], CellType::WIRE(false));
}

const TIMED_LEVEL: &str = "5 1\nfalse\nw w w w w\n1\nLight the end\nin time\n\n10\n1\n3 0 0\n1\n2 5 4 0\n";

#[test]
fn level_parses_exercises() {
    let world = World::from_string(TIMED_LEVEL.to_string()).unwrap();
    assert_eq!(world.size, (5, 1));
    assert_eq!(world.exercises.len(), 1);
    let e = &world.exercises[0];
    assert_eq!(e.description, "Light the end\nin time");
    assert_eq!(e.timeout, 10);
    assert_eq!(e.spawns, vec![(Point(0, 0), 3)]);
    assert_eq!(e.outputs, vec![(Point(4, 0), 2, 5)]);
}

#[test]
fn output_succeeds_when_electron_arrives_in_window() {
    // output window 2..5 at (0, 0); the exercise injects there at tick 3
    let text = "1 1\nfalse\nw\n1\nx\n\n10\n1\n3 0 0\n1\n2 5 0 0\n";
    let world = World::from_string(text.to_string()).unwrap();
    let mut state = spawn_level(&world);
    state.lock = true;
    let r1 = state.step();
    assert_eq!(r1.outcome, ExerciseOutcome::Running);
    assert_eq!(state.outputs[0].status, OutputStatus::Inactive);
    let r2 = state.step();
    assert_eq!(r2.outcome, ExerciseOutcome::Running);
    assert_eq!(state.outputs[0].status, OutputStatus::Waiting);
    let r3 = state.step();
    assert_eq!(r3.outcome, ExerciseOutcome::LevelComplete);
    assert!(state.exercise.is_none());
    assert!(!state.lock);
}

#[test]
fn output_fails_at_until_without_electron() {
    let text = "2 1\nfalse\nw E\n1\nx\n\n10\n0\n1\n2 5 1 0\n";
    let world = World::from_string(text.to_string()).unwrap();
    let mut state = spawn_level(&world);
    state.lock = true;
    for t in 1..5 {
        let r = state.step();
        assert_eq!(r.outcome, ExerciseOutcome::Running);
        let expected = if t < 2 { OutputStatus::Inactive } else { OutputStatus::Waiting };
        assert_eq!(state.outputs[0].status, expected);
    }
    let r5 = state.step();
    assert_eq!(r5.outcome, ExerciseOutcome::Failed);
    let e = state.exercise.unwrap();
    assert_eq!((e.id, e.ticks), (0, 0));
    assert_eq!(state.outputs[0].status, OutputStatus::Inactive);
    assert!(!state.lock);
}

#[test]
fn exercise_times_out() {
    let text = "1 1\nfalse\nE\n1\nx\n\n2\n0\n1\n0 9 0 0\n";
    let world = World::from_string(text.to_string()).unwrap();
    let mut state = spawn_level(&world);
    assert_eq!(state.step().outcome, ExerciseOutcome::Running);
    assert_eq!(state.step().outcome, ExerciseOutcome::Running);
    assert_eq!(state.step().outcome, ExerciseOutcome::Failed);
}

#[test]
fn passing_exercise_advances() {
    let text = "1 1\nfalse\nw\n2\nfirst\n\n5\n1\n1 0 0\n1\n1 3 0 0\nsecond\n\n5\n0\n0\n";
    let world = World::from_string(text.to_string()).unwrap();
    let mut state = spawn_level(&world);
    let r = state.step();
    assert_eq!(r.outcome, ExerciseOutcome::Advanced(1));
    assert_eq!(state.exercise.unwrap().id, 1);
    let r = state.step();
    assert_eq!(r.outcome, ExerciseOutcome::LevelComplete);
}

#[test]
fn level_errors_name_the_field() {
    assert_eq!(World::from_string(String::new()).unwrap_err(), LevelError::Missing(LevelField::Size, 0));
    assert_eq!(World::from_string("x 1".to_string()).unwrap_err(), LevelError::Malformed(LevelField::Width, 0));
    assert_eq!(World::from_string("1".to_string()).unwrap_err(), LevelError::Missing(LevelField::Height, 0));
    assert_eq!(World::from_string("1 1".to_string()).unwrap_err(), LevelError::Missing(LevelField::ElectronFlag, 1));
    assert_eq!(World::from_string("1 1\nyes".to_string()).unwrap_err(), LevelError::Malformed(LevelField::ElectronFlag, 1));
    assert_eq!(World::from_string("2 2\ntrue\nw w".to_string()).unwrap_err(), LevelError::Missing(LevelField::Row, 3));
    assert_eq!(World::from_string("2 1\ntrue\nw".to_string()).unwrap_err(), LevelError::Malformed(LevelField::Row, 2));
    assert_eq!(World::from_string("1 1\ntrue\nw".to_string()).unwrap_err(), LevelError::Missing(LevelField::ExerciseCount, 3));
    assert_eq!(World::from_string("1 1\ntrue\nw\n1\n\n".to_string()).unwrap_err(), LevelError::Missing(LevelField::Description, 4));
    assert_eq!(World::from_string("1 1\ntrue\nw\n1\nd\n\n-1\n".to_string()).unwrap_err(), LevelError::Malformed(LevelField::Timeout, 6));
    assert_eq!(World::from_string("1 1\ntrue\nw\n1\nd\n\n3\n1\n1 0\n".to_string()).unwrap_err(), LevelError::Missing(LevelField::SpawnY, 8));
    assert_eq!(World::from_string("1 1\ntrue\nw\n1\nd\n\n3\n0\n1\n".to_string()).unwrap_err(), LevelError::Missing(LevelField::Output, 9));
    assert_eq!(
        World::from_string("99999999999 99999999999\ntrue\n".to_string()).unwrap_err(),
        LevelError::Malformed(LevelField::Size, 0)
    );
}

#[test]
fn level_reads_cell_tokens() {
    let world = World::from_string("7 1\r\ntrue\r\na w A W E x  \r\n+0".to_string()).unwrap();
    assert_eq!(
        world.map,
        vec![
            CellType::ELECTRON(false),
            CellType::WIRE(false),
            CellType::ELECTRON(true),
            CellType::WIRE(true),
            CellType::EMPTY(true),
            CellType::EMPTY(false),
            CellType::EMPTY(false),
        ]
    );
    assert!(world.electron_available);
}

#[test]
fn tick_ignores_work_list_order() {
    let cells = [
        (0, 0, CellType::ELECTRON(false)),
        (1, 0, CellType::WIRE(false)),
        (2, 0, CellType::WIRE(true)),
        (2, 1, CellType::TAIL(false)),
        (3, 1, CellType::ELECTRON(true)),
        (3, 2, CellType::WIRE(false)),
        (0, 3, CellType::WIRE(false)),
    ];
    let world = grid_world(4, 4, &cells);
    let mut a = spawn_level(&world);
    let mut b = spawn_level(&world);
    b.active.reverse();
    assert_ne!(a.active, b.active);
    let ca = a.tick();
    let cb = b.tick();
    assert_eq!(a.map, b.map);
    assert_eq!(ca.len(), cb.len());
}

#[test]
fn ignition_needs_one_or_two_electrons() {
    for n in 0..=8usize {
        // the wire at the centre of a 3 by 3 torus, with n electrons around it
        let mut cells = vec![(1, 1, CellType::WIRE(false))];
        let around = [(0, 0), (1, 0), (2, 0), (0, 1), (2, 1), (0, 2), (1, 2), (2, 2)];
        for k in 0..n {
            cells.push((around[k].0, around[k].1, CellType::ELECTRON(false)));
        }
        let world = grid_world(3, 3, &cells);
        let mut state = spawn_level(&world);
        state.tick();
        let expected = if n == 1 || n == 2 { CellType::ELECTRON(false) } else { CellType::WIRE(false) };
        assert_eq!(state.map[4], expected, "with {} electrons", n);
    }
}

#[test]
fn spawn_keeps_fixed_flag() {
    let text = "2 1\nfalse\nW E\n1\nx\n\n9\n2\n1 0 0\n1 1 0\n1\n5 9 0 0\n";
    let world = World::from_string(text.to_string()).unwrap();
    let mut state = spawn_level(&world);
    state.step();
    assert_eq!(state.map[0], CellType::ELECTRON(true));
    assert_eq!(state.map[1], CellType::ELECTRON(true));
}

#[test]
fn injection_at_instant_zero_happens_at_start() {
    let text = "3 1\nfalse\nw w E\n1\nx\n\n9\n1\n0 0 0\n1\n0 3 0 0\n";
    let world = World::from_string(text.to_string()).unwrap();
    let state = spawn_level(&world);
    assert_eq!(state.map[0], CellType::ELECTRON(false));
    assert_eq!(state.outputs[0].status, OutputStatus::Success);
    assert_eq!(state.exercise.unwrap().ticks, 0);
}
