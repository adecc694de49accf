use wire_world::actions::{ActionOutputParser, Actions};
use wire_world::components::{CellType, ExpectedOutput, OutputStatus, Point};
use wire_world::exercises::output_status;
use wire_world::level::{LevelError, LevelField};
use wire_world::resources::{Counter, LevelConfig};
use wire_world::world_loader::{LoadError, WorldLoader};

#[test]
fn counter_fires_and_keeps_remainder() {
    let mut c = Counter::new(1000);
    assert!(!c.tick(400));
    assert_eq!(c.elapsed_ms, 400);
    assert!(c.tick(700));
    assert_eq!(c.elapsed_ms, 100);
    c.pause();
    assert!(!c.tick(5000));
    assert_eq!(c.elapsed_ms, 100);
    c.unpause();
    c.set_duration(125);
    assert!(c.tick(30));
    assert_eq!(c.elapsed_ms, 5);
}

#[test]
fn output_status_follows_window() {
    let o = ExpectedOutput { position: Point(0, 0), from: 2, until: 5, status: OutputStatus::Inactive };
    assert_eq!(output_status(&o, 1, true), OutputStatus::Inactive);
    assert_eq!(output_status(&o, 2, false), OutputStatus::Waiting);
    assert_eq!(output_status(&o, 3, true), OutputStatus::Success);
    let waiting = ExpectedOutput { status: OutputStatus::Waiting, ..o };
    assert_eq!(output_status(&waiting, 5, false), OutputStatus::Fail);
    let done = ExpectedOutput { status: OutputStatus::Success, ..o };
    assert_eq!(output_status(&done, 4, false), OutputStatus::Success);
    assert_eq!(output_status(&done, 9, false), OutputStatus::Success);
}

#[test]
fn loader_reads_utf8_levels() {
    let loader = WorldLoader;
    let world = loader.load("1 1\nfalse\nW\n0\n".as_bytes()).unwrap();
    assert_eq!(world.map, vec![CellType::WIRE(true)]);
    assert_eq!(loader.load(&[0xff, 0xfe]).unwrap_err(), LoadError::NotText);
    assert_eq!(
        loader.load("1 1\n".as_bytes()).unwrap_err(),
        LoadError::Level(LevelError::Missing(LevelField::ElectronFlag, 1))
    );
    assert_eq!(loader.extensions(), "level");
}

#[test]
fn actions_describe_redirect() {
    let actions = Actions::new();
    assert_eq!(actions.get_actions().len(), 1);
    assert_eq!(actions.get_actions()[0].name, "Redirect");
    let text = actions.to_instructions();
    assert!(text.starts_with("ACTION: Redirect\n\"This action let you redirect user to another page\""));
    assert!(text.ends_with("\n-----------\n"));
    let _parser = ActionOutputParser::new();
}

#[test]
fn level_config_starts_empty() {
    assert!(LevelConfig::empty().level_name.is_none());
}

use wire_world::components::CellColor;
use wire_world::exercises::ExerciseOutcome;
use wire_world::resources::World;
use wire_world::session::{LevelActions, Session};

#[test]
fn cell_colors() {
    assert_eq!(CellType::ELECTRON(true).base_color(), CellColor::Yellow);
    assert_eq!(CellType::WIRE(true).base_color(), CellColor::Black);
    assert_eq!(CellType::WIRE(false).base_color(), CellColor::DarkGray);
    assert_eq!(CellType::TAIL(false).base_color(), CellColor::Red);
    assert_eq!(CellType::EMPTY(true).base_color(), CellColor::DarkGreen);
    assert_eq!(CellType::EMPTY(false).base_color(), CellColor::LimeGreen);
}

#[test]
fn session_ticks_when_timer_fires() {
    let text = "2 1\nfalse\nw E\n1\nx\n\n10\n0\n1\n1 2 1 0\n";
    let world = World::from_string(text.to_string()).unwrap();
    let mut session = Session::new(&world);
    assert!(session.frame(5000).is_none());
    assert!(!session.button_click(LevelActions::Play(500)));
    assert!(session.state.lock);
    assert!(session.frame(200).is_none());
    let report = session.frame(300).unwrap();
    assert_eq!(report.outcome, ExerciseOutcome::Running);
    let report = session.frame(500).unwrap();
    assert_eq!(report.outcome, ExerciseOutcome::Failed);
    assert!(session.counter.paused);
    assert!(!session.state.lock);
    assert!(session.button_click(LevelActions::Menu));
}

use wire_world::output_parser::{complete_brackets, parse_partial_json};

#[test]
fn complete_brackets_closes_innermost_first() {
    assert_eq!(complete_brackets("{\"a\": [1, {\"b\": 2").unwrap(), "{\"a\": [1, {\"b\": 2}]}");
    assert_eq!(complete_brackets("{\"a\": \"}\"").unwrap(), "{\"a\": \"}\"}");
    assert_eq!(complete_brackets("{\"a\": \"\\\"]\"").unwrap(), "{\"a\": \"\\\"]\"}");
    assert!(complete_brackets("{]").is_none());
    assert!(complete_brackets("}").is_none());
}

#[test]
fn partial_json_is_repaired_unless_strict() {
    let whole: serde_json::Value = serde_json::from_str("{\"Redirect\": {\"path\": \"pages/resume\"}}").unwrap();
    assert_eq!(parse_partial_json("{\"Redirect\": {\"path\": \"pages/resume\"}}", true), Some(whole.clone()));
    assert_eq!(parse_partial_json("{\"Redirect\": {\"path\": \"pages/resume\"", false), Some(whole));
    assert_eq!(parse_partial_json("{\"Redirect\": {\"path\": \"pages/resume\"", true), None);
    assert_eq!(parse_partial_json("not json", false), None);
}
