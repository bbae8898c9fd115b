use harmony::grid::Cell;
use harmony::template::{Action, Condition, Rule, Template};
use harmony::{HexGrid, HexPosition, TemplateEngine, TerrainType};

fn rule(name: &str, conditions: Vec<Condition>, actions: Vec<Action>, priority: i32) -> Rule {
    Rule { name: name.to_string(), conditions, actions, priority }
}

fn template(name: &str, rules: Vec<Rule>) -> Template {
    Template { name: name.to_string(), description: String::new(), rules, tags: vec![] }
}

fn raise_plain() -> Template {
    template(
        "raise",
        vec![rule(
            "plain up",
            vec![Condition::TerrainType { terrain: TerrainType::Plain }],
            vec![Action::SetElevation { elevation: 5 }],
            0,
        )],
    )
}

fn at(grid: &HexGrid, q: i32, r: i32, z: i32) -> Option<Cell> {
    grid.get_cell(&HexPosition::new(q, r, z)).copied()
}

#[test]
fn set_elevation_on_a_plain_cell() {
    let mut engine = TemplateEngine::new();
    engine.load_template(raise_plain());
    let mut grid = HexGrid::new();
    grid.add_cell(HexPosition::new_2d(0, 0), TerrainType::Plain, 0);
    grid.add_cell(HexPosition::new_2d(1, 0), TerrainType::Rough, 0);
    let size = grid.get_size();
    assert!(engine.apply_template("raise", &mut grid, &HexPosition::new(0, 0, 0)));
    let moved = at(&grid, 0, 0, 5).unwrap();
    assert_eq!(moved.elevation, 5);
    assert_eq!(moved.position, HexPosition::new(0, 0, 5));
    assert_eq!(moved.terrain, TerrainType::Plain);
    assert!(at(&grid, 0, 0, 0).is_none());
    assert_eq!(grid.get_size(), size);
    let other = at(&grid, 1, 0, 0).unwrap();
    assert_eq!(other.terrain, TerrainType::Rough);
    assert_eq!(other.elevation, 0);
    assert_eq!(grid.iter_cells().len(), 2);
}

#[test]
fn no_matching_rule_leaves_the_grid() {
    let mut engine = TemplateEngine::new();
    engine.load_template(raise_plain());
    let mut grid = HexGrid::new();
    grid.add_cell(HexPosition::new_2d(0, 0), TerrainType::Rough, 0);
    let before = grid.iter_cells();
    assert!(!engine.apply_template("raise", &mut grid, &HexPosition::new(0, 0, 0)));
    assert_eq!(grid.iter_cells(), before);
}

#[test]
fn unknown_template_is_false() {
    let engine = TemplateEngine::new();
    let mut grid = HexGrid::new();
    grid.add_cell(HexPosition::new_2d(0, 0), TerrainType::Plain, 0);
    assert!(!engine.apply_template("missing", &mut grid, &HexPosition::new(0, 0, 0)));
}

#[test]
fn highest_priority_first_and_ties_keep_order() {
    let mut engine = TemplateEngine::new();
    engine.load_template(template(
        "paint",
        vec![
            rule("low", vec![], vec![Action::SetTerrain { terrain: TerrainType::Sand }], 1),
            rule("high a", vec![], vec![Action::SetTerrain { terrain: TerrainType::Snow }], 7),
            rule("high b", vec![], vec![Action::SetTerrain { terrain: TerrainType::Swamp }], 7),
            rule(
                "higher but never",
                vec![Condition::ElevationRange { min: 3, max: 9 }],
                vec![Action::SetTerrain { terrain: TerrainType::Lava }],
                9,
            ),
        ],
    ));
    let mut grid = HexGrid::new();
    grid.add_cell(HexPosition::new_2d(0, 0), TerrainType::Plain, 0);
    assert!(engine.apply_template("paint", &mut grid, &HexPosition::new(0, 0, 0)));
    let c = at(&grid, 0, 0, 0).unwrap();
    assert_eq!(c.terrain, TerrainType::Snow);
    assert_eq!(c.elevation, 0);
}

#[test]
fn elevation_range_is_inclusive() {
    let mut engine = TemplateEngine::new();
    engine.load_template(template(
        "wet",
        vec![rule(
            "low ground",
            vec![Condition::ElevationRange { min: -2, max: 0 }],
            vec![Action::SetTerrain { terrain: TerrainType::Water }],
            0,
        )],
    ));
    let mut grid = HexGrid::new();
    grid.add_cell(HexPosition::new_2d(0, 0), TerrainType::Plain, 0);
    grid.add_cell(HexPosition::new_2d(1, 0), TerrainType::Plain, 1);
    assert!(engine.apply_template("wet", &mut grid, &HexPosition::new(0, 0, 0)));
    assert!(!engine.apply_template("wet", &mut grid, &HexPosition::new(1, 0, 1)));
    assert_eq!(at(&grid, 0, 0, 0).unwrap().terrain, TerrainType::Water);
    assert_eq!(at(&grid, 0, 0, 0).unwrap().movement_cost, 3);
    assert_eq!(at(&grid, 1, 0, 1).unwrap().terrain, TerrainType::Plain);
}

#[test]
fn undecided_conditions_never_match_and_other_actions_do_nothing() {
    let mut engine = TemplateEngine::new();
    engine.load_template(template(
        "mixed",
        vec![
            rule(
                "needs water nearby",
                vec![Condition::NearWater { distance: 3 }],
                vec![Action::SetTerrain { terrain: TerrainType::Sand }],
                5,
            ),
            rule("tag only", vec![], vec![Action::AddTag { tag: "x".to_string() }], 0),
        ],
    ));
    let mut grid = HexGrid::new();
    grid.add_cell(HexPosition::new_2d(0, 0), TerrainType::Plain, 0);
    assert!(engine.apply_template("mixed", &mut grid, &HexPosition::new(0, 0, 0)));
    assert_eq!(at(&grid, 0, 0, 0).unwrap().terrain, TerrainType::Plain);
}

#[test]
fn loading_a_name_again_replaces_it() {
    let mut engine = TemplateEngine::new();
    engine.load_template(raise_plain());
    engine.load_template(template(
        "raise",
        vec![rule("lower", vec![], vec![Action::SetElevation { elevation: -3 }], 0)],
    ));
    let mut grid = HexGrid::new();
    grid.add_cell(HexPosition::new_2d(0, 0), TerrainType::Plain, 0);
    assert!(engine.apply_template("raise", &mut grid, &HexPosition::new(0, 0, 0)));
    assert_eq!(at(&grid, 0, 0, -3).unwrap().elevation, -3);
}

#[test]
fn rules_need_a_cell_at_exactly_the_position() {
    let mut engine = TemplateEngine::new();
    engine.load_template(raise_plain());
    let mut grid = HexGrid::new();
    grid.add_cell(HexPosition::new_2d(0, 0), TerrainType::Plain, 1);
    assert!(!engine.apply_template("raise", &mut grid, &HexPosition::new(0, 0, 0)));
    let c = at(&grid, 0, 0, 1).unwrap();
    assert_eq!(c.elevation, 1);
    assert_eq!(grid.iter_cells().len(), 1);
}
