use flare_format::movement::direction_from_isometric_keys;
use flare_format::{parse_str, CollisionMap, Direction, MapLayer, MovementType};

#[test]
fn wall_and_walkable() {
    let layer = MapLayer {
        name: "collision".into(),
        data: vec![vec![0, 1], vec![2, 0]],
    };
    let map = CollisionMap::from_layer(&layer);
    assert!(!map.is_wall(0, 0));
    assert!(map.is_wall(1, 0));
    assert!(map.blocks_movement(1, 0, MovementType::Flying));
    assert!(map.blocks_movement(1, 0, MovementType::Normal));
    assert!(map.blocks_movement(0, 1, MovementType::Normal));
    assert!(!map.blocks_movement(0, 1, MovementType::Flying));
    assert!(!map.blocks_movement(1, 1, MovementType::Normal));
    assert!(!map.blocks_movement(0, 1, MovementType::Intangible));
}

#[test]
fn isometric_keys_match_flare_engine() {
    assert_eq!(direction_from_isometric_keys(true, false, false, false), Some(Direction::Nw));
    assert_eq!(direction_from_isometric_keys(false, true, false, false), Some(Direction::Se));
    assert_eq!(direction_from_isometric_keys(false, false, true, false), Some(Direction::Sw));
    assert_eq!(direction_from_isometric_keys(false, false, false, true), Some(Direction::Ne));
    assert_eq!(direction_from_isometric_keys(true, false, false, true), Some(Direction::N));
    assert_eq!(direction_from_isometric_keys(true, false, true, false), Some(Direction::W));
    assert_eq!(direction_from_isometric_keys(false, true, false, true), Some(Direction::E));
    assert_eq!(direction_from_isometric_keys(false, true, true, false), Some(Direction::S));
}

#[test]
fn parses_sections_and_keys() {
    let content = r#"
# comment
image=images/test.png

[run]
frames=4
duration=800ms
"#;
    let entries = parse_str(content, "test.txt").unwrap();
    assert!(entries.iter().any(|e| e.key == "image"));
    assert!(entries.iter().any(|e| e.section == "run" && e.key == "frames"));
}
