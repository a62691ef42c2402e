use flare_format::collision::CollisionType;
use flare_format::coords::center_tile;
use flare_format::map::{parse_layer_row, MapReader, MapScan};
use flare_format::movement::direction_from_isometric_keys;
use flare_format::parser::{
    collect_data_rows, inherit_section, normalize_path, scan_lines, scan_lines_within,
    select_base_index, starts_with_append, Scan,
};
use flare_format::text::split_lines;
use flare_format::value::{
    parse_bool, parse_color_rgba, parse_direction, parse_duration_ms, parse_int, parse_point,
    pop_first_token, split_key_value,
};
use flare_format::{
    parse_str, AnimationEvent, ParallaxLayers, SpeedKey, AnimationPlayer, AnimationSet, AnimationType, CollisionMap, Direction,
    Entry, FlareError, FlareMap, FsResolver, IconConfig, MapLayer, MovementType, Orientation, Point,
    TileSet, TilesetConfig,
};

fn player_for(kind: &str, frames: u16) -> AnimationPlayer {
    let mut text = String::from("image=a.png\nrender_size=10,10\n[walk]\n");
    text.push_str(&format!("frames={frames}\nduration=400ms\ntype={kind}\n"));
    let set = AnimationSet::parse_str(&text).unwrap();
    AnimationPlayer::new(set.animation("walk").unwrap().clone())
}

#[test]
fn looped_player_wraps_and_counts_loops() {
    let mut player = player_for("looped", 4);
    assert_eq!(player.advance_frames(3), AnimationEvent::Nothing);
    assert_eq!(player.frame_index(), 3);
    assert_eq!(player.advance_frames(2), AnimationEvent::Looped);
    assert_eq!(player.frame_index(), 1);
    assert_eq!(player.loop_count(), 1);
    assert!(!player.is_finished());
    player.advance_frames(1000);
    assert!(player.frame_index() < 4);
    assert!(!player.is_finished());
}

#[test]
fn back_forth_player_turns_and_never_finishes() {
    let mut player = player_for("back_forth", 4);
    player.advance_frames(4);
    assert_eq!(player.frame_index(), 3);
    player.advance_frames(3);
    assert_eq!(player.frame_index(), 0);
    assert_eq!(player.loop_count(), 0);
    assert_eq!(player.advance_frames(1), AnimationEvent::Looped);
    assert_eq!(player.frame_index(), 0);
    assert_eq!(player.loop_count(), 1);
    player.advance_frames(999);
    assert!(!player.is_finished());
    assert!(player.frame_index() < 4);
}

#[test]
fn finished_player_stays_put() {
    let mut player = player_for("play_once", 3);
    player.advance_frames(10);
    assert!(player.is_finished());
    assert_eq!(player.frame_index(), 2);
    assert_eq!(player.advance_frames(5), AnimationEvent::Nothing);
    assert_eq!(player.frame_index(), 2);
    player.reset();
    assert!(!player.is_finished());
    assert_eq!(player.frame_index(), 0);
    assert_eq!(player.loop_count(), 0);
}

#[test]
fn zero_periods_change_nothing() {
    let mut player = player_for("looped", 4);
    player.advance_frames(2);
    assert_eq!(player.advance_frames(0), AnimationEvent::Nothing);
    assert_eq!(player.frame_index(), 2);
}

#[test]
fn split_advances_reach_the_same_frame() {
    for kind in ["play_once", "looped", "back_forth"] {
        let mut a = player_for(kind, 5);
        let mut b = player_for(kind, 5);
        a.advance_frames(4);
        a.advance_frames(9);
        b.advance_frames(13);
        assert_eq!(a.frame_index(), b.frame_index());
        assert_eq!(a.loop_count(), b.loop_count());
        assert_eq!(a.is_finished(), b.is_finished());
    }
}

#[test]
fn active_frame_is_reported() {
    let text = "image=a.png\nrender_size=10,10\n[hit]\nframes=4\nduration=400ms\ntype=looped\nactive_frame=2\n";
    let set = AnimationSet::parse_str(text).unwrap();
    let mut player = AnimationPlayer::new(set.animation("hit").unwrap().clone());
    assert_eq!(player.advance_frames(1), AnimationEvent::Nothing);
    assert_eq!(player.advance_frames(1), AnimationEvent::ActiveFrame { frame: 2 });
    let all = "image=a.png\nrender_size=10,10\n[hit]\nframes=4\nduration=400ms\ntype=looped\nactive_frame=all\n";
    let set = AnimationSet::parse_str(all).unwrap();
    assert_eq!(set.animation("hit").unwrap().active_frames, vec![-1]);
    let mut player = AnimationPlayer::new(set.animation("hit").unwrap().clone());
    assert_eq!(player.advance_frames(1), AnimationEvent::ActiveFrame { frame: 1 });
}

#[test]
fn player_without_duration_does_not_move() {
    let text = "image=a.png\nrender_size=10,10\n[idle]\nframes=4\ntype=looped\n";
    let set = AnimationSet::parse_str(text).unwrap();
    let mut player = AnimationPlayer::new(set.animation("idle").unwrap().clone());
    assert_eq!(player.advance_frames(3), AnimationEvent::Nothing);
    assert_eq!(player.frame_index(), 0);
}

#[test]
fn uncompressed_animation_fills_the_grid() {
    let text = "image=images/hero.png\nrender_size=128,96\nrender_offset=64,80\n[stance]\nposition=2\nframes=3\nduration=1s\ntype=back_forth\n";
    let set = AnimationSet::parse_str(text).unwrap();
    let anim = set.animation("stance").unwrap();
    assert_eq!(anim.frame_data.len(), 24);
    assert_eq!(anim.duration_ms, 1000);
    assert_eq!(anim.animation_type, AnimationType::BackForth);
    let f = anim.frame(1, Direction::N).unwrap();
    assert_eq!((f.src.x, f.src.y, f.src.w, f.src.h), (128 * 3, 96 * 3, 128, 96));
    assert_eq!(f.offset, Point { x: 64, y: 80 });
    assert_eq!(f.image_id, "images/hero.png");
    assert!(!anim.compressed);
}

#[test]
fn uncompressed_animation_needs_render_size() {
    let text = "image=a.png\n[run]\nframes=2\nduration=200ms\ntype=looped\n";
    let err = AnimationSet::parse_str(text).unwrap_err();
    assert_eq!(
        err,
        FlareError::Other("uncompressed animation 'run' requires global render_size".into())
    );
}

#[test]
fn frame_line_with_missing_fields_is_refused() {
    let text = "image=a.png\n[run]\nframes=1\nduration=100ms\nframe=0,SW\n";
    let err = AnimationSet::parse_str(text).unwrap_err();
    assert_eq!(err, FlareError::Other("frame line missing x".into()));
}

#[test]
fn first_section_is_the_default_animation() {
    let text = "image=a.png\nrender_size=8,8\n[run]\nframes=1\nduration=1s\n[walk]\nframes=2\nduration=2s\n";
    let set = AnimationSet::parse_str(text).unwrap();
    assert_eq!(set.default_animation, "run");
    assert_eq!(set.default_animation().unwrap().name, "run");
    assert_eq!(set.animations.len(), 2);
    assert_eq!(set.animations[1].name, "walk");
    assert_eq!(set.animations[0].animation_type, AnimationType::PlayOnce);
}

#[test]
fn images_are_registered_once_in_order() {
    let text = "image=images/body.png, body\nimage=images/wings.png, wings\nimage=images/body2.png, body\n";
    let set = AnimationSet::parse_str(text).unwrap();
    assert_eq!(set.image_order, vec!["body".to_string(), "wings".to_string()]);
    assert_eq!(set.images.len(), 2);
    assert_eq!(set.image_path("body"), Some("images/body2.png"));
    assert_eq!(set.image_path(""), Some("images/body2.png"));
    assert_eq!(set.image_path("wings"), Some("images/wings.png"));
    assert_eq!(set.image_path("tail"), None);
}

#[test]
fn tile_animation_cycles_back() {
    let text = "img=t.png\ntile=5,0,0,64,32,32,16\nanimation=5,10,0,50ms;20,0,60ms;30,0,70ms\n";
    let mut set = TileSet::parse_str(text).unwrap();
    assert_eq!(set.current_src(5).unwrap().x, 0);
    assert_eq!(set.anim_frame_duration(5), Some(50));
    assert_eq!(set.current_src(5).unwrap().x, 10);
    let mut seen = Vec::new();
    for _ in 0..3 {
        set.advance_anim_frame(5);
        seen.push(set.current_src(5).unwrap().x);
    }
    assert_eq!(seen, vec![20, 30, 10]);
    assert_eq!(set.anim_frame_duration(5), Some(50));
    assert_eq!(set.current_src(5).unwrap().w, 64);
}

#[test]
fn tile_zero_is_never_defined() {
    let text = "img=t.png\ntile=0,1,2,3,4,5,6\ntile=7,1,2,3,4,5,6\n";
    let set = TileSet::parse_str(text).unwrap();
    assert!(set.tile(0).is_none());
    assert!(set.tile(7).is_some());
    assert_eq!(set.tiles.len(), 1);
}

#[test]
fn tileset_sections_open_atlases() {
    let text = "[tileset]\nimg=a.png\ntile=1,0,0,64,32,32,16\n[tileset]\nimg=b.png\ntile=2,0,0,64,32,32,16\n";
    let set = TileSet::parse_str(text).unwrap();
    assert_eq!(set.atlas_path(0), Some("a.png"));
    assert_eq!(set.atlas_path(1), Some("b.png"));
    assert_eq!(set.atlas_path(2), None);
    assert_eq!(set.tile(1).unwrap().atlas_index, 0);
    assert_eq!(set.tile(2).unwrap().atlas_index, 1);
}

#[test]
fn tile_line_errors() {
    let err = TileSet::parse_str("tile=3,1,2\n").unwrap_err();
    assert_eq!(err, FlareError::Other("tile line missing width".into()));
    let err = TileSet::parse_str("animation=3,1\n").unwrap_err();
    assert_eq!(err, FlareError::Other("animation frame missing y".into()));
    let err = TileSet::parse_str("animation=3,1,2\n").unwrap_err();
    assert_eq!(err, FlareError::Other("animation frame missing duration".into()));
}

#[test]
fn entries_are_trimmed_and_sectioned() {
    let entries = parse_str("  a = 1 \n[one]\n b=  two words \n\n# c=3\n[two]\nd=\n", "f.txt").unwrap();
    let keys: Vec<(&str, &str, &str, bool)> = entries
        .iter()
        .map(|e| (e.section.as_str(), e.key.as_str(), e.value.as_str(), e.new_section))
        .collect();
    assert_eq!(
        keys,
        vec![
            ("", "a", "1", false),
            ("one", "", "", true),
            ("one", "b", "two words", false),
            ("two", "", "", true),
            ("two", "d", "", false),
        ]
    );
    let lines: Vec<usize> = entries.iter().map(|e| e.line).collect();
    assert_eq!(lines, vec![1, 2, 3, 6, 7]);
}

#[test]
fn malformed_line_is_a_parse_error() {
    let err = parse_str("a=1\njusttext\n", "x.txt").unwrap_err();
    assert_eq!(
        err,
        FlareError::Parse { file: "x.txt".into(), line: 2, message: "expected key=value".into() }
    );
    assert_eq!(err.to_text(), "parse error in x.txt:2: expected key=value");
}

#[test]
fn include_cannot_be_read_from_text() {
    let err = parse_str("a=1\nINCLUDE other.txt\n", "x.txt").unwrap_err();
    assert_eq!(err, FlareError::FileNotFound("other.txt".into()));
    assert_eq!(err.to_text(), "file not found: other.txt");
    let err = parse_str("INCLUDE x.txt\n", "x.txt").unwrap_err();
    assert_eq!(err, FlareError::RecursiveInclude("x.txt".into()));
    assert_eq!(err.to_text(), "recursive INCLUDE detected for x.txt");
}

#[test]
fn append_marker_is_skipped() {
    let entries = parse_str("# overlay\nAPPEND\nk=v\n", "f.txt").unwrap();
    assert_eq!(entries.len(), 1);
    assert!(starts_with_append("# overlay\n\n  APPEND\nk=v\n"));
    assert!(!starts_with_append("k=v\nAPPEND\n"));
    assert!(!starts_with_append(""));
}

#[test]
fn base_version_is_last_non_overlay() {
    assert_eq!(select_base_index(&[false, true, true]), 0);
    assert_eq!(select_base_index(&[true, false, true]), 1);
    assert_eq!(select_base_index(&[false, false]), 1);
    assert_eq!(select_base_index(&[true, true]), 0);
    assert_eq!(select_base_index(&[]), 0);
}

#[test]
fn scanning_stops_at_include() {
    let lines = split_lines("a=1\n[s]\nINCLUDE inner.txt\nb=2\n");
    let mut section = String::new();
    let mut entries: Vec<Entry> = Vec::new();
    let r = scan_lines(&lines, "outer.txt", 0, &mut section, &mut entries).unwrap();
    match r {
        Scan::Include { path, next_line } => {
            assert_eq!(path, "inner.txt");
            assert_eq!(next_line, 3);
            assert_eq!(section, "s");
            let mut nested = parse_str("c=3\n[t]\nd=4\n", "inner.txt").unwrap();
            inherit_section(&mut nested, &section);
            assert_eq!(nested[0].section, "s");
            assert_eq!(nested[2].section, "t");
            entries.extend(nested);
            let r2 = scan_lines(&lines, "outer.txt", next_line, &mut section, &mut entries).unwrap();
            assert!(matches!(r2, Scan::Done));
            assert_eq!(entries.last().unwrap().key, "b");
            assert_eq!(entries.last().unwrap().section, "s");
            assert_eq!(entries.len(), 6);
        }
        Scan::Done => panic!("expected an include"),
    }
}

#[test]
fn data_rows_follow_the_data_key() {
    let rows = collect_data_rows("data=\n1,2,\n\n# note\n3,4\nnext=1\n5,6\n", 0).unwrap();
    assert_eq!(rows, vec!["1,2".to_string(), "3,4".to_string()]);
    assert!(collect_data_rows("x", 7).unwrap().is_empty());
}

#[test]
fn paths_use_forward_slashes() {
    assert_eq!(normalize_path("maps\\frontier\\a.txt"), "maps/frontier/a.txt");
    let mut resolver = FsResolver::new(vec![std::path::PathBuf::from("mods/base")]);
    resolver.push_root(std::path::PathBuf::from("mods/extra"));
    assert_eq!(resolver.roots.len(), 2);
    assert_eq!(resolver.roots[1], std::path::PathBuf::from("mods/extra"));
}

#[test]
fn values_parse_as_documented() {
    assert_eq!(parse_duration_ms("600ms").unwrap(), 600);
    assert_eq!(parse_duration_ms(" 1s ").unwrap(), 1000);
    assert_eq!(parse_duration_ms("533").unwrap(), 533);
    assert_eq!(parse_duration_ms("").unwrap(), 0);
    assert_eq!(parse_duration_ms("-5ms").unwrap(), 0);
    assert_eq!(parse_duration_ms("5000000s").unwrap(), u32::MAX);
    assert_eq!(
        parse_duration_ms("abc").unwrap_err(),
        FlareError::Other("invalid integer: abc".into())
    );
    assert_eq!(parse_int(" -42 ").unwrap(), -42);
    assert_eq!(parse_int("99999999999").unwrap_err(), FlareError::Other("invalid integer: 99999999999".into()));
    assert!(parse_bool("TRUE") && parse_bool(" yes ") && parse_bool("1"));
    assert!(!parse_bool("no") && !parse_bool("0"));
    assert_eq!(parse_point("20, 30").unwrap(), Point { x: 20, y: 30 });
    assert_eq!(
        parse_point("20").unwrap_err(),
        FlareError::Other("expected point x,y, got: 20".into())
    );
    let c = parse_color_rgba("0, 10, 300, 128").unwrap();
    assert_eq!((c.r, c.g, c.b, c.a), (0, 10, 44, 128));
    let c = parse_color_rgba("1,2,3").unwrap();
    assert_eq!(c.a, 255);
}

#[test]
fn directions_by_name_and_index() {
    assert_eq!(parse_direction("NE").unwrap(), Direction::Ne);
    assert_eq!(parse_direction(" 3 ").unwrap(), Direction::N);
    for i in 0u8..8 {
        assert_eq!(Direction::from_index(i).unwrap().index(), i);
    }
    let err = Direction::from_index(8).unwrap_err();
    assert_eq!(err, FlareError::Other("direction index 8 is not within range 0-7".into()));
    assert_eq!(err.to_text(), "direction index 8 is not within range 0-7");
    assert!(parse_direction("9").is_err());
}

#[test]
fn tokens_split_on_first_separator() {
    let mut rest = " a ; b ; c ";
    assert_eq!(pop_first_token(&mut rest), Some("a".to_string()));
    assert_eq!(pop_first_token(&mut rest), Some("b".to_string()));
    assert_eq!(pop_first_token(&mut rest), Some("c".to_string()));
    assert_eq!(pop_first_token(&mut rest), None);
    let mut mixed = "a;b,c";
    assert_eq!(pop_first_token(&mut mixed), Some("a".to_string()));
    assert_eq!(mixed, "b,c");
    assert_eq!(pop_first_token(&mut mixed), Some("b".to_string()));
    assert_eq!(pop_first_token(&mut mixed), Some("c".to_string()));
    assert_eq!(split_key_value(" k = v=w "), Some(("k".to_string(), "v=w".to_string())));
    assert_eq!(split_key_value("novalue"), None);
}

#[test]
fn map_without_collision_layer_gets_an_open_one() {
    let text = "[header]\nwidth=4\nheight=2\ntileset=t.txt\n[layer]\ntype=background\ndata=\n1,1,1,1\n1,1,1,1\n";
    let map = FlareMap::parse_str(text).unwrap();
    let layer = map.collision_layer().unwrap();
    assert_eq!(layer.data, vec![vec![0, 0, 0, 0], vec![0, 0, 0, 0]]);
    let collision = CollisionMap::from_map(&map);
    assert_eq!((collision.width, collision.height), (4, 2));
    for x in 0..4 {
        for y in 0..2 {
            assert!(collision.can_occupy(x, y, MovementType::Normal));
        }
    }
    assert!(collision.blocks_movement(-1, 0, MovementType::Intangible));
}

#[test]
fn map_header_and_sections() {
    let text = "[header]\ntitle=Arrival\nwidth=0\nheight=5\ntileset=t.txt\nhero_pos=20,21\nbackground_color=1,2,3,4\nfogofwar=2\nsave_fogofwar=true\nmusic=m.ogg\n[tilesets]\ntileset=a.png,64,32,0,16\n[enemy]\ntype=zombie\nlocation=1,2\n[npc]\nfilename=npc.txt\n";
    let map = FlareMap::parse_str(text).unwrap();
    assert_eq!(map.header.title, "Arrival");
    assert_eq!(map.header.width, 1);
    assert_eq!(map.header.height, 5);
    assert_eq!(map.header.hero_pos, Some(Point { x: 20, y: 21 }));
    assert_eq!(map.header.background_color.a, 4);
    assert_eq!(map.header.fogofwar, 2);
    assert!(map.header.save_fogofwar);
    assert_eq!(map.header.music, "m.ogg");
    assert_eq!(map.tileset_exports.len(), 1);
    assert_eq!(map.tileset_exports[0].offset_y, 16);
    assert_eq!(map.raw_sections.len(), 2);
    assert_eq!(map.raw_sections[0].name, "enemy");
    assert_eq!(map.raw_sections[0].entries.len(), 2);
    assert_eq!(map.raw_sections[1].entries[0].value, "npc.txt");
}

#[test]
fn map_errors() {
    let bad_format = "[header]\nwidth=2\nheight=1\n[layer]\ntype=background\nformat=base64\n";
    assert_eq!(
        FlareMap::parse_str(bad_format).unwrap_err(),
        FlareError::Parse { file: "map.txt".into(), line: 6, message: "layer format must be 'dec'".into() }
    );
    let no_type = "[layer]\ndata=\n";
    assert_eq!(
        FlareMap::parse_str(no_type).unwrap_err(),
        FlareError::Parse { file: "map.txt".into(), line: 2, message: "data before layer type".into() }
    );
    let short_row = "[header]\nwidth=3\nheight=1\n[layer]\ntype=background\ndata=\n1,2\n";
    assert_eq!(
        FlareMap::parse_str(short_row).unwrap_err(),
        FlareError::Other("layer row width 2 != map width 3".into())
    );
    assert_eq!(parse_layer_row(&['4', ',', ',', '5'], 2).unwrap(), vec![4, 5]);
}

#[test]
fn map_include_is_laid_on() {
    let lines = split_lines("[header]\nwidth=2\nheight=1\nINCLUDE part.txt\n[layer]\ntype=object\ndata=\n0,3\n");
    let mut reader = MapReader::new();
    match reader.scan(&lines, "main.txt", 0).unwrap() {
        MapScan::Include { path, next_line } => {
            assert_eq!(path, "part.txt");
            let part = FlareMap::from_content("[header]\ntileset=part.txt\nwidth=2\nheight=1\n[layer]\ntype=background\ndata=\n1,1\n", "part.txt").unwrap();
            reader.merge(part);
            assert!(matches!(reader.scan(&lines, "main.txt", next_line).unwrap(), MapScan::Done));
        }
        MapScan::Done => panic!("expected an include"),
    }
    let map = reader.finish();
    assert_eq!(map.header.tileset, "part.txt");
    let names: Vec<&str> = map.layers.iter().map(|l| l.name.as_str()).collect();
    assert_eq!(names, vec!["background", "collision", "object"]);
}

#[test]
fn collision_values_match_the_table() {
    let types: Vec<CollisionType> = (0u16..10).map(CollisionType::from_u16).collect();
    assert_eq!(
        types,
        vec![
            CollisionType::BlocksNone,
            CollisionType::BlocksAll,
            CollisionType::BlocksMovement,
            CollisionType::BlocksAllHidden,
            CollisionType::BlocksMovementHidden,
            CollisionType::MapOnly,
            CollisionType::MapOnlyAlt,
            CollisionType::BlocksEntities,
            CollisionType::BlocksEnemies,
            CollisionType::BlocksNone,
        ]
    );
    let layer = MapLayer { name: "collision".into(), data: vec![vec![0, 1, 2, 3, 4, 5, 6, 7, 8]] };
    let map = CollisionMap::from_layer(&layer);
    let walls: Vec<bool> = (0..9).map(|x| map.is_wall(x, 0)).collect();
    assert_eq!(walls, vec![false, true, false, true, false, false, false, false, false]);
    let walk: Vec<bool> = (0..9).map(|x| map.blocks_movement(x, 0, MovementType::Normal)).collect();
    assert_eq!(walk, vec![false, true, true, true, true, false, false, true, true]);
    let fly: Vec<bool> = (0..9).map(|x| map.blocks_movement(x, 0, MovementType::Flying)).collect();
    assert_eq!(fly, walls);
    assert_eq!(map.get(3, 0), Some(CollisionType::BlocksAllHidden));
    assert_eq!(map.get(9, 0), None);
    assert!(!map.in_bounds(0, 1));
    for m in [MovementType::Normal, MovementType::Flying, MovementType::Intangible] {
        assert!(map.blocks_movement(0, -1, m));
        assert!(!map.can_occupy(9, 0, m));
    }
}

#[test]
fn icon_sets_resolve_to_last_fit() {
    let icons = IconConfig::parse_str("icon_set=0,a.png\nicon_set=1024,b.png\ntext_offset=3,4\n").unwrap();
    assert_eq!(icons.resolve_set(1500).unwrap().path, "b.png");
    assert_eq!(icons.resolve_set(1024).unwrap().path, "b.png");
    assert_eq!(icons.resolve_set(10).unwrap().path, "a.png");
    assert_eq!(icons.text_offset, Point { x: 3, y: 4 });
    let high = IconConfig::parse_str("icon_set=100,c.png\n").unwrap();
    assert!(high.resolve_set(5).is_none());
    let empty = IconConfig::parse_str("# nothing\n").unwrap();
    assert_eq!(empty.sets.len(), 1);
    assert_eq!(empty.sets[0].first_id, 0);
    assert_eq!(empty.sets[0].path, "images/icons/icons.png");
    assert_eq!(empty, IconConfig::default());
}

#[test]
fn tileset_config_checks_sizes() {
    let err = TilesetConfig::parse_str("tile_size=0,32\n").unwrap_err();
    assert_eq!(err, FlareError::Other("tile_size width and height must be greater than 0".into()));
    let config = TilesetConfig::parse_str("").unwrap();
    assert_eq!((config.tile_width, config.tile_height), (64, 32));
    assert_eq!(config.orientation, Orientation::Isometric);
    assert_eq!(config.tile_width_half(), 32);
    assert_eq!(config.tile_height_half(), 16);
    let ortho = TilesetConfig::parse_str("orientation=orthogonal\ntile_size=33,17\n").unwrap();
    assert_eq!(ortho.tile_width_half(), 16);
    assert_eq!(center_tile(Point { x: 10, y: 10 }, &ortho), Point { x: 26, y: 18 });
    assert_eq!(center_tile(Point { x: 10, y: 10 }, &config), Point { x: 10, y: 26 });
    assert!(TilesetConfig::parse_str("orientation=diagonal\n").is_err());
}

#[test]
fn no_keys_no_direction() {
    assert_eq!(direction_from_isometric_keys(false, false, false, false), None);
    assert_eq!(direction_from_isometric_keys(true, true, true, true), Some(Direction::W));
}

#[test]
fn error_texts() {
    assert_eq!(FlareError::parse("a.txt", 3, "bad").to_text(), "parse error in a.txt:3: bad");
    assert_eq!(FlareError::invalid("a.txt", 12, "odd").to_text(), "invalid value at a.txt:12: odd");
    assert_eq!(FlareError::Other("plain".into()).to_text(), "plain");
}

#[test]
fn parallax_layers_keep_speed_texts_in_order() {
    let text = "speed=9\n[layer]\nimage=a.png\nspeed=0.5\nfixed_speed=1,2\nspeed=0.25\nmap_layer=object\nunknown=1\n[other]\n[layer]\nimage=b.png\n";
    let parallax = ParallaxLayers::parse_str(text).unwrap();
    assert_eq!(parallax.layers.len(), 2);
    let first = &parallax.layers[0];
    assert_eq!(first.image, "a.png");
    assert_eq!(first.map_layer, "object");
    assert_eq!(
        first.speed_entries,
        vec![
            (SpeedKey::Speed, "0.5".to_string()),
            (SpeedKey::FixedSpeed, "1,2".to_string()),
            (SpeedKey::Speed, "0.25".to_string()),
        ]
    );
    assert_eq!(parallax.layers[1].image, "b.png");
    assert!(parallax.layers[1].speed_entries.is_empty());
    assert!(ParallaxLayers::parse_str("image=x.png\n").unwrap().layers.is_empty());
}

#[test]
fn frame_index_must_lie_below_the_frame_count() {
    let text = "image=a.png\n[p]\nframes=2\nduration=200ms\ntype=play_once\nframe=0,0,0,0,8,8,4,4\nframe=2,0,8,0,8,8,4,4\n";
    let err = AnimationSet::parse_str(text).unwrap_err();
    assert_eq!(err, FlareError::Other("frame index out of range: 2,0,8,0,8,8,4,4".into()));
    let negative = "image=a.png\n[p]\nframes=2\nframe=-1,0,0,0,8,8,4,4\n";
    assert!(AnimationSet::parse_str(negative).is_err());
    let fine = "image=a.png\n[p]\nframes=2\nframe=1,0,8,0,8,8,4,4\n";
    assert_eq!(AnimationSet::parse_str(fine).unwrap().animations[0].frame_data.len(), 1);
}

#[test]
fn direction_indices_outside_the_table_are_refused() {
    assert_eq!(
        parse_direction("256").unwrap_err(),
        FlareError::Other("direction index 256 is not within range 0-7".into())
    );
    assert_eq!(
        parse_direction("-1").unwrap_err(),
        FlareError::Other("direction index -1 is not within range 0-7".into())
    );
    assert_eq!(
        parse_direction("8").unwrap_err(),
        FlareError::Other("direction index 8 is not within range 0-7".into())
    );
    assert_eq!(parse_direction(" NE ").unwrap(), Direction::Ne);
    assert_eq!(parse_direction(" 7 ").unwrap(), Direction::S);
}

#[test]
fn include_of_a_file_being_read_is_recursive() {
    let lines = split_lines("a=1\nINCLUDE a.txt\n");
    let mut section = String::new();
    let mut entries: Vec<Entry> = Vec::new();
    let ancestors = vec!["a.txt".to_string()];
    let err = scan_lines_within(&lines, "b.txt", &ancestors, 0, &mut section, &mut entries).unwrap_err();
    assert_eq!(err, FlareError::RecursiveInclude("a.txt".into()));
    let lines = split_lines("INCLUDE c.txt\n");
    let r = scan_lines_within(&lines, "b.txt", &ancestors, 0, &mut section, &mut entries).unwrap();
    assert!(matches!(r, Scan::Include { .. }));

    let map_lines = split_lines("[header]\nINCLUDE outer.txt\n");
    let mut reader = MapReader::new();
    let err = reader.scan_within(&map_lines, "inner.txt", &["outer.txt".to_string()], 0).unwrap_err();
    assert_eq!(err, FlareError::RecursiveInclude("outer.txt".into()));
    let mut reader = MapReader::new();
    let self_include = split_lines("INCLUDE m.txt\n");
    assert_eq!(
        reader.scan(&self_include, "m.txt", 0).unwrap_err(),
        FlareError::RecursiveInclude("m.txt".into())
    );
}

#[test]
fn tile_animation_getter() {
    let set = TileSet::parse_str("img=t.png\nanimation=9,1,2,30ms\n").unwrap();
    let anim = set.animation(9).unwrap();
    assert_eq!(anim.frames.len(), 1);
    assert_eq!((anim.frames[0].x, anim.frames[0].y, anim.frames[0].duration_ms), (1, 2, 30));
    assert!(set.animation(8).is_none());
}

#[test]
fn config_takes_the_last_entries() {
    let config = TilesetConfig::parse_str("tile_size=10,10\norientation=orthogonal\ntile_size=48,24\n[other]\ntile_size=0,0\n").unwrap();
    assert_eq!((config.tile_width, config.tile_height), (48, 24));
    assert_eq!(config.orientation, Orientation::Orthogonal);
    assert!(TilesetConfig::parse_str("tile_size=x\ntile_size=48,24\n").is_err());
}

#[test]
fn numbers_read_back_from_their_text() {
    for n in [0, 7, -1, 42, i32::MAX, i32::MIN] {
        assert_eq!(parse_int(&n.to_string()).unwrap(), n);
        assert_eq!(parse_int(&format!(" {n} ")).unwrap(), n);
    }
    assert!(parse_int("4x").is_err() && parse_int("").is_err() && parse_int("2147483648").is_err());
    assert!(parse_bool("true") && parse_bool(" 1 ") && parse_bool("TRUE") && parse_bool("Yes"));
    assert!(!parse_bool("false") && !parse_bool("0") && !parse_bool(""));
    assert_eq!(parse_duration_ms("800ms").unwrap(), 800);
    assert!(parse_duration_ms("5x").is_err());
}

#[test]
fn cloned_player_keeps_its_state_and_plays_alone() {
    let mut player = player_for("looped", 4);
    player.advance_frames(6);
    let mut copy = player.clone();
    assert_eq!(copy.frame_index(), 2);
    assert_eq!(copy.loop_count(), 1);
    assert_eq!(copy.animation(), player.animation());
    assert_eq!(copy.animation().frame_data, player.animation().frame_data);
    copy.advance_frames(1);
    assert_eq!(copy.frame_index(), 3);
    assert_eq!(player.frame_index(), 2);
}

#[test]
fn advance_keeps_finished_play_once_on_its_last_frame() {
    let mut player = player_for("play_once", 3);
    let before = player.clone();
    player.advance_frames(2);
    assert_eq!(player.frame_index(), 2);
    assert!(!player.is_finished());
    player.advance_frames(5);
    assert!(player.is_finished());
    assert_eq!(player.frame_index(), 2);
    assert!(player.loop_count() >= before.loop_count());
    assert_eq!(player.advance_frames(3), AnimationEvent::Nothing);
    assert_eq!(player.frame_index(), 2);
}
