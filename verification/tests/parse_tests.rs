use flare_format::{
    AnimationPlayer, AnimationSet, CollisionMap, Direction, FlareMap, IconConfig, MovementType,
    ParallaxLayers, TileSet, TilesetConfig,
};

const COINS5: &str = "image=images/loot/coins5.png

[power]
frames=6
duration=600ms
type=play_once
frame=0,0,37,56,32,50,7,69
frame=1,0,0,0,40,56,10,84
frame=2,0,0,56,37,59,9,82
frame=3,0,40,0,26,55,8,59
frame=4,0,37,106,17,11,7,7
frame=5,0,54,106,17,9,7,5
";

const ZOMBIE_STANCE: &str = "image=images/enemies/zombie.png

[stance]
frames=4
duration=533ms
type=back_forth
frame=0,0,503,191,26,56,11,50
frame=0,1,127,285,31,54,14,51
frame=0,2,397,433,30,53,11,50
frame=0,3,331,154,30,52,9,51
frame=0,4,96,374,24,56,10,47
frame=0,5,88,444,30,52,10,47
frame=0,6,434,60,25,53,14,51
frame=0,7,63,590,30,52,10,47
frame=1,0,136,296,30,53,13,47
frame=1,1,315,573,26,52,13,51
frame=1,2,192,381,25,56,14,47
frame=1,3,61,633,27,55,14,51
frame=1,4,437,321,31,56,12,49
frame=1,5,306,254,26,53,9,51
frame=1,6,307,537,31,54,14,50
frame=1,7,294,623,25,52,13,50
frame=2,0,168,350,26,55,12,47
frame=2,1,79,571,29,54,14,49
frame=2,2,508,593,31,52,15,47
frame=2,3,276,485,25,52,14,49
frame=2,4,456,291,30,54,9,50
frame=2,5,363,172,25,55,9,48
frame=2,6,294,132,27,55,12,50
frame=2,7,82,170,31,55,13,49
frame=3,0,140,440,32,54,14,50
frame=3,1,367,699,30,53,10,47
frame=3,2,180,154,27,53,9,50
frame=3,3,186,269,28,52,10,50
frame=3,4,378,624,29,53,14,51
frame=3,5,55,467,32,55,12,50
frame=3,6,403,106,31,55,9,48
frame=3,7,405,701,26,55,9,48
";

const GRASSLAND_TILESET: &str = "img=images/tilesets/tileset_grassland.png

tile=16,288,649,64,32,32,16
tile=17,788,336,64,32,32,16
tile=265,406,290,64,64,32,48
animation=265,406,290,66ms,367,354,66ms,367,418,66ms,367,482,66ms
";

const MINI_MAP: &str = "[header]
width=3
height=2
tileset=tilesetdefs/test.txt
hero_pos=1,1

[layer]
type=background
data=
1,2,1,
2,1,2,

[layer]
type=collision
data=
0,1,0,
0,0,0,
";

const PARALLAX: &str = "[layer]
image=images/parallax/fog.png
speed=0.01
fixed_speed=-0.0025,-0.005
map_layer=object
";

const ICONS: &str = "icon_set=0,images/icons/icons.png
icon_set=1024,images/icons/icons_overlay.png
text_offset=0,0
";

const TILESET_CONFIG: &str = "# engine tileset configuration
tile_size=64,32
orientation=isometric
";

/// The image path registered under `key`.
fn image_of<'a>(set: &'a AnimationSet, key: &str) -> Option<&'a str> {
    set.images.iter().find(|(k, _)| k == key).map(|(_, p)| p.as_str())
}

#[test]
fn parses_coins5_animation() {
    let set = AnimationSet::parse_str(COINS5).unwrap();
    assert_eq!(image_of(&set, "images/loot/coins5.png"), Some("images/loot/coins5.png"));
    let anim = set.animation("power").unwrap();
    assert_eq!(anim.frames, 6);
    assert_eq!(anim.duration_ms, 600);
    let frame = anim.frame(0, Direction::Sw).unwrap();
    assert_eq!(frame.src.x, 37);
    assert_eq!(frame.offset.y, 69);
}

#[test]
fn parses_zombie_stance_frames() {
    let set = AnimationSet::parse_str(ZOMBIE_STANCE).unwrap();
    let anim = set.animation("stance").unwrap();
    assert_eq!(anim.frames, 4);
    assert_eq!(anim.duration_ms, 533);
    assert!(anim.frame(0, Direction::N).is_some());
    assert!(anim.frame(3, Direction::S).is_some());
}

#[test]
fn animation_player_play_once() {
    let set = AnimationSet::parse_str(COINS5).unwrap();
    let anim = set.animation("power").unwrap().clone();
    let frame_ms = anim.duration_ms as f32 / anim.frames as f32;
    let mut player = AnimationPlayer::new(anim);
    let periods = (700.0f32 / frame_ms) as u64;
    player.advance_frames(periods);
    assert!(player.is_finished());
    assert_eq!(player.frame_index(), 5);
}

#[test]
fn parses_grassland_tileset() {
    let tileset = TileSet::parse_str(GRASSLAND_TILESET).unwrap();
    let tile = tileset.tile(16).unwrap();
    assert_eq!(tile.src.w, 64);
    assert_eq!(tile.offset.x, 32);
    assert!(tileset.animations.contains_key(&265));
}

#[test]
fn tile_animation_advances() {
    let mut tileset = TileSet::parse_str(GRASSLAND_TILESET).unwrap();
    let initial = tileset.current_src(265).unwrap();
    let elapsed = 100.0f32;
    let duration = tileset.anim_frame_duration(265).unwrap();
    if elapsed >= duration as f32 {
        tileset.advance_anim_frame(265);
    }
    let advanced = tileset.current_src(265).unwrap();
    assert_ne!(initial.x, advanced.x);
}

#[test]
fn parses_mini_map() {
    let map = FlareMap::parse_str(MINI_MAP).unwrap();
    assert_eq!(map.header.width, 3);
    assert_eq!(map.header.height, 2);
    assert_eq!(map.header.tileset, "tilesetdefs/test.txt");
    let bg = map.layer("background").unwrap();
    assert_eq!(bg.data[0][0], 1);
    let collision = CollisionMap::from_map(&map);
    assert!(collision.is_wall(1, 0));
    assert!(collision.can_occupy(0, 0, MovementType::Normal));
    assert!(!collision.can_occupy(1, 0, MovementType::Normal));
}

#[test]
fn parses_parallax_and_icons() {
    let parallax = ParallaxLayers::parse_str(PARALLAX).unwrap();
    assert_eq!(parallax.layers.len(), 1);
    assert_eq!(parallax.layers[0].image, "images/parallax/fog.png");

    let icons = IconConfig::parse_str(ICONS).unwrap();
    assert_eq!(icons.sets.len(), 2);
    assert!(icons.resolve_set(1500).is_some());
}

#[test]
fn parses_tileset_config_and_coords() {
    let config = TilesetConfig::parse_str(TILESET_CONFIG).unwrap();
    assert_eq!(config.tile_width, 64);
}
