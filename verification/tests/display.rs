use riverworld::gamemode::animation_frame;
use riverworld::gamemode::clock_digits;
use riverworld::gamemode::player_sprite_position;
use riverworld::gamemode::quarter_turns;
use riverworld::gamemode::scroll_rows;
use riverworld::gamemode::session_seed;
use riverworld::gamemode::tree_sprite;
use riverworld::gamemode::window_tile_id;
use riverworld::state::map::MapData;
use riverworld::state::map::OutOfBounds;
use riverworld::state::player::Direction;

#[test]
fn the_view_follows_the_player_between_two_rows() {
    assert_eq!(scroll_rows(0), 0);
    assert_eq!(scroll_rows(10), 0);
    assert_eq!(scroll_rows(11), 1);
    assert_eq!(scroll_rows(21), 11);
    assert_eq!(scroll_rows(22), 12);
    assert_eq!(scroll_rows(23), 12);
    assert_eq!(scroll_rows(31), 12);
    assert_eq!(scroll_rows(255), 12);
}

#[test]
fn sprites_are_placed_in_pixels() {
    assert_eq!(player_sprite_position((0, 0)), (-4, -4));
    assert_eq!(player_sprite_position((5, 9)), (36, 68));
    assert_eq!(player_sprite_position((5, 15)), (36, 76));
    assert_eq!(player_sprite_position((31, 31)), (244, 148));
    assert_eq!(tree_sprite((3, 4, 1), 0), (24, 24, true));
    assert_eq!(tree_sprite((3, 4, 0), 0), (24, 24, false));
    assert_eq!(tree_sprite((3, 4, -1), 0), (24, 24, false));
    assert_eq!(tree_sprite((3, 16, 1), 0), (24, 120, true));
    assert_eq!(tree_sprite((3, 17, 1), 0), (24, 128, false));
    assert_eq!(tree_sprite((3, 17, 1), 11), (24, 120, true));
    assert_eq!(tree_sprite((3, 0, 1), 31), (24, -104, true));
}

#[test]
fn the_sprite_turns_with_the_player() {
    assert_eq!(quarter_turns(Direction::UP), 0);
    assert_eq!(quarter_turns(Direction::LEFT), 1);
    assert_eq!(quarter_turns(Direction::DOWN), 2);
    assert_eq!(quarter_turns(Direction::RIGHT), 3);
}

#[test]
fn the_animation_advances_every_fifth_tick() {
    assert_eq!(animation_frame(0, 4), 0);
    assert_eq!(animation_frame(4, 4), 0);
    assert_eq!(animation_frame(5, 4), 1);
    assert_eq!(animation_frame(19, 4), 3);
    assert_eq!(animation_frame(20, 4), 0);
    assert_eq!(animation_frame(u64::MAX, 1), 0);
}

#[test]
fn the_clock_counts_35_ticks_to_the_second() {
    assert_eq!(clock_digits(0), [0, 0, 0, 0]);
    assert_eq!(clock_digits(34), [0, 0, 0, 0]);
    assert_eq!(clock_digits(35), [0, 0, 0, 1]);
    assert_eq!(clock_digits(35 * 59), [0, 0, 5, 9]);
    assert_eq!(clock_digits(35 * 60), [0, 1, 0, 0]);
    assert_eq!(clock_digits(35 * (60 * 23 + 7)), [2, 3, 0, 7]);
    assert_eq!(clock_digits(35 * 60 * 24), [0, 0, 0, 0]);
    assert_eq!(clock_digits(1234), [0, 0, 3, 5]);
}

#[test]
fn a_window_has_corners_edges_and_an_inside() {
    assert_eq!(window_tile_id(0, 0, 10, 4), 10);
    assert_eq!(window_tile_id(9, 0, 10, 4), 11);
    assert_eq!(window_tile_id(0, 3, 10, 4), 26);
    assert_eq!(window_tile_id(9, 3, 10, 4), 27);
    assert_eq!(window_tile_id(0, 1, 10, 4), 12);
    assert_eq!(window_tile_id(9, 2, 10, 4), 13);
    assert_eq!(window_tile_id(4, 0, 10, 4), 28);
    assert_eq!(window_tile_id(4, 3, 10, 4), 29);
    assert_eq!(window_tile_id(4, 2, 10, 4), 30);
    assert_eq!(window_tile_id(8, 1, 9, 4), 13);
}

#[test]
fn the_seed_is_the_frame_count_rotated() {
    assert_eq!(session_seed(0), 0);
    assert_eq!(session_seed(1), 256);
    assert_eq!(session_seed(0x1234), 0x12_3400);
    assert_eq!(session_seed(0xab00_0000_0000_00cd), 0xcdab);
    assert_eq!(session_seed(u64::MAX), u64::MAX);
    assert_eq!(session_seed(0x0123_4567_89ab_cdef), 0x0123_4567_89ab_cdefu64.rotate_left(8));
}

#[test]
fn tiles_show_land_water_and_bridges() {
    let mut map = MapData::blank();
    map.set_terrain_point((1, 0), true).unwrap();
    map.set_terrain_point((2, 0), true).unwrap();
    map.set_bridge_point((2, 0), true).unwrap();
    map.set_bridge_point((3, 0), true).unwrap();
    assert_eq!(map.tile_at((0, 0)), Ok(0));
    assert_eq!(map.tile_at((1, 0)), Ok(1));
    assert_eq!(map.tile_at((2, 0)), Ok(2));
    assert_eq!(map.tile_at((3, 0)), Ok(2));
    assert_eq!(map.tile_at((32, 0)), Err(OutOfBounds { x: 32, y: 0 }));
}

#[test]
fn the_terrain_is_drawn_in_text() {
    let mut map = MapData::blank();
    map.set_terrain_point((0, 0), true).unwrap();
    map.set_terrain_point((31, 1), true).unwrap();
    map.set_bridge_point((5, 5), true).unwrap();
    let text = map.to_text();
    assert_eq!(text.len(), 32 * 33);
    let lines: Vec<&[u8]> = text.split(|&b| b == b'\n').collect();
    assert_eq!(lines.len(), 33);
    assert!(lines[32].is_empty());
    assert_eq!(lines[0], format!("*{}", "#".repeat(31)).as_bytes());
    assert_eq!(lines[1], format!("{}*", "#".repeat(31)).as_bytes());
    for line in &lines[2..32] {
        assert_eq!(*line, "#".repeat(32).as_bytes());
    }
}
