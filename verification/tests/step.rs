use riverworld::gamemode::is_autosave_tick;
use riverworld::gamemode::ButtonState;
use riverworld::gamemode::Input;
use riverworld::state::gamestate::GameState;
use riverworld::state::inventory::Inventory;
use riverworld::state::inventory::ItemType;
use riverworld::state::map::MapData;
use riverworld::state::player::Direction;
use riverworld::state::serialized::SerializedState;

const HELD: ButtonState = ButtonState { held: true, just_pressed: false };
const PRESSED: ButtonState = ButtonState { held: true, just_pressed: true };

fn game(map_data: MapData, player: (u8, u8, Direction), wood: u8, frame: u64) -> GameState {
    let mut inventory = Inventory::default();
    inventory.add(ItemType::WoodPlank, wood);
    GameState::from_save_state(SerializedState { map_data, inventory, player, frame })
}

fn press(direction: Direction) -> Input {
    let mut input = Input::idle();
    match direction {
        Direction::UP => input.up = PRESSED,
        Direction::DOWN => input.down = PRESSED,
        Direction::LEFT => input.left = PRESSED,
        Direction::RIGHT => input.right = PRESSED,
    }
    input
}

fn harvest_input() -> Input {
    let mut input = Input::idle();
    input.harvest = PRESSED;
    input
}

fn build_input() -> Input {
    let mut input = Input::idle();
    input.build = PRESSED;
    input
}

fn wood(state: &GameState) -> u8 {
    *state.inventory().item(ItemType::WoodPlank)
}

#[test]
fn an_idle_step_only_advances_the_tick() {
    let mut state = game(MapData::blank(), (5, 9, Direction::LEFT), 7, 10);
    let saved = state.step(&Input::idle());
    assert!(saved.is_none());
    assert_eq!(state.frame(), 11);
    assert_eq!(state.player_obj().get_position(), (5, 9));
    assert_eq!(state.player_obj().get_direction(), Direction::LEFT);
    assert_eq!(wood(&state), 7);
    assert_eq!(state.map_data().map, [0u32; 32]);
    assert_eq!(state.map_data().bridge, [0u32; 32]);
}

#[test]
fn a_press_moves_one_cell_and_turns() {
    let mut state = game(MapData::blank(), (5, 9, Direction::UP), 0, 0);
    state.step(&press(Direction::RIGHT));
    assert_eq!(state.player_obj().get_position(), (6, 9));
    assert_eq!(state.player_obj().get_direction(), Direction::RIGHT);
    state.step(&press(Direction::DOWN));
    assert_eq!(state.player_obj().get_position(), (6, 10));
    assert_eq!(state.player_obj().get_direction(), Direction::DOWN);
    state.step(&press(Direction::LEFT));
    assert_eq!(state.player_obj().get_position(), (5, 10));
    state.step(&press(Direction::UP));
    assert_eq!(state.player_obj().get_position(), (5, 9));
    assert_eq!(state.player_obj().get_direction(), Direction::UP);
    assert_eq!(state.frame(), 4);
}

#[test]
fn holding_turns_but_does_not_move() {
    let mut state = game(MapData::blank(), (5, 9, Direction::UP), 0, 0);
    let mut input = Input::idle();
    input.down = HELD;
    state.step(&input);
    assert_eq!(state.player_obj().get_position(), (5, 9));
    assert_eq!(state.player_obj().get_direction(), Direction::DOWN);
}

#[test]
fn the_first_held_direction_wins() {
    let mut state = game(MapData::blank(), (5, 9, Direction::RIGHT), 0, 0);
    let mut input = Input::idle();
    input.up = HELD;
    input.left = PRESSED;
    state.step(&input);
    assert_eq!(state.player_obj().get_direction(), Direction::UP);
    assert_eq!(state.player_obj().get_position(), (5, 9));
    let mut input = Input::idle();
    input.down = PRESSED;
    input.left = PRESSED;
    input.right = PRESSED;
    state.step(&input);
    assert_eq!(state.player_obj().get_direction(), Direction::DOWN);
    assert_eq!(state.player_obj().get_position(), (5, 10));
    assert_eq!(input.facing(), Some(Direction::DOWN));
    assert_eq!(input.movement(), Some(Direction::DOWN));
    assert_eq!(Input::idle().facing(), None);
    assert_eq!(Input::idle().movement(), None);
}

#[test]
fn a_press_without_hold_is_no_direction() {
    let mut state = game(MapData::blank(), (5, 9, Direction::RIGHT), 0, 0);
    let mut input = Input::idle();
    input.left = ButtonState { held: false, just_pressed: true };
    state.step(&input);
    assert_eq!(state.player_obj().get_direction(), Direction::RIGHT);
    assert_eq!(state.player_obj().get_position(), (5, 9));
}

#[test]
fn the_edges_of_the_grid_stop_the_player() {
    let mut state = game(MapData::blank(), (0, 0, Direction::DOWN), 0, 0);
    state.step(&press(Direction::UP));
    assert_eq!(state.player_obj().get_position(), (0, 0));
    assert_eq!(state.player_obj().get_direction(), Direction::UP);
    state.step(&press(Direction::LEFT));
    assert_eq!(state.player_obj().get_position(), (0, 0));
    let mut state = game(MapData::blank(), (31, 31, Direction::UP), 0, 0);
    state.step(&press(Direction::DOWN));
    assert_eq!(state.player_obj().get_position(), (31, 31));
    state.step(&press(Direction::RIGHT));
    assert_eq!(state.player_obj().get_position(), (31, 31));
    assert_eq!(state.player_obj().get_direction(), Direction::RIGHT);
}

#[test]
fn water_and_trees_block_the_way() {
    let mut map = MapData::blank();
    map.set_terrain_point((6, 9), true).unwrap();
    map.tree_positions[0] = (5, 8, 1);
    map.tree_positions[1] = (5, 10, 0);
    let mut state = game(map, (5, 9, Direction::UP), 0, 0);
    state.step(&press(Direction::RIGHT));
    assert_eq!(state.player_obj().get_position(), (5, 9));
    assert_eq!(state.player_obj().get_direction(), Direction::RIGHT);
    state.step(&press(Direction::UP));
    assert_eq!(state.player_obj().get_position(), (5, 9));
    assert_eq!(state.player_obj().get_direction(), Direction::UP);
    state.step(&press(Direction::DOWN));
    assert_eq!(state.player_obj().get_position(), (5, 10));
}

#[test]
fn a_bridge_opens_the_way() {
    let mut map = MapData::blank();
    map.set_terrain_point((6, 9), true).unwrap();
    map.set_bridge_point((6, 9), true).unwrap();
    let mut state = game(map, (5, 9, Direction::UP), 0, 0);
    state.step(&press(Direction::RIGHT));
    assert_eq!(state.player_obj().get_position(), (6, 9));
}

#[test]
fn a_harvest_fells_every_tree_next_to_the_player() {
    let mut map = MapData::blank();
    map.tree_positions = [(5, 8, 1), (4, 9, 1), (6, 10, 1), (5, 9, 1)];
    let mut state = game(map, (5, 9, Direction::UP), 1, 0);
    state.step(&harvest_input());
    assert_eq!(state.map_data().tree_positions, [(5, 8, 0), (4, 9, 0), (6, 10, 1), (5, 9, 1)]);
    assert_eq!(wood(&state), 7);
    assert_eq!(*state.inventory().item(ItemType::Fish), 0);
    assert_eq!(state.frame(), 1);
}

#[test]
fn a_second_harvest_yields_nothing() {
    let mut map = MapData::blank();
    map.tree_positions = [(5, 8, 1), (4, 9, 1), (6, 9, 1), (5, 10, 1)];
    let mut state = game(map, (5, 9, Direction::UP), 0, 0);
    assert_eq!(state.harvest(), 4);
    assert_eq!(wood(&state), 12);
    let trees = state.map_data().tree_positions;
    assert_eq!(trees, [(5, 8, 0), (4, 9, 0), (6, 9, 0), (5, 10, 0)]);
    assert_eq!(state.harvest(), 0);
    assert_eq!(wood(&state), 12);
    assert_eq!(state.map_data().tree_positions, trees);
    state.step(&harvest_input());
    assert_eq!(wood(&state), 12);
}

#[test]
fn harvested_wood_saturates() {
    let mut map = MapData::blank();
    map.tree_positions = [(5, 8, 1), (4, 9, 1), (0, 0, -1), (0, 0, -1)];
    let mut state = game(map, (5, 9, Direction::UP), 251, 0);
    state.step(&harvest_input());
    assert_eq!(wood(&state), 255);
}

#[test]
fn a_held_harvest_button_does_nothing() {
    let mut map = MapData::blank();
    map.tree_positions[0] = (5, 8, 1);
    let mut state = game(map, (5, 9, Direction::UP), 0, 0);
    let mut input = Input::idle();
    input.harvest = HELD;
    input.build = HELD;
    state.step(&input);
    assert_eq!(wood(&state), 0);
    assert_eq!(state.map_data().tree_positions[0], (5, 8, 1));
}

#[test]
fn a_bridge_costs_one_plank() {
    let mut map = MapData::blank();
    map.set_terrain_point((6, 9), true).unwrap();
    let mut state = game(map, (5, 9, Direction::RIGHT), 2, 0);
    state.step(&build_input());
    assert_eq!(state.map_data().get_bridge_point((6, 9)), Ok(true));
    assert_eq!(state.map_data().get_terrain_point((6, 9)), Ok(true));
    assert_eq!(state.map_data().bridge[9], 1 << 6);
    assert_eq!(wood(&state), 1);
    state.step(&build_input());
    assert_eq!(wood(&state), 1);
    assert_eq!(state.map_data().bridge[9], 1 << 6);
}

#[test]
fn no_bridge_without_wood_or_on_land() {
    let mut map = MapData::blank();
    map.set_terrain_point((6, 9), true).unwrap();
    let mut state = game(map, (5, 9, Direction::RIGHT), 0, 0);
    assert!(!state.build_bridge());
    assert_eq!(state.map_data().bridge, [0u32; 32]);
    let mut state = game(map, (5, 9, Direction::LEFT), 5, 0);
    assert!(!state.build_bridge());
    assert_eq!(state.map_data().bridge, [0u32; 32]);
    assert_eq!(wood(&state), 5);
    let mut state = game(map, (5, 9, Direction::RIGHT), 5, 0);
    assert!(state.build_bridge());
    assert_eq!(wood(&state), 4);
}

#[test]
fn harvest_comes_before_build_in_one_step() {
    let mut map = MapData::blank();
    map.set_terrain_point((6, 9), true).unwrap();
    map.tree_positions[2] = (5, 10, 1);
    let mut state = game(map, (5, 9, Direction::RIGHT), 0, 0);
    let mut input = Input::idle();
    input.harvest = PRESSED;
    input.build = PRESSED;
    state.step(&input);
    assert_eq!(wood(&state), 2);
    assert_eq!(state.map_data().get_bridge_point((6, 9)), Ok(true));
    assert_eq!(state.map_data().tree_positions[2], (5, 10, 0));
}

#[test]
fn movement_comes_before_harvest_and_build() {
    let mut map = MapData::blank();
    map.set_terrain_point((7, 9), true).unwrap();
    map.tree_positions[0] = (6, 8, 1);
    let mut state = game(map, (5, 9, Direction::UP), 0, 0);
    let mut input = press(Direction::RIGHT);
    input.harvest = PRESSED;
    input.build = PRESSED;
    state.step(&input);
    assert_eq!(state.player_obj().get_position(), (6, 9));
    assert_eq!(state.map_data().tree_positions[0], (6, 8, 0));
    assert_eq!(state.map_data().get_bridge_point((7, 9)), Ok(true));
    assert_eq!(wood(&state), 2);
}

#[test]
fn a_snapshot_is_due_every_600_ticks() {
    let mut state = game(MapData::blank(), (5, 9, Direction::LEFT), 7, 598);
    assert!(state.step(&Input::idle()).is_none());
    let saved = state.step(&press(Direction::DOWN)).unwrap();
    assert_eq!(saved.frame, 600);
    assert_eq!(saved.player, (5, 10, Direction::DOWN));
    assert_eq!(saved.inventory.get(ItemType::WoodPlank), 7);
    assert_eq!(saved.map_data.map, [0u32; 32]);
    assert!(state.step(&Input::idle()).is_none());
    assert_eq!(state.frame(), 601);
    let mut state = game(MapData::blank(), (0, 0, Direction::UP), 0, 59);
    assert!(state.step(&Input::idle()).is_none());
    assert!(is_autosave_tick(0));
    assert!(is_autosave_tick(1200));
    assert!(!is_autosave_tick(60));
    assert!(!is_autosave_tick(599));
}

#[test]
fn the_tick_counter_counts_steps() {
    let mut state = GameState::new(42).unwrap();
    assert_eq!(state.frame(), 0);
    for expected in 1..=5u64 {
        state.step(&Input::idle());
        assert_eq!(state.frame(), expected);
    }
    assert_eq!(state.step_frame(), 6);
    assert_eq!(state.frame(), 6);
}

#[test]
fn a_new_game_starts_in_the_corner_with_nothing() {
    let state = GameState::new(42).unwrap();
    assert_eq!(state.player_obj().get_position(), (0, 0));
    assert_eq!(state.player_obj().get_direction(), Direction::UP);
    assert_eq!(state.inventory().content, [0, 0]);
    assert_eq!(state.frame(), 0);
    let map = MapData::gen(42).unwrap();
    assert_eq!(state.map_data().map, map.map);
    assert_eq!(state.map_data().tree_positions, map.tree_positions);
}

#[test]
fn a_session_resumes_from_a_record_or_starts_anew() {
    let mut map = MapData::blank();
    map.set_terrain_point((1, 1), true).unwrap();
    let record = SerializedState {
        map_data: map,
        inventory: Inventory::default(),
        player: (5, 9, Direction::LEFT),
        frame: 77,
    };
    let resumed = GameState::resume_or_new(true, Some(record), 42).unwrap();
    assert_eq!(resumed.frame(), 77);
    assert_eq!(resumed.player_obj().get_position(), (5, 9));
    assert_eq!(resumed.map_data().map, map.map);
    let fresh = GameState::new(42).unwrap();
    for started in [
        GameState::resume_or_new(true, None, 42).unwrap(),
        GameState::resume_or_new(false, Some(record), 42).unwrap(),
        GameState::resume_or_new(false, None, 42).unwrap(),
    ] {
        assert_eq!(started.frame(), 0);
        assert_eq!(started.player_obj().get_position(), (0, 0));
        assert_eq!(started.map_data().map, fresh.map_data().map);
        assert_eq!(started.map_data().tree_positions, fresh.map_data().tree_positions);
    }
}

#[test]
fn the_parts_of_a_state_can_be_changed_in_place() {
    let mut state = game(MapData::blank(), (5, 9, Direction::LEFT), 0, 3);
    state.map_data_mut().set_terrain_point((2, 2), true).unwrap();
    state.player_obj_mut().set_direction(Direction::DOWN);
    state.inventory_mut().add(ItemType::Fish, 4);
    assert_eq!(state.map_data().get_terrain_point((2, 2)), Ok(true));
    assert_eq!(state.player_obj().get_direction(), Direction::DOWN);
    assert_eq!(state.player_obj().get_position(), (5, 9));
    assert_eq!(*state.inventory().item(ItemType::Fish), 4);
    assert_eq!(state.frame(), 3);
}
