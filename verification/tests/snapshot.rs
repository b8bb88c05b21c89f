use riverworld::state::gamestate::GameState;
use riverworld::state::inventory::Inventory;
use riverworld::state::inventory::ItemType;
use riverworld::state::map::MapData;
use riverworld::state::player::Direction;
use riverworld::state::serialized::direction_from_code;
use riverworld::state::serialized::direction_to_code;
use riverworld::state::serialized::SerializedState;
use riverworld::state::serialized::RECORD_LEN;

fn sample() -> SerializedState {
    let mut map_data = MapData::blank();
    map_data.map[0] = 0x0000_0700;
    map_data.map[17] = 0xdead_beef;
    map_data.map[31] = 0x8000_0001;
    map_data.bridge[17] = 0x0000_0040;
    map_data.tree_positions = [(3, 4, 1), (30, 23, 0), (7, 7, 1), (300, 515, -1)];
    let mut inventory = Inventory::default();
    inventory.add(ItemType::WoodPlank, 7);
    SerializedState { map_data, inventory, player: (5, 9, Direction::LEFT), frame: 1234 }
}

fn assert_same(a: &SerializedState, b: &SerializedState) {
    assert_eq!(a.map_data.map, b.map_data.map);
    assert_eq!(a.map_data.bridge, b.map_data.bridge);
    assert_eq!(a.map_data.tree_positions, b.map_data.tree_positions);
    assert_eq!(a.inventory, b.inventory);
    assert_eq!(a.player, b.player);
    assert_eq!(a.frame, b.frame);
}

#[test]
fn a_snapshot_survives_the_round_trip() {
    let state = sample();
    let bytes = state.to_bytes();
    assert_eq!(bytes.len(), RECORD_LEN);
    let back = SerializedState::from_bytes(&bytes).unwrap();
    assert_same(&back, &state);
    assert_eq!(back.inventory.get(ItemType::WoodPlank), 7);
    assert_eq!(back.inventory.get(ItemType::Fish), 0);
    assert_eq!(back.player, (5, 9, Direction::LEFT));
    assert_eq!(back.frame, 1234);
    assert_eq!(back.map_data.tree_positions[1], (30, 23, 0));
    assert_eq!(back.to_bytes(), bytes);
}

#[test]
fn a_game_survives_the_round_trip() {
    let game = GameState::from_save_state(sample());
    let bytes = game.to_save_state().to_bytes();
    let restored = GameState::from_save_state(SerializedState::from_bytes(&bytes).unwrap());
    assert_same(&restored.to_save_state(), &sample());
    assert_eq!(restored.frame(), 1234);
    assert_eq!(restored.player_obj().get_position(), (5, 9));
    assert_eq!(restored.player_obj().get_direction(), Direction::LEFT);
    assert_eq!(*restored.inventory().item(ItemType::WoodPlank), 7);
    assert_eq!(restored.map_data().get_terrain_point((8, 0)), Ok(true));
    assert_eq!(restored.map_data().get_bridge_point((6, 17)), Ok(true));
}

#[test]
fn extreme_values_survive_the_round_trip() {
    let mut state = sample();
    state.map_data.map = [u32::MAX; 32];
    state.map_data.bridge = [0x0102_0304; 32];
    state.map_data.tree_positions = [(65535, 0, -128), (0, 65535, 127), (256, 255, -1), (1, 2, 0)];
    state.inventory.content = [255, 128];
    state.player = (255, 0, Direction::RIGHT);
    state.frame = u64::MAX;
    let back = SerializedState::from_bytes(&state.to_bytes()).unwrap();
    assert_same(&back, &state);
    state.frame = 0x0102_0304_0506_0708;
    state.player = (0, 200, Direction::DOWN);
    let back = SerializedState::from_bytes(&state.to_bytes()).unwrap();
    assert_same(&back, &state);
}

#[test]
fn the_layout_is_fixed() {
    let bytes = sample().to_bytes();
    assert_eq!(bytes.len(), 289);
    assert_eq!(&bytes[0..4], &[0x00, 0x07, 0x00, 0x00]);
    assert_eq!(&bytes[68..72], &[0xef, 0xbe, 0xad, 0xde]);
    assert_eq!(&bytes[124..128], &[0x01, 0x00, 0x00, 0x80]);
    assert_eq!(&bytes[128..132], &[0, 0, 0, 0]);
    assert_eq!(&bytes[196..200], &[0x40, 0, 0, 0]);
    assert_eq!(&bytes[256..261], &[3, 0, 4, 0, 1]);
    assert_eq!(&bytes[261..266], &[30, 0, 23, 0, 0]);
    assert_eq!(&bytes[266..271], &[7, 0, 7, 0, 1]);
    assert_eq!(&bytes[271..276], &[0x2c, 0x01, 0x03, 0x02, 0xff]);
    assert_eq!(&bytes[276..278], &[7, 0]);
    assert_eq!(&bytes[278..281], &[5, 9, 2]);
    assert_eq!(&bytes[281..289], &[0xd2, 0x04, 0, 0, 0, 0, 0, 0]);
}

#[test]
fn a_record_of_zeros_is_a_blank_game() {
    let state = SerializedState::from_bytes(&[0u8; 289]).unwrap();
    assert_eq!(state.map_data.map, [0u32; 32]);
    assert_eq!(state.map_data.bridge, [0u32; 32]);
    assert_eq!(state.map_data.tree_positions, [(0, 0, 0); 4]);
    assert_eq!(state.inventory.content, [0, 0]);
    assert_eq!(state.player, (0, 0, Direction::UP));
    assert_eq!(state.frame, 0);
}

#[test]
fn bytes_of_the_wrong_length_are_no_record() {
    assert!(SerializedState::from_bytes(&[]).is_none());
    assert!(SerializedState::from_bytes(&[0u8; 288]).is_none());
    assert!(SerializedState::from_bytes(&[0u8; 290]).is_none());
    let mut bytes = sample().to_bytes();
    bytes.push(0);
    assert!(SerializedState::from_bytes(&bytes).is_none());
    bytes.pop();
    bytes.pop();
    assert!(SerializedState::from_bytes(&bytes).is_none());
}

#[test]
fn a_direction_byte_that_is_no_direction_is_no_record() {
    let mut bytes = sample().to_bytes();
    for code in 4..=255u8 {
        bytes[280] = code;
        assert!(SerializedState::from_bytes(&bytes).is_none());
    }
    let directions = [Direction::UP, Direction::DOWN, Direction::LEFT, Direction::RIGHT];
    for code in 0..4u8 {
        bytes[280] = code;
        let state = SerializedState::from_bytes(&bytes).unwrap();
        assert_eq!(state.player.2, directions[code as usize]);
    }
}

#[test]
fn direction_codes_are_fixed() {
    assert_eq!(direction_to_code(Direction::UP), 0);
    assert_eq!(direction_to_code(Direction::DOWN), 1);
    assert_eq!(direction_to_code(Direction::LEFT), 2);
    assert_eq!(direction_to_code(Direction::RIGHT), 3);
    assert_eq!(direction_from_code(0), Some(Direction::UP));
    assert_eq!(direction_from_code(1), Some(Direction::DOWN));
    assert_eq!(direction_from_code(2), Some(Direction::LEFT));
    assert_eq!(direction_from_code(3), Some(Direction::RIGHT));
    assert_eq!(direction_from_code(4), None);
    assert_eq!(direction_from_code(255), None);
}

#[test]
fn a_position_outside_the_grid_is_held_at_the_edge_on_load() {
    let mut state = sample();
    state.player = (40, 9, Direction::DOWN);
    let game = GameState::from_save_state(state);
    assert_eq!(game.player_obj().get_position(), (31, 9));
    assert_eq!(game.player_obj().get_direction(), Direction::DOWN);
}
