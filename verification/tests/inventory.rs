use riverworld::state::inventory::Inventory;
use riverworld::state::inventory::ItemType;

#[test]
fn the_default_inventory_is_empty() {
    let inventory = Inventory::default();
    assert_eq!(inventory.get(ItemType::WoodPlank), 0);
    assert_eq!(inventory.get(ItemType::Fish), 0);
    assert_eq!(*inventory.item(ItemType::WoodPlank), 0);
    assert_eq!(ItemType::variant_count(), 2);
}

#[test]
fn adding_saturates_at_255() {
    let mut inventory = Inventory::default();
    inventory.add(ItemType::WoodPlank, 250);
    assert_eq!(inventory.get(ItemType::WoodPlank), 250);
    inventory.add(ItemType::WoodPlank, 50);
    assert_eq!(inventory.get(ItemType::WoodPlank), 255);
    inventory.add(ItemType::WoodPlank, 255);
    assert_eq!(inventory.get(ItemType::WoodPlank), 255);
    assert_eq!(inventory.get(ItemType::Fish), 0);
}

#[test]
fn subtracting_saturates_at_0() {
    let mut inventory = Inventory::default();
    inventory.sub(ItemType::WoodPlank, 10);
    assert_eq!(inventory.get(ItemType::WoodPlank), 0);
    inventory.add(ItemType::Fish, 7);
    inventory.sub(ItemType::Fish, 3);
    assert_eq!(inventory.get(ItemType::Fish), 4);
    inventory.sub(ItemType::Fish, 5);
    assert_eq!(inventory.get(ItemType::Fish), 0);
    assert_eq!(inventory.get(ItemType::WoodPlank), 0);
}

#[test]
fn exact_sums_below_the_limit() {
    let mut inventory = Inventory::default();
    inventory.add(ItemType::WoodPlank, 200);
    inventory.add(ItemType::WoodPlank, 55);
    assert_eq!(inventory.get(ItemType::WoodPlank), 255);
    inventory.sub(ItemType::WoodPlank, 255);
    assert_eq!(inventory.get(ItemType::WoodPlank), 0);
    inventory.add(ItemType::WoodPlank, 0);
    assert_eq!(inventory.get(ItemType::WoodPlank), 0);
}

#[test]
fn item_mut_writes_one_slot() {
    let mut inventory = Inventory::default();
    *inventory.item_mut(ItemType::Fish) = 9;
    assert_eq!(*inventory.item(ItemType::Fish), 9);
    assert_eq!(*inventory.item(ItemType::WoodPlank), 0);
    assert_eq!(inventory.content, [0, 9]);
}
