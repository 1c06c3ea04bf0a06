use deposito::edit::ItemEdit;
use deposito::inventory::{Inventory, InventoryError};
use deposito::sql::{RTItemOption, RemoveTypes};

fn names(v: &[&str]) -> Vec<String> {
    v.iter().map(|s| s.to_string()).collect()
}

fn quantity(inv: &Inventory, w: &str, i: &str) -> Option<i64> {
    inv.list(w).iter().find(|it| it.name == i).map(|it| it.quantity)
}

fn critical(inv: &Inventory, w: &str, i: &str) -> Option<bool> {
    inv.report(w).iter().find(|l| l.item == i).map(|l| l.critical)
}

#[test]
fn create_twice_is_already_exists() {
    let mut inv = Inventory::new();
    assert_eq!(inv.create("Fridge"), Ok(()));
    assert_eq!(inv.create("Fridge"), Err(InventoryError::AlreadyExists));
    assert_eq!(inv.create("fridge"), Ok(()));
    assert_eq!(inv.warehouse_names(), names(&["Fridge", "fridge"]));
}

#[test]
fn add_twice_sums_quantities() {
    let mut inv = Inventory::new();
    inv.create("Fridge").unwrap();
    inv.add("Fridge", "Egg", 8).unwrap();
    inv.add("Fridge", "Egg", 2).unwrap();
    assert_eq!(quantity(&inv, "Fridge", "Egg"), Some(10));
    assert_eq!(inv.list("Fridge").len(), 1);
}

#[test]
fn add_negative_back_to_zero() {
    let mut inv = Inventory::new();
    inv.create("Fridge").unwrap();
    inv.add("Fridge", "Egg", 7).unwrap();
    inv.add("Fridge", "Egg", -7).unwrap();
    assert_eq!(quantity(&inv, "Fridge", "Egg"), Some(0));
}

#[test]
fn add_needs_warehouse_and_room() {
    let mut inv = Inventory::new();
    assert_eq!(inv.add("Nowhere", "Egg", 1), Err(InventoryError::NoSuchWarehouse));
    inv.create("Fridge").unwrap();
    inv.add("Fridge", "Egg", i64::MAX).unwrap();
    assert_eq!(inv.add("Fridge", "Egg", 1), Err(InventoryError::Overflow));
    assert_eq!(quantity(&inv, "Fridge", "Egg"), Some(i64::MAX));
}

#[test]
fn same_item_name_in_two_warehouses() {
    let mut inv = Inventory::new();
    inv.create("Fridge").unwrap();
    inv.create("Attic").unwrap();
    inv.add("Fridge", "Egg", 1).unwrap();
    inv.add("Attic", "Egg", 4).unwrap();
    assert_eq!(quantity(&inv, "Fridge", "Egg"), Some(1));
    assert_eq!(quantity(&inv, "Attic", "Egg"), Some(4));
}

#[test]
fn edit_quantity_keeps_name_and_description() {
    let mut inv = Inventory::new();
    inv.create("Fridge").unwrap();
    inv.add("Fridge", "Egg", 8).unwrap();
    let mut e = ItemEdit::default();
    e.description = Some("brown".to_string());
    inv.edit("Fridge", "Egg", &e).unwrap();
    let mut e = ItemEdit::default();
    e.quantity = Some(5);
    inv.edit("Fridge", "Egg", &e).unwrap();
    let items = inv.list("Fridge");
    assert_eq!(items.len(), 1);
    assert_eq!(items[0].name, "Egg");
    assert_eq!(items[0].description.as_deref(), Some("brown"));
    assert_eq!(items[0].quantity, 5);
}

#[test]
fn edit_missing_item_is_a_no_op() {
    let mut inv = Inventory::new();
    inv.create("Fridge").unwrap();
    inv.add("Fridge", "Egg", 8).unwrap();
    let mut e = ItemEdit::default();
    e.quantity = Some(5);
    assert_eq!(inv.edit("Fridge", "Milk", &e), Ok(()));
    assert_eq!(inv.edit("Attic", "Egg", &e), Ok(()));
    assert_eq!(quantity(&inv, "Fridge", "Egg"), Some(8));
    assert_eq!(inv.list("Fridge").len(), 1);
}

#[test]
fn edit_rename_onto_existing_item_is_refused() {
    let mut inv = Inventory::new();
    inv.create("Fridge").unwrap();
    inv.add("Fridge", "Egg", 8).unwrap();
    inv.add("Fridge", "Milk", 1).unwrap();
    let mut e = ItemEdit::default();
    e.name = Some("Milk".to_string());
    assert_eq!(inv.edit("Fridge", "Egg", &e), Err(InventoryError::AlreadyExists));
    e.name = Some("Eggs".to_string());
    assert_eq!(inv.edit("Fridge", "Egg", &e), Ok(()));
    assert_eq!(quantity(&inv, "Fridge", "Eggs"), Some(8));
    assert_eq!(quantity(&inv, "Fridge", "Egg"), None);
}

#[test]
fn report_threshold_boundary() {
    let mut inv = Inventory::new();
    inv.create("Fridge").unwrap();
    inv.add("Fridge", "Egg", 5).unwrap();
    inv.add("Fridge", "Milk", 4).unwrap();
    inv.add("Fridge", "Jam", 0).unwrap();
    inv.create_rule("Fridge", "Egg", 5).unwrap();
    inv.create_rule("Fridge", "Milk", 5).unwrap();
    assert_eq!(critical(&inv, "Fridge", "Egg"), Some(false));
    assert_eq!(critical(&inv, "Fridge", "Milk"), Some(true));
    assert_eq!(critical(&inv, "Fridge", "Jam"), None);
    assert_eq!(inv.report("Fridge").len(), 2);
}

#[test]
fn rule_creation_errors() {
    let mut inv = Inventory::new();
    inv.create("Fridge").unwrap();
    assert_eq!(inv.create_rule("Fridge", "Egg", 5), Err(InventoryError::NoSuchItem));
    inv.add("Fridge", "Egg", 1).unwrap();
    assert_eq!(inv.create_rule("Fridge", "Egg", 5), Ok(()));
    assert_eq!(inv.create_rule("Fridge", "Egg", 6), Err(InventoryError::AlreadyExists));
    assert_eq!(inv.report("Fridge")[0].threshold, 5);
}

#[test]
fn edit_rules_sets_named_thresholds() {
    let mut inv = Inventory::new();
    inv.create("Fridge").unwrap();
    for (i, q) in [("Egg", 3), ("Milk", 3), ("Jam", 3)] {
        inv.add("Fridge", i, q).unwrap();
    }
    inv.create_rule("Fridge", "Egg", 1).unwrap();
    inv.create_rule("Fridge", "Jam", 1).unwrap();
    inv.edit_rules("Fridge", &names(&["Egg", "Milk"]), 10);
    let report = inv.report("Fridge");
    assert_eq!(report.len(), 2);
    assert_eq!(report[0].item, "Egg");
    assert_eq!(report[0].threshold, 10);
    assert!(report[0].critical);
    assert_eq!(report[1].item, "Jam");
    assert_eq!(report[1].threshold, 1);
}

#[test]
fn remove_rules_keeps_items_and_other_rules() {
    let mut inv = Inventory::new();
    inv.create("Fridge").unwrap();
    inv.create("Attic").unwrap();
    for i in ["I1", "I2", "I3"] {
        inv.add("Fridge", i, 2).unwrap();
        inv.create_rule("Fridge", i, 5).unwrap();
    }
    inv.add("Attic", "I1", 2).unwrap();
    inv.create_rule("Attic", "I1", 5).unwrap();
    inv.remove_rules("Fridge", &names(&["I1", "I2"]));
    let report = inv.report("Fridge");
    assert_eq!(report.len(), 1);
    assert_eq!(report[0].item, "I3");
    assert_eq!(inv.list("Fridge").len(), 3);
    assert_eq!(quantity(&inv, "Fridge", "I1"), Some(2));
    assert_eq!(inv.report("Attic").len(), 1);
}

#[test]
fn removed_warehouse_comes_back_empty() {
    let mut inv = Inventory::new();
    inv.create("Fridge").unwrap();
    inv.create("Attic").unwrap();
    inv.add("Fridge", "Egg", 8).unwrap();
    inv.add("Attic", "Box", 1).unwrap();
    inv.remove(RemoveTypes::Warehouse, &names(&["Fridge"])).unwrap();
    assert_eq!(inv.warehouse_names(), names(&["Attic"]));
    assert!(inv.list("Fridge").is_empty());
    inv.create("Fridge").unwrap();
    assert!(inv.list("Fridge").is_empty());
    assert_eq!(inv.list("Attic").len(), 1);
}

#[test]
fn remove_named_and_all_items() {
    let mut inv = Inventory::new();
    inv.create("Fridge").unwrap();
    inv.create("Attic").unwrap();
    for i in ["Egg", "Milk", "Jam"] {
        inv.add("Fridge", i, 1).unwrap();
    }
    inv.add("Attic", "Egg", 1).unwrap();
    inv.create_rule("Fridge", "Egg", 3).unwrap();
    inv.remove(RemoveTypes::Item(RTItemOption::List), &names(&["Fridge", "Egg", "Jam"])).unwrap();
    let left: Vec<String> = inv.list("Fridge").into_iter().map(|it| it.name).collect();
    assert_eq!(left, names(&["Milk"]));
    assert!(inv.report("Fridge").is_empty());
    inv.add("Fridge", "Egg", 1).unwrap();
    assert!(inv.report("Fridge").is_empty());
    inv.remove(RemoveTypes::Item(RTItemOption::All), &names(&["Fridge"])).unwrap();
    assert!(inv.list("Fridge").is_empty());
    assert_eq!(inv.list("Attic").len(), 1);
    assert_eq!(inv.warehouse_names(), names(&["Fridge", "Attic"]));
}

#[test]
fn remove_items_needs_a_warehouse() {
    let mut inv = Inventory::new();
    assert_eq!(
        inv.remove(RemoveTypes::Item(RTItemOption::List), &[]),
        Err(InventoryError::MissingWarehouse)
    );
    assert_eq!(
        inv.remove(RemoveTypes::Item(RTItemOption::All), &[]),
        Err(InventoryError::MissingWarehouse)
    );
    assert_eq!(inv.remove(RemoveTypes::Warehouse, &[]), Ok(()));
}

#[test]
fn fridge_scenario() {
    let mut inv = Inventory::new();
    inv.create("Fridge").unwrap();
    inv.add("Fridge", "Egg", 8).unwrap();
    inv.add("Fridge", "Egg", 2).unwrap();
    let items = inv.list("Fridge");
    assert_eq!(items.len(), 1);
    assert_eq!(items[0].name, "Egg");
    assert_eq!(items[0].quantity, 10);
    inv.create_rule("Fridge", "Egg", 5).unwrap();
    assert_eq!(critical(&inv, "Fridge", "Egg"), Some(false));
    let mut e = ItemEdit::default();
    e.quantity = Some(3);
    inv.edit("Fridge", "Egg", &e).unwrap();
    assert_eq!(critical(&inv, "Fridge", "Egg"), Some(true));
}

#[test]
fn show_rules_lists_ruled_items_of_one_warehouse() {
    let mut inv = Inventory::new();
    inv.create("Fridge").unwrap();
    inv.create("Attic").unwrap();
    inv.add("Fridge", "Egg", 1).unwrap();
    inv.add("Fridge", "Milk", 1).unwrap();
    inv.add("Attic", "Box", 1).unwrap();
    assert!(inv.show_rules("Fridge").is_empty());
    inv.create_rule("Fridge", "Milk", 4).unwrap();
    inv.create_rule("Attic", "Box", 9).unwrap();
    assert_eq!(inv.show_rules("Fridge"), vec![("Milk".to_string(), 4)]);
    assert_eq!(inv.show_rules("Attic"), vec![("Box".to_string(), 9)]);
    assert!(inv.show_rules("Nowhere").is_empty());
}
