use deposito::edit::ItemEdit;
use deposito::sql::{
    create_rule, create_warehouse, edit_item, edit_rules, increment_item, insert_item, list_items,
    list_warehouses, push_decimal, push_placeholders, remove, remove_rules, report_all,
    report_warehouse, show_rules, Param, RTItemOption, RemoveTypes, CLOSE_ONE, CLOSE_TWO,
    DELETE_ALL_ITEMS, DELETE_ITEMS, DELETE_ITEMS_OF_WAREHOUSES, DELETE_RULES_OF_ITEMS,
    DELETE_RULES_OF_WAREHOUSES, DELETE_WAREHOUSES, INCREMENT_ITEM, INSERT_ITEM, INSERT_RULE,
    INSERT_WAREHOUSE, SELECT_ITEMS, SELECT_REPORT, SELECT_REPORT_ALL, SELECT_RULES,
    SELECT_WAREHOUSES, UPDATE_ITEM, UPDATE_RULES,
};

fn names(v: &[&str]) -> Vec<String> {
    v.iter().map(|s| s.to_string()).collect()
}

fn text(s: &str) -> Param {
    Param::Text(s.to_string())
}

#[test]
fn decimal_of_numbers() {
    let mut s = String::from("n=");
    push_decimal(&mut s, 0);
    assert_eq!(s, "n=0");
    let mut s = String::new();
    push_decimal(&mut s, 1234);
    assert_eq!(s, "1234");
    let mut s = String::new();
    push_decimal(&mut s, u64::MAX as u128);
    assert_eq!(s, "18446744073709551615");
    let mut s = String::new();
    push_decimal(&mut s, u128::MAX);
    assert_eq!(s, "340282366920938463463374607431768211455");
}

#[test]
fn placeholders_are_numbered_in_order() {
    let mut s = String::from("(");
    push_placeholders(&mut s, 9, 3);
    assert_eq!(s, "($9,$10,$11");
    let mut s = String::new();
    push_placeholders(&mut s, 1, 0);
    assert_eq!(s, "");
    let mut s = String::new();
    push_placeholders(&mut s, 2, 1);
    assert_eq!(s, "$2");
}

#[test]
fn remove_warehouses_deletes_rules_items_then_warehouses() {
    let st = remove(RemoveTypes::Warehouse, &names(&["Fridge", "Attic"])).unwrap();
    let expected = format!(
        "{}$1,$2{}{}$1,$2{}{}$1,$2{}",
        DELETE_RULES_OF_WAREHOUSES, CLOSE_TWO, DELETE_ITEMS_OF_WAREHOUSES, CLOSE_TWO, DELETE_WAREHOUSES, CLOSE_ONE
    );
    assert_eq!(st.text, expected);
    assert!(st.text.find("DELETE FROM rules").unwrap() < st.text.find("DELETE FROM items").unwrap());
    assert!(st.text.find("DELETE FROM items").unwrap() < st.text.find("DELETE FROM warehouses").unwrap());
    assert_eq!(st.params, vec![text("Fridge"), text("Attic")]);
}

#[test]
fn remove_named_items_binds_warehouse_first() {
    let st = remove(RemoveTypes::Item(RTItemOption::List), &names(&["Fridge", "Egg", "Milk"])).unwrap();
    let expected = format!("{}$2,$3{}{}$2,$3{}", DELETE_RULES_OF_ITEMS, CLOSE_TWO, DELETE_ITEMS, CLOSE_ONE);
    assert_eq!(st.text, expected);
    assert_eq!(st.params, vec![text("Fridge"), text("Egg"), text("Milk")]);
}

#[test]
fn remove_all_items_binds_only_the_warehouse() {
    let st = remove(RemoveTypes::Item(RTItemOption::All), &names(&["Fridge", "stray"])).unwrap();
    assert_eq!(st.text, DELETE_ALL_ITEMS);
    assert_eq!(st.params, vec![text("Fridge")]);
}

#[test]
fn remove_items_without_warehouse_is_refused() {
    assert!(remove(RemoveTypes::Item(RTItemOption::List), &[]).is_none());
    assert!(remove(RemoveTypes::Item(RTItemOption::All), &[]).is_none());
    assert!(remove(RemoveTypes::Warehouse, &[]).is_some());
}

#[test]
fn simple_statements() {
    let st = create_warehouse("Fridge");
    assert_eq!(st.text, INSERT_WAREHOUSE);
    assert_eq!(st.params, vec![text("Fridge")]);
    let st = list_warehouses();
    assert_eq!(st.text, SELECT_WAREHOUSES);
    assert!(st.params.is_empty());
    let st = list_items("Fridge");
    assert_eq!(st.text, SELECT_ITEMS);
    assert_eq!(st.params, vec![text("Fridge")]);
    let st = report_warehouse("Fridge");
    assert_eq!(st.text, SELECT_REPORT);
    assert_eq!(st.params, vec![text("Fridge")]);
    let st = report_all();
    assert_eq!(st.text, SELECT_REPORT_ALL);
    assert!(st.text.contains("ORDER BY warehouses.name ASC"));
    let st = show_rules("Fridge");
    assert_eq!(st.text, SELECT_RULES);
    assert_eq!(st.params, vec![text("Fridge")]);
}

#[test]
fn item_statements() {
    let st = insert_item("Fridge", "Egg", 8);
    assert_eq!(st.text, INSERT_ITEM);
    assert_eq!(st.params, vec![text("Fridge"), text("Egg"), Param::Int(8)]);
    let st = increment_item("Fridge", "Egg", -2);
    assert_eq!(st.text, INCREMENT_ITEM);
    assert_eq!(st.params, vec![Param::Int(-2), text("Fridge"), text("Egg")]);
}

#[test]
fn edit_binds_null_for_missing_fields() {
    let mut e = ItemEdit::default();
    e.quantity = Some(5);
    let st = edit_item("Fridge", "Egg", &e);
    assert_eq!(st.text, UPDATE_ITEM);
    assert_eq!(st.params, vec![Param::Null, Param::Null, Param::Int(5), text("Fridge"), text("Egg")]);
    e.name = Some("Eggs".to_string());
    e.description = Some("brown".to_string());
    let st = edit_item("Fridge", "Egg", &e);
    assert_eq!(st.params, vec![text("Eggs"), text("brown"), Param::Int(5), text("Fridge"), text("Egg")]);
}

#[test]
fn rule_statements() {
    let st = create_rule("Fridge", "Egg", 5);
    assert_eq!(st.text, INSERT_RULE);
    assert_eq!(st.params, vec![text("Fridge"), text("Egg"), Param::Int(5)]);
    let st = edit_rules("Fridge", &names(&["Egg", "Milk"]), 7);
    assert_eq!(st.text, format!("{}$3,$4{}", UPDATE_RULES, CLOSE_TWO));
    assert_eq!(st.params, vec![text("Fridge"), Param::Int(7), text("Egg"), text("Milk")]);
    let st = remove_rules("Fridge", &names(&["Egg", "Milk"]));
    assert_eq!(st.text, format!("{}$2,$3{}", DELETE_RULES_OF_ITEMS, CLOSE_TWO));
    assert_eq!(st.params, vec![text("Fridge"), text("Egg"), text("Milk")]);
}
