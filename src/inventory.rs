//! The store's contents as values: what each command does to warehouses,
//! items and rules, and the laws that follow.
//!
//! A rule belongs to exactly one item and an item has at most one rule, so an
//! item carries its rule's threshold, if it has one. Deleting an item deletes
//! its rule with it, and deleting a warehouse deletes its items.
use vstd::prelude::*;
use vstd::string::StringExecFns;
use vstd::pervasive::VecAdditionalExecFns;
use crate::edit::{ItemEdit, ItemEditV};
use crate::sql::{RTItemOption, RemoveTypes};
use crate::report::{critical, is_critical, ReportLine, ReportLineV};

verus! {

/// An item of a warehouse, with the threshold of its rule if it has one.
#[derive(Debug)]
pub struct Item {
    pub warehouse: String,
    pub name: String,
    pub quantity: i64,
    pub description: Option<String>,
    pub rule: Option<i64>,
}

/// The mathematical value of an [`Item`].
pub struct ItemV {
    pub warehouse: Seq<char>,
    pub name: Seq<char>,
    pub quantity: int,
    pub description: Option<Seq<char>>,
    pub rule: Option<int>,
}

/// The characters of an optional text.
pub open spec fn opt_view(o: Option<String>) -> Option<Seq<char>> {
    match o {
        Some(s) => Some(s@),
        None => None,
    }
}

impl View for Item {
    type V = ItemV;

    open spec fn view(&self) -> ItemV {
        ItemV {
            warehouse: self.warehouse@,
            name: self.name@,
            quantity: self.quantity as int,
            description: opt_view(self.description),
            rule: match self.rule {
                Some(t) => Some(t as int),
                None => None,
            },
        }
    }
}

fn copy_text(o: &Option<String>) -> (r: Option<String>)
    ensures
        opt_view(r) == opt_view(*o),
{
    match o {
        Some(s) => Some(s.clone()),
        None => None,
    }
}

impl Item {
    /// A copy of this item.
    pub fn copy(&self) -> (r: Item)
        ensures
            r@ == self@,
    {
        Item {
            warehouse: self.warehouse.clone(),
            name: self.name.clone(),
            quantity: self.quantity,
            description: copy_text(&self.description),
            rule: self.rule,
        }
    }
}

/// The contents of the store: warehouses and items, each in the order in
/// which they were created.
pub struct Inventory {
    warehouses: Vec<String>,
    items: Vec<Item>,
}

/// The mathematical value of an [`Inventory`].
pub struct InventoryV {
    pub warehouses: Seq<Seq<char>>,
    pub items: Seq<ItemV>,
}

/// The characters of each text, in order.
pub open spec fn texts(s: Seq<String>) -> Seq<Seq<char>> {
    s.map_values(|t: String| t@)
}

/// The values of items, in order.
pub open spec fn item_views(s: Seq<Item>) -> Seq<ItemV> {
    s.map_values(|it: Item| it@)
}

/// Whether no two items of `items` share both warehouse and name.
pub open spec fn keys_unique(items: Seq<ItemV>) -> bool {
    forall|a: int, b: int|
        0 <= a < items.len() && 0 <= b < items.len() && a != b ==> !(items[a].warehouse
            == items[b].warehouse && items[a].name == items[b].name)
}

/// Whether `k` is the position of the item `item` of `warehouse`.
pub open spec fn at(v: InventoryV, warehouse: Seq<char>, item: Seq<char>, k: int) -> bool {
    0 <= k < v.items.len() && v.items[k].warehouse == warehouse && v.items[k].name == item
}

/// Whether `warehouse` holds an item named `item`.
pub open spec fn has_item(v: InventoryV, warehouse: Seq<char>, item: Seq<char>) -> bool {
    exists|k: int| at(v, warehouse, item, k)
}

/// The item `item` of `warehouse`, if there is one.
pub open spec fn item_of(v: InventoryV, warehouse: Seq<char>, item: Seq<char>) -> Option<ItemV> {
    if has_item(v, warehouse, item) {
        Some(v.items[choose|k: int| at(v, warehouse, item, k)])
    } else {
        None
    }
}

/// The items of `warehouse`, in order.
pub open spec fn items_in(v: InventoryV, warehouse: Seq<char>) -> Seq<ItemV> {
    v.items.filter(in_warehouse(warehouse))
}

/// Whether an item belongs to `warehouse`.
pub open spec fn in_warehouse(warehouse: Seq<char>) -> spec_fn(ItemV) -> bool {
    |it: ItemV| it.warehouse == warehouse
}

impl InventoryV {
    /// Warehouse names are unique, item names are unique within their
    /// warehouse, and every item belongs to a warehouse that exists.
    pub open spec fn wf(self) -> bool {
        &&& self.warehouses.no_duplicates()
        &&& keys_unique(self.items)
        &&& forall|k: int| 0 <= k < self.items.len() ==> self.warehouses.contains(self.items[k].warehouse)
    }
}

impl View for Inventory {
    type V = InventoryV;

    closed spec fn view(&self) -> InventoryV {
        InventoryV { warehouses: texts(self.warehouses@), items: item_views(self.items@) }
    }
}

/// Why a command changed nothing.
#[derive(Debug, PartialEq, Eq)]
pub enum InventoryError {
    /// A warehouse, item or rule of that name exists already.
    AlreadyExists,
    /// The warehouse does not exist.
    NoSuchWarehouse,
    /// The item does not exist.
    NoSuchItem,
    /// The new quantity would not fit in 64 bits.
    Overflow,
    /// An item removal names no warehouse.
    MissingWarehouse,
}

/// The store after creating the warehouse `name`.
pub open spec fn created(v: InventoryV, name: Seq<char>) -> InventoryV {
    if v.warehouses.contains(name) {
        v
    } else {
        InventoryV { warehouses: v.warehouses.push(name), ..v }
    }
}

/// The result of creating the warehouse `name`.
pub open spec fn create_result(v: InventoryV, name: Seq<char>) -> Result<(), InventoryError> {
    if v.warehouses.contains(name) {
        Err(InventoryError::AlreadyExists)
    } else {
        Ok(())
    }
}

/// The position of `s` among `names`, if it is there.
fn position(names: &Vec<String>, s: &String) -> (r: Option<usize>)
    ensures
        r matches Some(k) ==> k < names@.len() && names@[k as int]@ == s@,
        r is None ==> !texts(names@).contains(s@),
{
    let mut k: usize = 0;
    while k < names.len()
        invariant
            k <= names@.len(),
            forall|j: int| 0 <= j < k ==> names@[j]@ != s@,
        decreases names@.len() - k,
    {
        if names[k] == *s {
            return Some(k);
        }
        k = k + 1;
    }
    proof {
        if texts(names@).contains(s@) {
            let j = choose|j: int| 0 <= j < texts(names@).len() && texts(names@)[j] == s@;
            assert(names@[j]@ == s@);
        }
    }
    None
}

/// Whether `s` is among `names`.
pub fn contains_name(names: &[String], s: &String) -> (r: bool)
    ensures
        r == texts(names@).contains(s@),
{
    let mut k: usize = 0;
    while k < names.len()
        invariant
            k <= names@.len(),
            forall|j: int| 0 <= j < k ==> names@[j]@ != s@,
        decreases names@.len() - k,
    {
        if names[k] == *s {
            proof {
                assert(texts(names@)[k as int] == s@);
            }
            return true;
        }
        k = k + 1;
    }
    proof {
        if texts(names@).contains(s@) {
            let j = choose|j: int| 0 <= j < texts(names@).len() && texts(names@)[j] == s@;
            assert(names@[j]@ == s@);
        }
    }
    false
}


/// Whether `x` fits in 64 bits.
pub open spec fn fits(x: int) -> bool {
    i64::MIN <= x <= i64::MAX
}

/// The result of adding `quantity` of `item` to `warehouse`.
pub open spec fn add_result(v: InventoryV, warehouse: Seq<char>, item: Seq<char>, quantity: int) -> Result<(), InventoryError> {
    if !v.warehouses.contains(warehouse) {
        Err(InventoryError::NoSuchWarehouse)
    } else if has_item(v, warehouse, item) && !fits(item_of(v, warehouse, item)->Some_0.quantity + quantity) {
        Err(InventoryError::Overflow)
    } else {
        Ok(())
    }
}

/// The store after adding `quantity` of `item` to `warehouse`: a new item
/// holds the quantity; an existing one has it added to its own.
pub open spec fn added(v: InventoryV, warehouse: Seq<char>, item: Seq<char>, quantity: int) -> InventoryV {
    if add_result(v, warehouse, item, quantity) is Err {
        v
    } else if has_item(v, warehouse, item) {
        let k = choose|k: int| at(v, warehouse, item, k);
        InventoryV {
            items: v.items.update(k, ItemV { quantity: v.items[k].quantity + quantity, ..v.items[k] }),
            ..v
        }
    } else {
        InventoryV {
            items: v.items.push(
                ItemV { warehouse, name: item, quantity, description: None, rule: None },
            ),
            ..v
        }
    }
}

/// The result of editing `item` of `warehouse`: a new name that another item
/// of the warehouse has is refused.
pub open spec fn edit_result(v: InventoryV, warehouse: Seq<char>, item: Seq<char>, e: ItemEditV) -> Result<(), InventoryError> {
    if has_item(v, warehouse, item) && (e.name matches Some(n) && n != item && has_item(v, warehouse, n)) {
        Err(InventoryError::AlreadyExists)
    } else {
        Ok(())
    }
}

/// An item with the fields that `e` gives replaced.
pub open spec fn apply_edit(it: ItemV, e: ItemEditV) -> ItemV {
    ItemV {
        name: match e.name {
            Some(n) => n,
            None => it.name,
        },
        description: match e.description {
            Some(d) => Some(d),
            None => it.description,
        },
        quantity: match e.quantity {
            Some(q) => q,
            None => it.quantity,
        },
        ..it
    }
}

/// The store after editing `item` of `warehouse`; unchanged when there is no
/// such item.
pub open spec fn edited(v: InventoryV, warehouse: Seq<char>, item: Seq<char>, e: ItemEditV) -> InventoryV {
    if has_item(v, warehouse, item) && edit_result(v, warehouse, item, e) is Ok {
        let k = choose|k: int| at(v, warehouse, item, k);
        InventoryV { items: v.items.update(k, apply_edit(v.items[k], e)), ..v }
    } else {
        v
    }
}

/// In a well-formed store an item's position is unique.
pub proof fn lemma_at_unique(v: InventoryV, warehouse: Seq<char>, item: Seq<char>, k: int)
    requires
        v.wf(),
        at(v, warehouse, item, k),
    ensures
        (choose|j: int| at(v, warehouse, item, j)) == k,
        item_of(v, warehouse, item) == Some(v.items[k]),
{
    let j = choose|j: int| at(v, warehouse, item, j);
    assert(at(v, warehouse, item, j));
}

/// The result of creating the rule of `item` in `warehouse`.
pub open spec fn rule_result(v: InventoryV, warehouse: Seq<char>, item: Seq<char>) -> Result<(), InventoryError> {
    if !has_item(v, warehouse, item) {
        Err(InventoryError::NoSuchItem)
    } else if item_of(v, warehouse, item)->Some_0.rule is Some {
        Err(InventoryError::AlreadyExists)
    } else {
        Ok(())
    }
}

/// The store after creating the rule `threshold` for `item` of `warehouse`.
pub open spec fn rule_created(v: InventoryV, warehouse: Seq<char>, item: Seq<char>, threshold: int) -> InventoryV {
    if rule_result(v, warehouse, item) is Ok {
        let k = choose|k: int| at(v, warehouse, item, k);
        InventoryV { items: v.items.update(k, ItemV { rule: Some(threshold), ..v.items[k] }), ..v }
    } else {
        v
    }
}

/// Whether `it` is one of the items `names` of `warehouse`.
pub open spec fn named(it: ItemV, warehouse: Seq<char>, names: Seq<Seq<char>>) -> bool {
    it.warehouse == warehouse && names.contains(it.name)
}

/// An item whose rule, if it has one and is named, gets `threshold`.
pub open spec fn with_threshold(it: ItemV, warehouse: Seq<char>, names: Seq<Seq<char>>, threshold: int) -> ItemV {
    if named(it, warehouse, names) && it.rule is Some {
        ItemV { rule: Some(threshold), ..it }
    } else {
        it
    }
}

/// An item that loses its rule if it is named.
pub open spec fn without_rule(it: ItemV, warehouse: Seq<char>, names: Seq<Seq<char>>) -> ItemV {
    if named(it, warehouse, names) {
        ItemV { rule: None, ..it }
    } else {
        it
    }
}

/// The store after setting the threshold of the rules of the items `names`
/// of `warehouse`.
pub open spec fn rules_edited(v: InventoryV, warehouse: Seq<char>, names: Seq<Seq<char>>, threshold: int) -> InventoryV {
    InventoryV {
        items: v.items.map_values(|it: ItemV| with_threshold(it, warehouse, names, threshold)),
        ..v
    }
}

/// The store after deleting the rules of the items `names` of `warehouse`.
pub open spec fn rules_removed(v: InventoryV, warehouse: Seq<char>, names: Seq<Seq<char>>) -> InventoryV {
    InventoryV { items: v.items.map_values(|it: ItemV| without_rule(it, warehouse, names)), ..v }
}

/// Whether an item of `warehouse` has a rule.
pub open spec fn ruled_in(warehouse: Seq<char>) -> spec_fn(ItemV) -> bool {
    |it: ItemV| it.warehouse == warehouse && it.rule is Some
}

/// The report line of an item that has a rule.
pub open spec fn line_for(it: ItemV) -> ReportLineV {
    ReportLineV {
        item: it.name,
        quantity: it.quantity,
        threshold: it.rule->Some_0,
        critical: critical(it.quantity, it.rule->Some_0),
    }
}

/// The report of `warehouse`: a line for each of its items that has a rule,
/// in order.
pub open spec fn report_of(v: InventoryV, warehouse: Seq<char>) -> Seq<ReportLineV> {
    v.items.filter(ruled_in(warehouse)).map_values(|it: ItemV| line_for(it))
}

impl Inventory {
    /// An empty store.
    pub fn new() -> (r: Inventory)
        ensures
            r@.wf(),
            r@.warehouses.len() == 0,
            r@.items.len() == 0,
    {
        let r = Inventory { warehouses: Vec::new(), items: Vec::new() };
        proof {
            assert(r@.warehouses =~= Seq::<Seq<char>>::empty());
            assert(r@.items =~= Seq::<ItemV>::empty());
        }
        r
    }

    /// Creates the warehouse `name`, unless it exists.
    pub fn create(&mut self, name: &str) -> (r: Result<(), InventoryError>)
        requires
            old(self)@.wf(),
        ensures
            final(self)@.wf(),
            final(self)@ == created(old(self)@, name@),
            final(self)@.warehouses.contains(name@),
            r == create_result(old(self)@, name@),
    {
        let name = String::from_str(name);
        match position(&self.warehouses, &name) {
            Some(k) => {
                proof {
                    assert(texts(self.warehouses@)[k as int] == name@);
                }
                Err(InventoryError::AlreadyExists)
            },
            None => {
                let ghost pre = self@;
                self.warehouses.push(name);
                proof {
                    assert(self@.warehouses =~= pre.warehouses.push(name@));
                    assert(self@.items == pre.items);
                    assert forall|k: int| 0 <= k < self@.items.len() implies self@.warehouses.contains(
                        self@.items[k].warehouse,
                    ) by {
                        let j = choose|j: int| 0 <= j < pre.warehouses.len() && pre.warehouses[j] == pre.items[k].warehouse;
                        assert(self@.warehouses[j] == pre.items[k].warehouse);
                    }
                    assert(self@ == created(pre, name@));
                    assert(self@.warehouses[pre.warehouses.len() as int] == name@);
                }
                Ok(())
            },
        }
    }

    /// The name of every warehouse, in order of creation.
    pub fn warehouse_names(&self) -> (r: Vec<String>)
        ensures
            texts(r@) == self@.warehouses,
    {
        let mut out: Vec<String> = Vec::new();
        let mut k: usize = 0;
        while k < self.warehouses.len()
            invariant
                k <= self.warehouses@.len(),
                texts(out@) == texts(self.warehouses@.subrange(0, k as int)),
            decreases self.warehouses@.len() - k,
        {
            let ghost pre = out@;
            out.push(self.warehouses[k].clone());
            proof {
                assert(texts(out@) =~= texts(pre).push(self.warehouses@[k as int]@));
                assert(texts(self.warehouses@.subrange(0, k + 1)) =~= texts(
                    self.warehouses@.subrange(0, k as int),
                ).push(self.warehouses@[k as int]@));
                assert(texts(out@) =~= texts(self.warehouses@.subrange(0, k + 1)));
            }
            k = k + 1;
        }
        proof {
            assert(self.warehouses@.subrange(0, k as int) =~= self.warehouses@);
        }
        out
    }

    /// The items of `warehouse`, in order of creation; none when it does not
    /// exist.
    pub fn list(&self, warehouse: &str) -> (r: Vec<Item>)
        ensures
            item_views(r@) == items_in(self@, warehouse@),
    {
        let warehouse = String::from_str(warehouse);
        let mut out: Vec<Item> = Vec::new();
        let mut k: usize = 0;
        while k < self.items.len()
            invariant
                k <= self.items@.len(),
                item_views(out@) == item_views(self.items@.subrange(0, k as int)).filter(
                    in_warehouse(warehouse@),
                ),
            decreases self.items@.len() - k,
        {
            let ghost pre = out@;
            let ghost s = item_views(self.items@.subrange(0, k as int));
            let ghost s1 = item_views(self.items@.subrange(0, k + 1));
            proof {
                assert(s1 =~= s.push(self.items@[k as int]@));
                assert(s1.drop_last() =~= s);
                s.lemma_filter_push(self.items@[k as int]@, in_warehouse(warehouse@));
            }
            if self.items[k].warehouse == warehouse {
                out.push(self.items[k].copy());
                proof {
                    assert(item_views(out@) =~= item_views(pre).push(self.items@[k as int]@));
                }
            }
            k = k + 1;
        }
        proof {
            assert(self.items@.subrange(0, k as int) =~= self.items@);
        }
        out
    }
    /// The position of `item` of `warehouse`, if there is one.
    fn find_item(&self, warehouse: &String, item: &String) -> (r: Option<usize>)
        ensures
            r matches Some(k) ==> at(self@, warehouse@, item@, k as int),
            r is None ==> !has_item(self@, warehouse@, item@),
    {
        let mut k: usize = 0;
        while k < self.items.len()
            invariant
                k <= self.items@.len(),
                forall|j: int| 0 <= j < k ==> !at(self@, warehouse@, item@, j),
            decreases self.items@.len() - k,
        {
            if self.items[k].warehouse == *warehouse && self.items[k].name == *item {
                return Some(k);
            }
            k = k + 1;
        }
        None
    }

    /// Adds `quantity` of `item` to `warehouse`: inserts the item when the
    /// warehouse has none of that name, else adds to its quantity.
    pub fn add(&mut self, warehouse: &str, item: &str, quantity: i64) -> (r: Result<(), InventoryError>)
        requires
            old(self)@.wf(),
        ensures
            final(self)@.wf(),
            final(self)@ == added(old(self)@, warehouse@, item@, quantity as int),
            r is Ok ==> has_item(final(self)@, warehouse@, item@),
            r == add_result(old(self)@, warehouse@, item@, quantity as int),
    {
        let w = String::from_str(warehouse);
        let i = String::from_str(item);
        match position(&self.warehouses, &w) {
            Some(p) => {
                proof {
                    assert(texts(self.warehouses@)[p as int] == w@);
                }
            },
            None => {
                return Err(InventoryError::NoSuchWarehouse);
            },
        }
        let ghost pre = self@;
        match self.find_item(&w, &i) {
            Some(k) => {
                proof {
                    lemma_at_unique(pre, w@, i@, k as int);
                }
                let current = self.items[k].quantity;
                if (quantity > 0 && current > i64::MAX - quantity) || (quantity < 0 && current
                    < i64::MIN - quantity) {
                    return Err(InventoryError::Overflow);
                }
                let mut updated = self.items[k].copy();
                updated.quantity = current + quantity;
                self.items.set(k, updated);
                proof {
                    assert(self@.items =~= pre.items.update(
                        k as int,
                        ItemV { quantity: pre.items[k as int].quantity + quantity, ..pre.items[k as int] },
                    ));
                    assert(self@.warehouses == pre.warehouses);
                    assert(self@ == added(pre, w@, i@, quantity as int));
                    assert(at(self@, w@, i@, k as int));
                }
                Ok(())
            },
            None => {
                self.items.push(
                    Item { warehouse: w, name: i, quantity, description: None, rule: None },
                );
                proof {
                    assert(self@.items =~= pre.items.push(
                        ItemV { warehouse: warehouse@, name: item@, quantity: quantity as int, description: None, rule: None },
                    ));
                    assert(self@.warehouses == pre.warehouses);
                    assert(self@ == added(pre, w@, i@, quantity as int));
                    assert(at(self@, w@, i@, pre.items.len() as int));
                    assert forall|a: int, b: int|
                        0 <= a < self@.items.len() && 0 <= b < self@.items.len() && a != b
                        implies !(self@.items[a].warehouse == self@.items[b].warehouse
                        && self@.items[a].name == self@.items[b].name) by {
                        if a == pre.items.len() {
                            assert(!at(pre, w@, i@, b));
                        } else if b == pre.items.len() {
                            assert(!at(pre, w@, i@, a));
                        }
                    }
                }
                Ok(())
            },
        }
    }

    /// Replaces the fields of `item` of `warehouse` that `edit` gives. Nothing
    /// changes, and nothing fails, when there is no such item.
    pub fn edit(&mut self, warehouse: &str, item: &str, edit: &ItemEdit) -> (r: Result<(), InventoryError>)
        requires
            old(self)@.wf(),
        ensures
            final(self)@.wf(),
            final(self)@ == edited(old(self)@, warehouse@, item@, edit@),
            r == edit_result(old(self)@, warehouse@, item@, edit@),
    {
        let w = String::from_str(warehouse);
        let i = String::from_str(item);
        let ghost pre = self@;
        let k = match self.find_item(&w, &i) {
            Some(k) => k,
            None => {
                return Ok(());
            },
        };
        proof {
            lemma_at_unique(pre, w@, i@, k as int);
        }
        if let Some(n) = &edit.name {
            if *n != i && self.find_item(&w, n).is_some() {
                return Err(InventoryError::AlreadyExists);
            }
        }
        let mut updated = self.items[k].copy();
        if let Some(n) = &edit.name {
            updated.name = n.clone();
        }
        if let Some(d) = &edit.description {
            updated.description = Some(d.clone());
        }
        if let Some(q) = edit.quantity {
            updated.quantity = q;
        }
        self.items.set(k, updated);
        proof {
            assert(self@.items =~= pre.items.update(k as int, apply_edit(pre.items[k as int], edit@)));
            assert(self@.warehouses == pre.warehouses);
            assert(self@ == edited(pre, w@, i@, edit@));
            assert forall|a: int, b: int|
                0 <= a < self@.items.len() && 0 <= b < self@.items.len() && a != b
                implies !(self@.items[a].warehouse == self@.items[b].warehouse
                && self@.items[a].name == self@.items[b].name) by {
                if a == k {
                    match edit@.name {
                        Some(n) => {
                            if n != i@ {
                                assert(!at(pre, w@, n, b));
                            }
                        },
                        None => {},
                    }
                } else if b == k {
                    match edit@.name {
                        Some(n) => {
                            if n != i@ {
                                assert(!at(pre, w@, n, a));
                            }
                        },
                        None => {},
                    }
                }
            }
        }
        Ok(())
    }
}

/// Adding twice to a new item leaves it with the sum of both quantities.
pub proof fn lemma_add_twice(v: InventoryV, warehouse: Seq<char>, item: Seq<char>, q1: int, q2: int)
    requires
        v.wf(),
        v.warehouses.contains(warehouse),
        !has_item(v, warehouse, item),
        fits(q1),
        fits(q2),
        fits(q1 + q2),
    ensures
        add_result(v, warehouse, item, q1) is Ok,
        add_result(added(v, warehouse, item, q1), warehouse, item, q2) is Ok,
        item_of(added(added(v, warehouse, item, q1), warehouse, item, q2), warehouse, item) matches Some(
            it,
        ) && it.quantity == q1 + q2,
{
    let v1 = added(v, warehouse, item, q1);
    let n = v.items.len() as int;
    assert(at(v1, warehouse, item, n));
    assert forall|j: int| at(v1, warehouse, item, j) implies j == n by {
        if j != n {
            assert(at(v, warehouse, item, j));
        }
    }
    let k = choose|k: int| at(v1, warehouse, item, k);
    assert(k == n);
    assert(item_of(v1, warehouse, item) == Some(v1.items[n]));
    let v2 = added(v1, warehouse, item, q2);
    assert(at(v2, warehouse, item, n));
    assert forall|j: int| at(v2, warehouse, item, j) implies j == n by {
        if j != n {
            assert(at(v1, warehouse, item, j));
        }
    }
    let k2 = choose|k: int| at(v2, warehouse, item, k);
    assert(k2 == n);
}

/// Editing only the quantity of an item keeps its name and description.
pub proof fn lemma_edit_quantity(v: InventoryV, warehouse: Seq<char>, item: Seq<char>, quantity: int)
    requires
        v.wf(),
        has_item(v, warehouse, item),
    ensures
        ({
            let e = ItemEditV { name: None, description: None, quantity: Some(quantity) };
            let old_item = item_of(v, warehouse, item)->Some_0;
            &&& edit_result(v, warehouse, item, e) is Ok
            &&& item_of(edited(v, warehouse, item, e), warehouse, item) == Some(
                ItemV { quantity, ..old_item },
            )
        }),
{
    let e = ItemEditV { name: None, description: None, quantity: Some(quantity) };
    let k = choose|k: int| at(v, warehouse, item, k);
    lemma_at_unique(v, warehouse, item, k);
    let v1 = edited(v, warehouse, item, e);
    assert(at(v1, warehouse, item, k));
    assert forall|j: int| at(v1, warehouse, item, j) implies j == k by {
        if j != k {
            assert(at(v, warehouse, item, j));
        }
    }
    let k1 = choose|j: int| at(v1, warehouse, item, j);
    assert(k1 == k);
}

/// Editing an item that does not exist changes nothing and does not fail.
pub proof fn lemma_edit_missing(v: InventoryV, warehouse: Seq<char>, item: Seq<char>, e: ItemEditV)
    requires
        !has_item(v, warehouse, item),
    ensures
        edit_result(v, warehouse, item, e) is Ok,
        edited(v, warehouse, item, e) == v,
{
}

/// Creating a warehouse that was just created is refused as existing.
pub proof fn lemma_create_twice(v: InventoryV, name: Seq<char>)
    ensures
        create_result(created(v, name), name) == Err::<(), InventoryError>(
            InventoryError::AlreadyExists,
        ),
        created(created(v, name), name) == created(v, name),
{
    if !v.warehouses.contains(name) {
        assert(created(v, name).warehouses[v.warehouses.len() as int] == name);
    }
}

impl Inventory {
    /// Creates the rule `threshold` for `item` of `warehouse`, unless the item
    /// does not exist or has a rule.
    pub fn create_rule(&mut self, warehouse: &str, item: &str, threshold: i64) -> (r: Result<(), InventoryError>)
        requires
            old(self)@.wf(),
        ensures
            final(self)@.wf(),
            final(self)@ == rule_created(old(self)@, warehouse@, item@, threshold as int),
            r == rule_result(old(self)@, warehouse@, item@),
    {
        let w = String::from_str(warehouse);
        let i = String::from_str(item);
        let ghost pre = self@;
        let k = match self.find_item(&w, &i) {
            Some(k) => k,
            None => {
                return Err(InventoryError::NoSuchItem);
            },
        };
        proof {
            lemma_at_unique(pre, w@, i@, k as int);
        }
        if self.items[k].rule.is_some() {
            return Err(InventoryError::AlreadyExists);
        }
        let mut updated = self.items[k].copy();
        updated.rule = Some(threshold);
        self.items.set(k, updated);
        proof {
            assert(self@.items =~= pre.items.update(
                k as int,
                ItemV { rule: Some(threshold as int), ..pre.items[k as int] },
            ));
            assert(self@.warehouses == pre.warehouses);
        }
        Ok(())
    }

    /// Sets the threshold of the rules of the items `names` of `warehouse`;
    /// named items without a rule stay without one.
    pub fn edit_rules(&mut self, warehouse: &str, names: &[String], threshold: i64)
        requires
            old(self)@.wf(),
        ensures
            final(self)@.wf(),
            final(self)@ == rules_edited(old(self)@, warehouse@, texts(names@), threshold as int),
    {
        let w = String::from_str(warehouse);
        let ghost pre = self@;
        let ghost ns = texts(names@);
        let mut k: usize = 0;
        while k < self.items.len()
            invariant
                k <= self@.items.len(),
                self@.items.len() == pre.items.len(),
                self@.warehouses == pre.warehouses,
                w@ == warehouse@,
                ns == texts(names@),
                forall|j: int| 0 <= j < k ==> self@.items[j] == with_threshold(pre.items[j], w@, ns, threshold as int),
                forall|j: int| k <= j < self@.items.len() ==> self@.items[j] == pre.items[j],
            decreases self@.items.len() - k,
        {
            let ghost start = self@;
            if self.items[k].warehouse == w && self.items[k].rule.is_some() && contains_name(names, &self.items[k].name) {
                let mut updated = self.items[k].copy();
                updated.rule = Some(threshold);
                let ghost mid = self.items@;
                self.items.set(k, updated);
                proof {
                    assert forall|j: int| 0 <= j < self@.items.len() && j != k implies self@.items[j]
                        == start.items[j] by {
                        assert(self.items@[j] == mid[j]);
                    }
                }
            }
            proof {
                assert(self@.items[k as int] == with_threshold(pre.items[k as int], w@, ns, threshold as int));
                assert forall|j: int| 0 <= j < k + 1 implies self@.items[j] == with_threshold(pre.items[j], w@, ns, threshold as int) by {
                    if j < k {
                        assert(self@.items[j] == start.items[j]);
                    }
                }
            }
            k = k + 1;
        }
        proof {
            assert(self@.items =~= rules_edited(pre, w@, ns, threshold as int).items);
            assert forall|a: int, b: int|
                0 <= a < self@.items.len() && 0 <= b < self@.items.len() && a != b
                implies !(self@.items[a].warehouse == self@.items[b].warehouse
                && self@.items[a].name == self@.items[b].name) by {
                assert(self@.items[a].name == pre.items[a].name);
                assert(self@.items[b].name == pre.items[b].name);
            }
            assert forall|j: int| 0 <= j < self@.items.len() implies self@.warehouses.contains(
                self@.items[j].warehouse,
            ) by {
                assert(self@.items[j].warehouse == pre.items[j].warehouse);
            }
        }
    }

    /// Deletes the rules of the items `names` of `warehouse`; the items stay.
    pub fn remove_rules(&mut self, warehouse: &str, names: &[String])
        requires
            old(self)@.wf(),
        ensures
            final(self)@.wf(),
            final(self)@ == rules_removed(old(self)@, warehouse@, texts(names@)),
    {
        let w = String::from_str(warehouse);
        let ghost pre = self@;
        let ghost ns = texts(names@);
        let mut k: usize = 0;
        while k < self.items.len()
            invariant
                k <= self@.items.len(),
                self@.items.len() == pre.items.len(),
                self@.warehouses == pre.warehouses,
                w@ == warehouse@,
                ns == texts(names@),
                forall|j: int| 0 <= j < k ==> self@.items[j] == without_rule(pre.items[j], w@, ns),
                forall|j: int| k <= j < self@.items.len() ==> self@.items[j] == pre.items[j],
            decreases self@.items.len() - k,
        {
            let ghost start = self@;
            if self.items[k].warehouse == w && contains_name(names, &self.items[k].name) {
                let mut updated = self.items[k].copy();
                updated.rule = None;
                let ghost mid = self.items@;
                self.items.set(k, updated);
                proof {
                    assert forall|j: int| 0 <= j < self@.items.len() && j != k implies self@.items[j]
                        == start.items[j] by {
                        assert(self.items@[j] == mid[j]);
                    }
                }
            }
            proof {
                assert(self@.items[k as int] == without_rule(pre.items[k as int], w@, ns));
                assert forall|j: int| 0 <= j < k + 1 implies self@.items[j] == without_rule(pre.items[j], w@, ns) by {
                    if j < k {
                        assert(self@.items[j] == start.items[j]);
                    }
                }
            }
            k = k + 1;
        }
        proof {
            assert(self@.items =~= rules_removed(pre, w@, ns).items);
            assert forall|a: int, b: int|
                0 <= a < self@.items.len() && 0 <= b < self@.items.len() && a != b
                implies !(self@.items[a].warehouse == self@.items[b].warehouse
                && self@.items[a].name == self@.items[b].name) by {
                assert(self@.items[a].name == pre.items[a].name);
                assert(self@.items[b].name == pre.items[b].name);
            }
            assert forall|j: int| 0 <= j < self@.items.len() implies self@.warehouses.contains(
                self@.items[j].warehouse,
            ) by {
                assert(self@.items[j].warehouse == pre.items[j].warehouse);
            }
        }
    }

    /// The report of `warehouse`: each of its items that has a rule, in
    /// order, flagged critical when its quantity is below the threshold.
    pub fn report(&self, warehouse: &str) -> (r: Vec<ReportLine>)
        ensures
            r@.map_values(|l: ReportLine| l@) == report_of(self@, warehouse@),
    {
        let w = String::from_str(warehouse);
        let mut out: Vec<ReportLine> = Vec::new();
        let mut k: usize = 0;
        while k < self.items.len()
            invariant
                k <= self@.items.len(),
                w@ == warehouse@,
                out@.map_values(|l: ReportLine| l@) == self@.items.subrange(0, k as int).filter(
                    ruled_in(w@),
                ).map_values(|it: ItemV| line_for(it)),
            decreases self@.items.len() - k,
        {
            let ghost s = self@.items.subrange(0, k as int);
            let ghost x = self@.items[k as int];
            proof {
                assert(self@.items.subrange(0, k + 1) =~= s.push(x));
                s.lemma_filter_push(x, ruled_in(w@));
            }
            let ghost pre = out@;
            if self.items[k].warehouse == w {
                match self.items[k].rule {
                    Some(t) => {
                        let q = self.items[k].quantity;
                        out.push(
                            ReportLine {
                                item: self.items[k].name.clone(),
                                quantity: q,
                                threshold: t,
                                critical: is_critical(q, t),
                            },
                        );
                        proof {
                            assert(out@.map_values(|l: ReportLine| l@) =~= pre.map_values(
                                |l: ReportLine| l@,
                            ).push(line_for(x)));
                            assert(s.filter(ruled_in(w@)).push(x).map_values(|it: ItemV| line_for(it))
                                =~= s.filter(ruled_in(w@)).map_values(|it: ItemV| line_for(it)).push(
                                line_for(x),
                            ));
                        }
                    },
                    None => {},
                }
            }
            k = k + 1;
        }
        proof {
            assert(self@.items.subrange(0, k as int) =~= self@.items);
        }
        out
    }
}

impl Inventory {
    /// The rules of `warehouse`: the name and threshold of each of its items
    /// that has a rule, in order.
    pub fn show_rules(&self, warehouse: &str) -> (r: Vec<(String, i64)>)
        ensures
            r@.map_values(|p: (String, i64)| (p.0@, p.1 as int)) == self@.items.filter(
                ruled_in(warehouse@),
            ).map_values(|it: ItemV| (it.name, it.rule->Some_0)),
    {
        let w = String::from_str(warehouse);
        let mut out: Vec<(String, i64)> = Vec::new();
        let mut k: usize = 0;
        while k < self.items.len()
            invariant
                k <= self@.items.len(),
                w@ == warehouse@,
                out@.map_values(|p: (String, i64)| (p.0@, p.1 as int)) == self@.items.subrange(
                    0,
                    k as int,
                ).filter(ruled_in(w@)).map_values(|it: ItemV| (it.name, it.rule->Some_0)),
            decreases self@.items.len() - k,
        {
            let ghost s = self@.items.subrange(0, k as int);
            let ghost x = self@.items[k as int];
            proof {
                assert(self@.items.subrange(0, k + 1) =~= s.push(x));
                s.lemma_filter_push(x, ruled_in(w@));
            }
            let ghost pre = out@;
            if self.items[k].warehouse == w {
                match self.items[k].rule {
                    Some(t) => {
                        out.push((self.items[k].name.clone(), t));
                        proof {
                            assert(out@.map_values(|p: (String, i64)| (p.0@, p.1 as int)) =~= pre.map_values(
                                |p: (String, i64)| (p.0@, p.1 as int),
                            ).push((x.name, x.rule->Some_0)));
                            assert(s.filter(ruled_in(w@)).push(x).map_values(
                                |it: ItemV| (it.name, it.rule->Some_0),
                            ) =~= s.filter(ruled_in(w@)).map_values(
                                |it: ItemV| (it.name, it.rule->Some_0),
                            ).push((x.name, x.rule->Some_0)));
                        }
                    },
                    None => {},
                }
            }
            k = k + 1;
        }
        proof {
            assert(self@.items.subrange(0, k as int) =~= self@.items);
        }
        out
    }
}

/// A report flags an item of a warehouse that has a rule, and it is critical
/// exactly when its quantity is below the rule's threshold: never at the
/// threshold, always one below it.
pub proof fn lemma_report_flags(v: InventoryV, warehouse: Seq<char>, item: Seq<char>)
    requires
        item_of(v, warehouse, item) matches Some(it) && it.rule is Some,
    ensures
        ({
            let it = item_of(v, warehouse, item)->Some_0;
            let t = it.rule->Some_0;
            report_of(v, warehouse).contains(
                ReportLineV { item, quantity: it.quantity, threshold: t, critical: it.quantity < t },
            )
        }),
        forall|t: int| !#[trigger] critical(t, t) && critical(t - 1, t),
{
    let it = item_of(v, warehouse, item)->Some_0;
    let k = choose|k: int| at(v, warehouse, item, k);
    assert(v.items[k] == it);
    assert(v.items.contains(it));
    assert(ruled_in(warehouse)(it));
    let f = v.items.filter(ruled_in(warehouse));
    assert(f.contains(it));
    let j = choose|j: int| 0 <= j < f.len() && f[j] == it;
    assert(report_of(v, warehouse)[j] == line_for(it));
}

/// Deleting the rules of some items of a warehouse keeps every item, and
/// every other rule, as it was.
pub proof fn lemma_remove_rules_scope(v: InventoryV, warehouse: Seq<char>, names: Seq<Seq<char>>)
    ensures
        ({
            let v2 = rules_removed(v, warehouse, names);
            &&& v2.warehouses == v.warehouses
            &&& v2.items.len() == v.items.len()
            &&& forall|k: int| 0 <= k < v.items.len() ==> {
                &&& v2.items[k].warehouse == v.items[k].warehouse
                &&& v2.items[k].name == v.items[k].name
                &&& v2.items[k].quantity == v.items[k].quantity
                &&& v2.items[k].description == v.items[k].description
                &&& (named(v.items[k], warehouse, names) ==> v2.items[k].rule is None)
                &&& (!named(v.items[k], warehouse, names) ==> v2.items[k].rule == v.items[k].rule)
            }
        }),
{
}

/// Whether a removal of `kind` with the arguments `args` deletes `it`.
pub open spec fn doomed(kind: RemoveTypes, args: Seq<Seq<char>>, it: ItemV) -> bool {
    match kind {
        RemoveTypes::Warehouse => args.contains(it.warehouse),
        RemoveTypes::Item(RTItemOption::List) => it.warehouse == args[0] && args.drop_first().contains(
            it.name,
        ),
        RemoveTypes::Item(RTItemOption::All) => it.warehouse == args[0],
    }
}

/// Whether an item outlives a removal of `kind` with the arguments `args`.
pub open spec fn survives(kind: RemoveTypes, args: Seq<Seq<char>>) -> spec_fn(ItemV) -> bool {
    |it: ItemV| !doomed(kind, args, it)
}

/// Whether a warehouse is not among `names`.
pub open spec fn not_among(names: Seq<Seq<char>>) -> spec_fn(Seq<char>) -> bool {
    |w: Seq<char>| !names.contains(w)
}

/// The result of a removal of `kind` with the arguments `args`: an item
/// removal needs the warehouse as its first argument.
pub open spec fn remove_result(kind: RemoveTypes, args: Seq<Seq<char>>) -> Result<(), InventoryError> {
    if kind is Item && args.len() == 0 {
        Err(InventoryError::MissingWarehouse)
    } else {
        Ok(())
    }
}

/// The store after a removal of `kind` with the arguments `args`. Removing
/// warehouses removes their items; removing items removes their rules.
pub open spec fn removed(v: InventoryV, kind: RemoveTypes, args: Seq<Seq<char>>) -> InventoryV {
    if remove_result(kind, args) is Err {
        v
    } else {
        InventoryV {
            warehouses: if kind is Warehouse {
                v.warehouses.filter(not_among(args))
            } else {
                v.warehouses
            },
            items: v.items.filter(survives(kind, args)),
        }
    }
}

/// A part of a store with unique item keys has unique item keys.
pub proof fn lemma_filter_keys_unique(s: Seq<ItemV>, p: spec_fn(ItemV) -> bool)
    requires
        keys_unique(s),
    ensures
        keys_unique(s.filter(p)),
    decreases s.len(),
{
    reveal(Seq::filter);
    if s.len() > 0 {
        let t = s.drop_last();
        assert(keys_unique(t)) by {
            assert forall|a: int, b: int|
                0 <= a < t.len() && 0 <= b < t.len() && a != b implies !(t[a].warehouse
                == t[b].warehouse && t[a].name == t[b].name) by {
                assert(t[a] == s[a] && t[b] == s[b]);
            }
        }
        lemma_filter_keys_unique(t, p);
        if p(s.last()) {
            let f = t.filter(p);
            let x = s.last();
            assert(s.filter(p) == f.push(x));
            assert forall|a: int| 0 <= a < f.len() implies !(f[a].warehouse == x.warehouse
                && f[a].name == x.name) by {
                assert(f.contains(f[a]));
                t.lemma_filter_contains_rev(p, f[a]);
                let j = choose|j: int| 0 <= j < t.len() && t[j] == f[a];
                assert(s[j] == f[a]);
                assert(s[s.len() - 1] == x);
            }
        }
    }
}

/// A part of a sequence without duplicates has none.
pub proof fn lemma_filter_no_duplicates(s: Seq<Seq<char>>, p: spec_fn(Seq<char>) -> bool)
    requires
        s.no_duplicates(),
    ensures
        s.filter(p).no_duplicates(),
    decreases s.len(),
{
    reveal(Seq::filter);
    if s.len() > 0 {
        let t = s.drop_last();
        assert(t.no_duplicates()) by {
            assert forall|a: int, b: int| 0 <= a < t.len() && 0 <= b < t.len() && a != b implies t[a]
                != t[b] by {
                assert(t[a] == s[a] && t[b] == s[b]);
            }
        }
        lemma_filter_no_duplicates(t, p);
        if p(s.last()) {
            let f = t.filter(p);
            let x = s.last();
            assert(s.filter(p) == f.push(x));
            assert forall|a: int| 0 <= a < f.len() implies f[a] != x by {
                assert(f.contains(f[a]));
                t.lemma_filter_contains_rev(p, f[a]);
                let j = choose|j: int| 0 <= j < t.len() && t[j] == f[a];
                assert(s[j] == f[a]);
                assert(s[s.len() - 1] == x);
            }
        }
    }
}

/// Whether a removal of `kind` with the arguments `args` deletes `it`.
fn is_doomed(kind: RemoveTypes, args: &[String], it: &Item) -> (r: bool)
    requires
        kind is Item ==> args@.len() > 0,
    ensures
        r == doomed(kind, texts(args@), it@),
{
    match kind {
        RemoveTypes::Warehouse => contains_name(args, &it.warehouse),
        RemoveTypes::Item(RTItemOption::List) => {
            proof {
                assert(texts(args@.subrange(1, args@.len() as int)) =~= texts(args@).drop_first());
            }
            it.warehouse == args[0] && contains_name(&args[1..args.len()], &it.name)
        },
        RemoveTypes::Item(RTItemOption::All) => it.warehouse == args[0],
    }
}

impl Inventory {
    /// Removes what `kind` and `args` name: whole warehouses with their items
    /// and rules, the named items of the warehouse `args[0]`, or all of its
    /// items; an item's rule goes with it.
    pub fn remove(&mut self, kind: RemoveTypes, args: &[String]) -> (r: Result<(), InventoryError>)
        requires
            old(self)@.wf(),
        ensures
            final(self)@.wf(),
            final(self)@ == removed(old(self)@, kind, texts(args@)),
            r == remove_result(kind, texts(args@)),
    {
        if let RemoveTypes::Item(_) = kind {
            if args.len() == 0 {
                return Err(InventoryError::MissingWarehouse);
            }
        }
        let ghost pre = self@;
        let ghost a = texts(args@);
        let mut kept: Vec<Item> = Vec::new();
        let mut k: usize = 0;
        while k < self.items.len()
            invariant
                k <= self.items@.len(),
                self@ == pre,
                a == texts(args@),
                kind is Item ==> args@.len() > 0,
                item_views(kept@) == item_views(self.items@.subrange(0, k as int)).filter(
                    survives(kind, a),
                ),
            decreases self.items@.len() - k,
        {
            let ghost s = item_views(self.items@.subrange(0, k as int));
            proof {
                assert(item_views(self.items@.subrange(0, k + 1)) =~= s.push(self.items@[k as int]@));
                s.lemma_filter_push(self.items@[k as int]@, survives(kind, a));
            }
            if !is_doomed(kind, args, &self.items[k]) {
                let ghost before = kept@;
                kept.push(self.items[k].copy());
                proof {
                    assert(item_views(kept@) =~= item_views(before).push(self.items@[k as int]@));
                }
            }
            k = k + 1;
        }
        proof {
            assert(self.items@.subrange(0, k as int) =~= self.items@);
        }
        let mut names: Vec<String> = Vec::new();
        let mut m: usize = 0;
        while m < self.warehouses.len()
            invariant
                m <= self.warehouses@.len(),
                self@ == pre,
                a == texts(args@),
                texts(names@) == (if kind is Warehouse {
                    texts(self.warehouses@.subrange(0, m as int)).filter(not_among(a))
                } else {
                    texts(self.warehouses@.subrange(0, m as int))
                }),
            decreases self.warehouses@.len() - m,
        {
            let ghost s = texts(self.warehouses@.subrange(0, m as int));
            proof {
                assert(texts(self.warehouses@.subrange(0, m + 1)) =~= s.push(
                    self.warehouses@[m as int]@,
                ));
                s.lemma_filter_push(self.warehouses@[m as int]@, not_among(a));
            }
            let keep = match kind {
                RemoveTypes::Warehouse => !contains_name(args, &self.warehouses[m]),
                _ => true,
            };
            if keep {
                let ghost before = names@;
                names.push(self.warehouses[m].clone());
                proof {
                    assert(texts(names@) =~= texts(before).push(self.warehouses@[m as int]@));
                }
            }
            m = m + 1;
        }
        proof {
            assert(self.warehouses@.subrange(0, m as int) =~= self.warehouses@);
        }
        self.items = kept;
        self.warehouses = names;
        proof {
            let v = self@;
            assert(v == removed(pre, kind, a));
            lemma_filter_keys_unique(pre.items, survives(kind, a));
            if kind is Warehouse {
                lemma_filter_no_duplicates(pre.warehouses, not_among(a));
            }
            assert forall|j: int| 0 <= j < v.items.len() implies v.warehouses.contains(
                v.items[j].warehouse,
            ) by {
                let it = v.items[j];
                assert(v.items.contains(it));
                pre.items.lemma_filter_contains_rev(survives(kind, a), it);
                broadcast use vstd::seq_lib::group_filter_ensures;

                assert(survives(kind, a)(it));
                let i = choose|i: int| 0 <= i < pre.items.len() && pre.items[i] == it;
                assert(pre.warehouses.contains(it.warehouse));
                if kind is Warehouse {
                    let w = choose|w: int| 0 <= w < pre.warehouses.len() && pre.warehouses[w] == it.warehouse;
                    pre.warehouses.lemma_filter_contains(not_among(a), w);
                }
            }
        }
        Ok(())
    }
}

/// A warehouse that is removed and created again holds no items: none of
/// the removed warehouse's items come back.
pub proof fn lemma_recreate_empty(v: InventoryV, warehouse: Seq<char>)
    requires
        v.wf(),
    ensures
        items_in(
            created(removed(v, RemoveTypes::Warehouse, seq![warehouse]), warehouse),
            warehouse,
        ).len() == 0,
{
    let a = seq![warehouse];
    let v1 = removed(v, RemoveTypes::Warehouse, a);
    let v2 = created(v1, warehouse);
    assert(v2.items == v1.items);
    broadcast use vstd::seq_lib::group_filter_ensures;

    let f = v2.items.filter(in_warehouse(warehouse));
    if f.len() > 0 {
        let it = f[0];
        assert(in_warehouse(warehouse)(it));
        assert(f.contains(it));
        v2.items.lemma_filter_contains_rev(in_warehouse(warehouse), it);
        let j = choose|j: int| 0 <= j < v2.items.len() && v2.items[j] == it;
        assert(survives(RemoveTypes::Warehouse, a)(v1.items[j]));
        assert(a[0] == warehouse);
        assert(a.contains(warehouse));
    }
}

} // verus!
