//! SQL statements sent to the SQLite store, with their bound parameters.
//!
//! Every statement numbers its placeholders `$1`, `$2`, ... and carries the
//! values to bind in the same order, so that placeholder `$k` is bound to the
//! `k`-th parameter.
use vstd::prelude::*;
use vstd::string::StringExecFns;
use crate::edit::ItemEdit;

verus! {

/// The character of a decimal digit.
pub open spec fn digit_char(d: nat) -> char {
    if d == 0 { '0' } else if d == 1 { '1' } else if d == 2 { '2' } else if d == 3 { '3' }
    else if d == 4 { '4' } else if d == 5 { '5' } else if d == 6 { '6' } else if d == 7 { '7' }
    else if d == 8 { '8' } else { '9' }
}

/// The decimal notation of `n`, without leading zeros.
pub open spec fn decimal(n: nat) -> Seq<char>
    decreases n,
{
    if n < 10 {
        seq![digit_char(n)]
    } else {
        decimal(n / 10).push(digit_char(n % 10))
    }
}

/// The placeholder `$k`.
pub open spec fn placeholder(k: nat) -> Seq<char> {
    seq!['$'] + decimal(k)
}

/// The comma-separated placeholders `$first, ..., $(first + n - 1)`.
pub open spec fn placeholder_list(first: nat, n: nat) -> Seq<char>
    decreases n,
{
    if n == 0 {
        Seq::empty()
    } else if n == 1 {
        placeholder(first)
    } else {
        placeholder_list(first, (n - 1) as nat) + seq![','] + placeholder(
            (first + n - 1) as nat,
        )
    }
}

fn digit_str(d: u128) -> (r: &'static str)
    requires
        d < 10,
    ensures
        r@ == seq![digit_char(d as nat)],
{
    proof {
        reveal_strlit("0");
        reveal_strlit("1");
        reveal_strlit("2");
        reveal_strlit("3");
        reveal_strlit("4");
        reveal_strlit("5");
        reveal_strlit("6");
        reveal_strlit("7");
        reveal_strlit("8");
        reveal_strlit("9");
    }
    if d == 0 { "0" } else if d == 1 { "1" } else if d == 2 { "2" } else if d == 3 { "3" }
    else if d == 4 { "4" } else if d == 5 { "5" } else if d == 6 { "6" } else if d == 7 { "7" }
    else if d == 8 { "8" } else { "9" }
}

/// Appends the decimal notation of `n` to `s`.
pub fn push_decimal(s: &mut String, n: u128)
    ensures
        final(s)@ == old(s)@ + decimal(n as nat),
    decreases n,
{
    if n >= 10 {
        push_decimal(s, n / 10);
    }
    s.append(digit_str(n % 10));
    proof {
        assert(old(s)@ + decimal(n as nat) =~= old(s)@ + (if n >= 10 { decimal((n / 10) as nat) } else { Seq::empty() }) + seq![digit_char((n % 10) as nat)]);
    }
}

/// Appends the placeholders `$first, ..., $(first + n - 1)` to `s`.
pub fn push_placeholders(s: &mut String, first: usize, n: usize)
    ensures
        final(s)@ == old(s)@ + placeholder_list(first as nat, n as nat),
{
    let ghost start = s@;
    let mut i: usize = 0;
    while i < n
        invariant
            i <= n,
            s@ == start + placeholder_list(first as nat, i as nat),
        decreases n - i,
    {
        if i > 0 {
            s.append(",");
        }
        s.append("$");
        push_decimal(s, first as u128 + i as u128);
        proof {
            reveal_strlit(",");
            reveal_strlit("$");
            reveal_with_fuel(placeholder_list, 2);
            if i > 0 {
                assert(s@ =~= start + placeholder_list(first as nat, (i + 1) as nat));
            } else {
                assert(s@ =~= start + placeholder_list(first as nat, (i + 1) as nat));
            }
        }
        i = i + 1;
    }
}


/// The number of placeholder marks `$` in `s`.
pub open spec fn marks(s: Seq<char>) -> nat
    decreases s.len(),
{
    if s.len() == 0 {
        0
    } else {
        marks(s.drop_last()) + if s.last() == '$' { 1nat } else { 0nat }
    }
}

proof fn lemma_marks_concat(a: Seq<char>, b: Seq<char>)
    ensures
        marks(a + b) == marks(a) + marks(b),
    decreases b.len(),
{
    if b.len() > 0 {
        assert((a + b).drop_last() =~= a + b.drop_last());
        lemma_marks_concat(a, b.drop_last());
    } else {
        assert(a + b =~= a);
    }
}

proof fn lemma_marks_single(c: char)
    ensures
        marks(seq![c]) == if c == '$' { 1nat } else { 0nat },
{
    assert(seq![c].drop_last() =~= Seq::<char>::empty());
    assert(marks(Seq::<char>::empty()) == 0);
}

proof fn lemma_decimal_unmarked(n: nat)
    ensures
        marks(decimal(n)) == 0,
    decreases n,
{
    assert(digit_char(n % 10) != '$');
    if n < 10 {
        lemma_marks_single(digit_char(n));
    } else {
        lemma_decimal_unmarked(n / 10);
        assert(decimal(n).drop_last() =~= decimal(n / 10));
        assert(decimal(n).last() == digit_char(n % 10));
    }
}

proof fn lemma_placeholder_marks(k: nat)
    ensures
        marks(placeholder(k)) == 1,
{
    lemma_marks_concat(seq!['$'], decimal(k));
    lemma_decimal_unmarked(k);
    lemma_marks_single('$');
}

/// A list of `n` placeholders holds exactly `n` marks, one for each value
/// bound to it.
pub proof fn lemma_placeholder_list_marks(first: nat, n: nat)
    ensures
        marks(placeholder_list(first, n)) == n,
    decreases n,
{
    if n == 1 {
        lemma_placeholder_marks(first);
    } else if n > 1 {
        lemma_placeholder_list_marks(first, (n - 1) as nat);
        lemma_marks_concat(placeholder_list(first, (n - 1) as nat), seq![',']);
        lemma_marks_concat(
            placeholder_list(first, (n - 1) as nat) + seq![','],
            placeholder((first + n - 1) as nat),
        );
        lemma_placeholder_marks((first + n - 1) as nat);
        lemma_marks_single(',');
    }
}

/// A value bound to a placeholder.
#[derive(Debug, PartialEq, Eq)]
pub enum Param {
    Text(String),
    Int(i64),
    Null,
}

/// The mathematical value of a [`Param`].
pub enum ParamV {
    Text(Seq<char>),
    Int(int),
    Null,
}

impl View for Param {
    type V = ParamV;

    open spec fn view(&self) -> ParamV {
        match self {
            Param::Text(s) => ParamV::Text(s@),
            Param::Int(i) => ParamV::Int(*i as int),
            Param::Null => ParamV::Null,
        }
    }
}

/// One SQL text, possibly of several statements, and the values bound to its
/// placeholders in order.
#[derive(Debug)]
pub struct Statement {
    pub text: String,
    pub params: Vec<Param>,
}

/// The mathematical value of a [`Statement`].
pub struct StatementV {
    pub text: Seq<char>,
    pub params: Seq<ParamV>,
}

impl View for Statement {
    type V = StatementV;

    open spec fn view(&self) -> StatementV {
        StatementV { text: self.text@, params: self.params@.map_values(|p: Param| p@) }
    }
}

/// The text parameters that bind each name in order.
pub open spec fn text_params(names: Seq<String>) -> Seq<ParamV> {
    names.map_values(|s: String| ParamV::Text(s@))
}

/// The parameter that binds an optional text: the text, or NULL.
pub open spec fn opt_text_param(o: Option<String>) -> ParamV {
    match o {
        Some(s) => ParamV::Text(s@),
        None => ParamV::Null,
    }
}

/// The parameter that binds an optional integer: the integer, or NULL.
pub open spec fn opt_int_param(o: Option<i64>) -> ParamV {
    match o {
        Some(i) => ParamV::Int(i as int),
        None => ParamV::Null,
    }
}

fn text(s: &str) -> (r: Param)
    ensures
        r@ == ParamV::Text(s@),
{
    Param::Text(String::from_str(s))
}

fn opt_text(o: &Option<String>) -> (r: Param)
    ensures
        r@ == opt_text_param(*o),
{
    match o {
        Some(s) => Param::Text(s.clone()),
        None => Param::Null,
    }
}

fn opt_int(o: Option<i64>) -> (r: Param)
    ensures
        r@ == opt_int_param(o),
{
    match o {
        Some(i) => Param::Int(i),
        None => Param::Null,
    }
}

/// Appends one text parameter for each name, in order.
fn push_text_params(params: &mut Vec<Param>, names: &[String])
    ensures
        final(params)@.map_values(|p: Param| p@) == old(params)@.map_values(|p: Param| p@)
            + text_params(names@),
{
    let mut i: usize = 0;
    while i < names.len()
        invariant
            i <= names@.len(),
            params@.map_values(|p: Param| p@) == old(params)@.map_values(|p: Param| p@)
                + text_params(names@.subrange(0, i as int)),
        decreases names@.len() - i,
    {
        let ghost pre = params@;
        params.push(Param::Text(names[i].clone()));
        proof {
            assert(names@.subrange(0, i + 1) =~= names@.subrange(0, i as int).push(names@[i as int]));
            assert(params@.map_values(|p: Param| p@) =~= pre.map_values(|p: Param| p@).push(
                ParamV::Text(names@[i as int]@),
            ));
            assert(params@.map_values(|p: Param| p@) =~= old(params)@.map_values(|p: Param| p@)
                + text_params(names@.subrange(0, i + 1)));
        }
        i = i + 1;
    }
    proof {
        assert(names@.subrange(0, names@.len() as int) =~= names@);
    }
}


/// What a removal deletes.
#[derive(Clone, Copy, Debug)]
pub enum RemoveTypes {
    /// Whole warehouses, named by every argument, with their items and rules.
    Warehouse,
    /// Items of one warehouse: the first argument names the warehouse.
    Item(RTItemOption),
}

/// Which items of a warehouse a removal deletes.
#[derive(Clone, Copy, Debug)]
pub enum RTItemOption {
    /// The items named by the arguments after the warehouse.
    List,
    /// Every item of the warehouse.
    All,
}

pub const CLOSE_ONE: &'static str = ");";

pub const CLOSE_TWO: &'static str = "));";

pub const DELETE_RULES_OF_WAREHOUSES: &'static str = "DELETE FROM rules WHERE rules.item_id IN (SELECT items.id FROM items JOIN warehouses ON items.warehouse_id = warehouses.id WHERE warehouses.name IN (";

pub const DELETE_ITEMS_OF_WAREHOUSES: &'static str = "DELETE FROM items WHERE items.warehouse_id IN (SELECT warehouses.id FROM warehouses WHERE warehouses.name IN (";

pub const DELETE_WAREHOUSES: &'static str = "DELETE FROM warehouses WHERE warehouses.name IN (";

pub const DELETE_RULES_OF_ITEMS: &'static str = "DELETE FROM rules WHERE rules.item_id IN (SELECT items.id FROM items JOIN warehouses ON items.warehouse_id = warehouses.id WHERE warehouses.name = $1 AND items.name IN (";

pub const DELETE_ITEMS: &'static str = "DELETE FROM items WHERE items.warehouse_id IN (SELECT warehouses.id FROM warehouses WHERE warehouses.name = $1) AND items.name IN (";

pub const DELETE_ALL_ITEMS: &'static str = "DELETE FROM rules WHERE rules.item_id IN (SELECT items.id FROM items JOIN warehouses ON items.warehouse_id = warehouses.id WHERE warehouses.name = $1);DELETE FROM items WHERE items.warehouse_id IN (SELECT warehouses.id FROM warehouses WHERE warehouses.name = $1);";

/// The text of a removal with `n` arguments. Rules go before the items they
/// refer to, and items before their warehouses, so that every row is still
/// reachable through its warehouse's name when it is deleted.
pub open spec fn remove_text(kind: RemoveTypes, n: nat) -> Seq<char> {
    match kind {
        RemoveTypes::Warehouse => DELETE_RULES_OF_WAREHOUSES@ + placeholder_list(1, n) + CLOSE_TWO@
            + DELETE_ITEMS_OF_WAREHOUSES@ + placeholder_list(1, n) + CLOSE_TWO@
            + DELETE_WAREHOUSES@ + placeholder_list(1, n) + CLOSE_ONE@,
        RemoveTypes::Item(RTItemOption::List) => DELETE_RULES_OF_ITEMS@ + placeholder_list(
            2,
            (n - 1) as nat,
        ) + CLOSE_TWO@ + DELETE_ITEMS@ + placeholder_list(2, (n - 1) as nat) + CLOSE_ONE@,
        RemoveTypes::Item(RTItemOption::All) => DELETE_ALL_ITEMS@,
    }
}

/// The arguments that a removal binds: all of them, but only the warehouse
/// when every item of it goes.
pub open spec fn remove_args(kind: RemoveTypes, args: Seq<String>) -> Seq<String> {
    match kind {
        RemoveTypes::Item(RTItemOption::All) => args.take(1),
        _ => args,
    }
}

/// The removal of `args` as one batch of statements. An item removal needs
/// the warehouse as its first argument: without arguments there is none.
pub fn remove(kind: RemoveTypes, args: &[String]) -> (r: Option<Statement>)
    ensures
        r is None <==> (kind is Item && args@.len() == 0),
        r matches Some(st) ==> st@ == (StatementV {
            text: remove_text(kind, args@.len()),
            params: text_params(remove_args(kind, args@)),
        }),
{
    let n = args.len();
    let mut text = String::new();
    let mut params: Vec<Param> = Vec::new();
    match kind {
        RemoveTypes::Warehouse => {
            text.append(DELETE_RULES_OF_WAREHOUSES);
            push_placeholders(&mut text, 1, n);
            text.append(CLOSE_TWO);
            text.append(DELETE_ITEMS_OF_WAREHOUSES);
            push_placeholders(&mut text, 1, n);
            text.append(CLOSE_TWO);
            text.append(DELETE_WAREHOUSES);
            push_placeholders(&mut text, 1, n);
            text.append(CLOSE_ONE);
            push_text_params(&mut params, args);
        },
        RemoveTypes::Item(RTItemOption::List) => {
            if n == 0 {
                return None;
            }
            text.append(DELETE_RULES_OF_ITEMS);
            push_placeholders(&mut text, 2, n - 1);
            text.append(CLOSE_TWO);
            text.append(DELETE_ITEMS);
            push_placeholders(&mut text, 2, n - 1);
            text.append(CLOSE_ONE);
            push_text_params(&mut params, args);
        },
        RemoveTypes::Item(RTItemOption::All) => {
            if n == 0 {
                return None;
            }
            text.append(DELETE_ALL_ITEMS);
            push_text_params(&mut params, &args[0..1]);
        },
    }
    proof {
        assert(text@ =~= remove_text(kind, args@.len()));
        assert(params@.map_values(|p: Param| p@) =~= text_params(remove_args(kind, args@)));
    }
    Some(Statement { text, params })
}


pub const INSERT_WAREHOUSE: &'static str = "INSERT INTO warehouses (id, name) VALUES (NULL, $1);";

pub const SELECT_WAREHOUSES: &'static str = "SELECT warehouses.name FROM warehouses;";

pub const SELECT_ITEMS: &'static str = "SELECT items.name, items.quantity, items.description FROM items JOIN warehouses ON items.warehouse_id = warehouses.id WHERE warehouses.name = $1;";

pub const INSERT_ITEM: &'static str = "INSERT INTO items (id, warehouse_id, name, quantity) VALUES (NULL, (SELECT warehouses.id FROM warehouses WHERE warehouses.name = $1), $2, $3);";

pub const INCREMENT_ITEM: &'static str = "UPDATE items SET quantity = (quantity + $1) WHERE items.warehouse_id = (SELECT warehouses.id FROM warehouses WHERE warehouses.name = $2) AND items.name = $3;";

pub const UPDATE_ITEM: &'static str = "UPDATE items SET name = COALESCE($1, name), description = COALESCE($2, description), quantity = COALESCE($3, quantity) WHERE items.warehouse_id = (SELECT warehouses.id FROM warehouses WHERE warehouses.name = $4) AND items.name = $5;";

pub const SELECT_REPORT: &'static str = "SELECT warehouses.name, i.name, i.quantity, r.gets_below_quantity FROM items i JOIN warehouses ON i.warehouse_id = warehouses.id JOIN rules r ON i.id = r.item_id WHERE warehouses.name = $1;";

pub const SELECT_REPORT_ALL: &'static str = "SELECT warehouses.name, i.name, i.quantity, r.gets_below_quantity FROM items i JOIN warehouses ON i.warehouse_id = warehouses.id JOIN rules r ON i.id = r.item_id ORDER BY warehouses.name ASC;";

pub const SELECT_RULES: &'static str = "SELECT i.name, r.gets_below_quantity FROM rules r JOIN items i ON i.id = r.item_id JOIN warehouses w ON w.id = i.warehouse_id WHERE w.name = $1;";

pub const INSERT_RULE: &'static str = "INSERT INTO rules (id, item_id, gets_below_quantity) VALUES (NULL, (SELECT items.id FROM items JOIN warehouses ON warehouses.id = items.warehouse_id WHERE items.name = $2 AND warehouses.name = $1), $3);";

pub const UPDATE_RULES: &'static str = "UPDATE rules SET gets_below_quantity = $2 WHERE rules.item_id IN (SELECT items.id FROM items JOIN warehouses ON items.warehouse_id = warehouses.id WHERE warehouses.name = $1 AND items.name IN (";

/// Creates the warehouse `name`.
pub fn create_warehouse(name: &str) -> (r: Statement)
    ensures
        r@ == (StatementV { text: INSERT_WAREHOUSE@, params: seq![ParamV::Text(name@)] }),
{
    let params = vec![text(name)];
    proof {
        assert(params@.map_values(|p: Param| p@) =~= seq![ParamV::Text(name@)]);
    }
    Statement { text: String::from_str(INSERT_WAREHOUSE), params }
}

/// Selects the name of every warehouse.
pub fn list_warehouses() -> (r: Statement)
    ensures
        r@ == (StatementV { text: SELECT_WAREHOUSES@, params: Seq::empty() }),
{
    let params: Vec<Param> = Vec::new();
    proof {
        assert(params@.map_values(|p: Param| p@) =~= Seq::<ParamV>::empty());
    }
    Statement { text: String::from_str(SELECT_WAREHOUSES), params }
}

/// Selects name, quantity and description of every item of `warehouse`.
pub fn list_items(warehouse: &str) -> (r: Statement)
    ensures
        r@ == (StatementV { text: SELECT_ITEMS@, params: seq![ParamV::Text(warehouse@)] }),
{
    let params = vec![text(warehouse)];
    proof {
        assert(params@.map_values(|p: Param| p@) =~= seq![ParamV::Text(warehouse@)]);
    }
    Statement { text: String::from_str(SELECT_ITEMS), params }
}

/// Inserts `item` into `warehouse` with `quantity`; the store refuses it when
/// the warehouse already holds an item of that name.
pub fn insert_item(warehouse: &str, item: &str, quantity: i64) -> (r: Statement)
    ensures
        r@ == (StatementV {
            text: INSERT_ITEM@,
            params: seq![ParamV::Text(warehouse@), ParamV::Text(item@), ParamV::Int(quantity as int)],
        }),
{
    let params = vec![text(warehouse), text(item), Param::Int(quantity)];
    proof {
        assert(params@.map_values(|p: Param| p@) =~= seq![
            ParamV::Text(warehouse@),
            ParamV::Text(item@),
            ParamV::Int(quantity as int),
        ]);
    }
    Statement { text: String::from_str(INSERT_ITEM), params }
}

/// Adds `quantity` to the quantity of `item` in `warehouse`.
pub fn increment_item(warehouse: &str, item: &str, quantity: i64) -> (r: Statement)
    ensures
        r@ == (StatementV {
            text: INCREMENT_ITEM@,
            params: seq![ParamV::Int(quantity as int), ParamV::Text(warehouse@), ParamV::Text(item@)],
        }),
{
    let params = vec![Param::Int(quantity), text(warehouse), text(item)];
    proof {
        assert(params@.map_values(|p: Param| p@) =~= seq![
            ParamV::Int(quantity as int),
            ParamV::Text(warehouse@),
            ParamV::Text(item@),
        ]);
    }
    Statement { text: String::from_str(INCREMENT_ITEM), params }
}

/// Updates the fields of `item` in `warehouse` that `edit` gives; NULL keeps
/// a field's stored value.
pub fn edit_item(warehouse: &str, item: &str, edit: &ItemEdit) -> (r: Statement)
    ensures
        r@ == (StatementV {
            text: UPDATE_ITEM@,
            params: seq![
                opt_text_param(edit.name),
                opt_text_param(edit.description),
                opt_int_param(edit.quantity),
                ParamV::Text(warehouse@),
                ParamV::Text(item@),
            ],
        }),
{
    let params = vec![
        opt_text(&edit.name),
        opt_text(&edit.description),
        opt_int(edit.quantity),
        text(warehouse),
        text(item),
    ];
    proof {
        assert(params@.map_values(|p: Param| p@) =~= seq![
            opt_text_param(edit.name),
            opt_text_param(edit.description),
            opt_int_param(edit.quantity),
            ParamV::Text(warehouse@),
            ParamV::Text(item@),
        ]);
    }
    Statement { text: String::from_str(UPDATE_ITEM), params }
}

/// Selects warehouse, item, quantity and threshold of every item of
/// `warehouse` that has a rule.
pub fn report_warehouse(warehouse: &str) -> (r: Statement)
    ensures
        r@ == (StatementV { text: SELECT_REPORT@, params: seq![ParamV::Text(warehouse@)] }),
{
    let params = vec![text(warehouse)];
    proof {
        assert(params@.map_values(|p: Param| p@) =~= seq![ParamV::Text(warehouse@)]);
    }
    Statement { text: String::from_str(SELECT_REPORT), params }
}

/// Selects warehouse, item, quantity and threshold of every item that has a
/// rule, ordered by warehouse name.
pub fn report_all() -> (r: Statement)
    ensures
        r@ == (StatementV { text: SELECT_REPORT_ALL@, params: Seq::empty() }),
{
    let params: Vec<Param> = Vec::new();
    proof {
        assert(params@.map_values(|p: Param| p@) =~= Seq::<ParamV>::empty());
    }
    Statement { text: String::from_str(SELECT_REPORT_ALL), params }
}

/// Selects item name and threshold of every rule in `warehouse`.
pub fn show_rules(warehouse: &str) -> (r: Statement)
    ensures
        r@ == (StatementV { text: SELECT_RULES@, params: seq![ParamV::Text(warehouse@)] }),
{
    let params = vec![text(warehouse)];
    proof {
        assert(params@.map_values(|p: Param| p@) =~= seq![ParamV::Text(warehouse@)]);
    }
    Statement { text: String::from_str(SELECT_RULES), params }
}

/// Creates the rule of `item` in `warehouse`. The item is looked up in the
/// same statement, so no rule is made for an item that does not exist.
pub fn create_rule(warehouse: &str, item: &str, threshold: i64) -> (r: Statement)
    ensures
        r@ == (StatementV {
            text: INSERT_RULE@,
            params: seq![ParamV::Text(warehouse@), ParamV::Text(item@), ParamV::Int(threshold as int)],
        }),
{
    let params = vec![text(warehouse), text(item), Param::Int(threshold)];
    proof {
        assert(params@.map_values(|p: Param| p@) =~= seq![
            ParamV::Text(warehouse@),
            ParamV::Text(item@),
            ParamV::Int(threshold as int),
        ]);
    }
    Statement { text: String::from_str(INSERT_RULE), params }
}

/// Sets the threshold of the rules of the named items in `warehouse`.
pub fn edit_rules(warehouse: &str, items: &[String], threshold: i64) -> (r: Statement)
    ensures
        r@ == (StatementV {
            text: UPDATE_RULES@ + placeholder_list(3, items@.len()) + CLOSE_TWO@,
            params: seq![ParamV::Text(warehouse@), ParamV::Int(threshold as int)] + text_params(
                items@,
            ),
        }),
{
    let mut text_ = String::from_str(UPDATE_RULES);
    push_placeholders(&mut text_, 3, items.len());
    text_.append(CLOSE_TWO);
    let mut params = vec![text(warehouse), Param::Int(threshold)];
    push_text_params(&mut params, items);
    proof {
        assert(text_@ =~= UPDATE_RULES@ + placeholder_list(3, items@.len()) + CLOSE_TWO@);
        assert(params@.map_values(|p: Param| p@) =~= seq![
            ParamV::Text(warehouse@),
            ParamV::Int(threshold as int),
        ] + text_params(items@));
    }
    Statement { text: text_, params }
}

/// Deletes the rules of the named items in `warehouse`; the items stay.
pub fn remove_rules(warehouse: &str, items: &[String]) -> (r: Statement)
    ensures
        r@ == (StatementV {
            text: DELETE_RULES_OF_ITEMS@ + placeholder_list(2, items@.len()) + CLOSE_TWO@,
            params: seq![ParamV::Text(warehouse@)] + text_params(items@),
        }),
{
    let mut text_ = String::from_str(DELETE_RULES_OF_ITEMS);
    push_placeholders(&mut text_, 2, items.len());
    text_.append(CLOSE_TWO);
    let mut params = vec![text(warehouse)];
    push_text_params(&mut params, items);
    proof {
        assert(text_@ =~= DELETE_RULES_OF_ITEMS@ + placeholder_list(2, items@.len()) + CLOSE_TWO@);
        assert(params@.map_values(|p: Param| p@) =~= seq![ParamV::Text(warehouse@)] + text_params(
            items@,
        ));
    }
    Statement { text: text_, params }
}

} // verus!
