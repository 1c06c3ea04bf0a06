//! A partial update of an item.
use vstd::prelude::*;

verus! {

/// New values for an item's fields; a field left `None` keeps its value.
#[derive(Debug)]
pub struct ItemEdit {
    pub name: Option<String>,
    pub description: Option<String>,
    pub quantity: Option<i64>,
}

/// The mathematical value of an [`ItemEdit`].
pub struct ItemEditV {
    pub name: Option<Seq<char>>,
    pub description: Option<Seq<char>>,
    pub quantity: Option<int>,
}

impl View for ItemEdit {
    type V = ItemEditV;

    open spec fn view(&self) -> ItemEditV {
        ItemEditV {
            name: match self.name {
                Some(s) => Some(s@),
                None => None,
            },
            description: match self.description {
                Some(s) => Some(s@),
                None => None,
            },
            quantity: match self.quantity {
                Some(q) => Some(q as int),
                None => None,
            },
        }
    }
}

impl Default for ItemEdit {
    fn default() -> (r: Self)
        ensures
            r.name is None,
            r.description is None,
            r.quantity is None,
    {
        ItemEdit { name: None, description: None, quantity: None }
    }
}

} // verus!
