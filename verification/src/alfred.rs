//! Lookup results in the form that the Alfred launcher takes from a script
//! filter.

use vstd::prelude::*;
use crate::dictionary::Stroke;

verus! {

/// What a script filter hands to Alfred: a list of items.
#[derive(Debug)]
pub struct ScriptFilterResults {
    pub items: Vec<ScriptFilterItem>,
}

/// One row of the list that Alfred shows.
#[derive(Debug)]
pub struct ScriptFilterItem {
    pub uid: Option<String>,
    pub type_: Option<ItemType>,
    pub title: String,
    pub subtitle: Option<String>,
    pub arg: Option<String>,
    pub icon: Option<Icon>,
    pub valid: bool,
    pub match_: Option<String>,
    pub autocomplete: Option<String>,
}

/// What an item stands for.
#[derive(Debug)]
pub enum ItemType {
    Default,
    File,
    FileSkipcheck,
}

/// The icon of an item.
#[derive(Debug)]
pub struct Icon {
    pub type_: Option<IconType>,
    pub path: String,
}

/// How the path of an icon is to be read.
#[derive(Debug)]
pub enum IconType {
    Fileicon,
    Filetype,
}

impl ScriptFilterItem {
    /// The item has this title, and all that may be left out of an item is
    /// left out of it.
    pub open spec fn is_bare(&self, title: Seq<char>) -> bool {
        &&& self.title@ == title
        &&& self.uid is None
        &&& self.type_ is None
        &&& self.subtitle is None
        &&& self.arg is None
        &&& self.icon is None
        &&& self.match_ is None
        &&& self.autocomplete is None
    }
}

impl Default for ScriptFilterItem {
    fn default() -> (item: ScriptFilterItem)
        ensures
            item.is_bare(Seq::empty()),
            !item.valid,
    {
        ScriptFilterItem {
            uid: None,
            type_: None,
            title: String::new(),
            subtitle: None,
            arg: None,
            icon: None,
            valid: false,
            match_: None,
            autocomplete: None,
        }
    }
}

impl Default for ItemType {
    fn default() -> (item_type: ItemType)
        ensures
            item_type is Default,
    {
        ItemType::Default
    }
}

/// One valid item for each stroke, in the order of the strokes: its title is
/// the stroke, and all that may be left out is left out.
pub fn results_to_alfred(results: &[&Stroke]) -> (filtered: ScriptFilterResults)
    ensures
        filtered.items.len() == results.len(),
        forall|i: int|
            0 <= i < results.len() ==> (#[trigger] filtered.items[i]).is_bare(results[i]@)
                && filtered.items[i].valid,
{
    let mut items: Vec<ScriptFilterItem> = Vec::new();
    let mut i: usize = 0;
    while i < results.len()
        invariant
            i <= results.len(),
            items.len() == i,
            forall|j: int|
                0 <= j < i ==> (#[trigger] items[j]).is_bare(results[j]@) && items[j].valid,
        decreases results.len() - i,
    {
        let mut item = ScriptFilterItem::default();
        item.title = results[i].to_string();
        item.valid = true;
        items.push(item);
        i = i + 1;
    }
    ScriptFilterResults { items }
}

} // verus!
