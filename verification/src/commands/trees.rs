//! Listing the namespaces of a store.
use crate::error::CommandError;
use crate::text::text_strict;
use crate::value::{items_view, lemma_items_view, Datum, StructuredValue};
use vstd::prelude::*;
use vstd::utf8::{decode_utf8, valid_utf8};

verus! {

/// The names to list, in their order: the text of each name that is UTF-8.
/// A name that is not UTF-8 is left out.
pub open spec fn listed_names(names: Seq<Seq<u8>>) -> Seq<Datum>
    decreases names.len(),
{
    if names.len() == 0 {
        Seq::empty()
    } else {
        let front = listed_names(names.drop_last());
        if valid_utf8(names.last()) {
            front.push(Datum::Text(decode_utf8(names.last())))
        } else {
            front
        }
    }
}

/// The bytes of names, name by name.
pub open spec fn names_view(names: Seq<Vec<u8>>) -> Seq<Seq<u8>> {
    names.map_values(|name: Vec<u8>| name@)
}

/// The list of the namespace names that are UTF-8, as text.
pub fn tree_names(names: &Vec<Vec<u8>>) -> (list: StructuredValue)
    ensures
        list@ == Datum::List(listed_names(names_view(names@))),
{
    let ghost all = names_view(names@);
    let mut items: Vec<StructuredValue> = Vec::new();
    let mut i: usize = 0;
    while i < names.len()
        invariant
            i <= names.len(),
            all == names_view(names@),
            items_view(items@) == listed_names(all.take(i as int)),
        decreases names.len() - i,
    {
        proof {
            assert(all.take(i + 1).drop_last() == all.take(i as int));
            assert(all.take(i + 1).last() == names@[i as int]@);
        }
        let bytes = names[i].clone();
        assert(bytes@ == names@[i as int]@);
        match text_strict(bytes) {
            Some(name) => {
                let ghost before = items@;
                items.push(StructuredValue::String(name));
                proof {
                    lemma_items_view(before);
                    lemma_items_view(items@);
                    assert(items_view(items@) =~= listed_names(all.take(i + 1)));
                }
            },
            None => {},
        }
        i += 1;
    }
    assert(all.take(i as int) == all);
    StructuredValue::List(items)
}

/// The command that lists namespaces.
#[derive(Debug, PartialEq, Eq)]
pub struct SledTrees;

/// What happened last in a listing.
#[derive(Debug, PartialEq, Eq)]
pub enum TreesEvent {
    /// Nothing yet.
    Start,
    /// Whether the store path is an existing directory; `path` is its text.
    Directory { found: bool, path: String },
    StoreOpened,
    /// The engine refused to open the store at `path`, with its complaint.
    StoreRefused { path: String, detail: String },
    /// The names of the store's namespaces, as the engine gave them.
    Names(Vec<Vec<u8>>),
}

/// What a listing needs done next.
#[derive(Debug, PartialEq, Eq)]
pub enum TreesAction {
    /// Find out whether the store path is an existing directory.
    CheckDirectory,
    OpenStore,
    /// Ask the store for the names of its namespaces.
    ListNames,
    /// The listing has ended with this result.
    Finish(Result<StructuredValue, CommandError>),
}

impl SledTrees {
    pub fn name(&self) -> (text: &'static str)
        ensures
            text@ == "sled-trees"@,
    {
        "sled-trees"
    }

    pub fn description(&self) -> (text: &'static str)
        ensures
            text@ == "list all trees in the sled db"@,
    {
        "list all trees in the sled db"
    }

    /// One step of a listing. The path is checked first and the listing ends
    /// with a path error where it is no directory. Then the store is opened; a
    /// refusal ends the listing with the path and the engine's complaint. Then the names
    /// are asked for, and those that are UTF-8 are the result.
    pub fn run(&self, event: TreesEvent) -> (action: TreesAction)
        ensures
            match event {
                TreesEvent::Start => action is CheckDirectory,
                TreesEvent::Directory { found, path } => if found {
                    action is OpenStore
                } else {
                    action matches TreesAction::Finish(Err(CommandError::Path { path: reported }))
                        && reported@ == path@
                },
                TreesEvent::StoreOpened => action is ListNames,
                TreesEvent::StoreRefused { path, detail } => action matches TreesAction::Finish(
                    Err(CommandError::StoreOpen { path: at, detail: reported }),
                ) && at@ == path@ && reported@ == detail@,
                TreesEvent::Names(names) => action matches TreesAction::Finish(Ok(list)) && list@
                    == Datum::List(listed_names(names_view(names@))),
            },
    {
        match event {
            TreesEvent::Start => TreesAction::CheckDirectory,
            TreesEvent::Directory { found, path } => if found {
                TreesAction::OpenStore
            } else {
                TreesAction::Finish(Err(CommandError::Path { path }))
            },
            TreesEvent::StoreOpened => TreesAction::ListNames,
            TreesEvent::StoreRefused { path, detail } => TreesAction::Finish(
                Err(CommandError::StoreOpen { path, detail }),
            ),
            TreesEvent::Names(names) => TreesAction::Finish(Ok(tree_names(&names))),
        }
    }
}

} // verus!
