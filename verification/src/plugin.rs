//! The plugin and the commands that it offers.
use crate::commands::open::SledOpen;
use crate::commands::save::SledSave;
use vstd::prelude::*;

verus! {

/// The plugin.
#[derive(Debug, PartialEq, Eq)]
pub struct SledPlugin;

/// A command that the plugin offers.
#[derive(Debug, PartialEq, Eq)]
pub enum Command {
    Open(SledOpen),
    Save(SledSave),
}

impl SledPlugin {
    /// The commands that the plugin offers: load, then save.
    pub fn commands(&self) -> (list: Vec<Command>)
        ensures
            list@.len() == 2,
            list@[0] is Open,
            list@[1] is Save,
    {
        let mut list: Vec<Command> = Vec::new();
        list.push(Command::Open(SledOpen));
        list.push(Command::Save(SledSave));
        list
    }
}

} // verus!
