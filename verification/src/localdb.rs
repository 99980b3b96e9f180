//! The end-user client's local cache of commands: the membership check the
//! client runs against it.  Reading and writing the cache file itself is
//! the client's business, outside this library.

use vstd::prelude::*;

verus! {

/// One locally cached command.
#[derive(Debug)]
pub struct LocalCommand {
    pub id: String,
    pub command: String,
    pub description: String,
    pub installed: Option<bool>,
}

/// Whether the locally cached commands hold one with the given id.
pub fn is_command_installed(commands: &Vec<LocalCommand>, id: &String) -> (r: bool)
    ensures
        r == (exists|i: int|
            0 <= i < commands@.len() && (#[trigger] commands@[i]).id@ == id@),
{
    let mut i: usize = 0;
    while i < commands.len()
        invariant
            i <= commands.len(),
            forall|k: int| 0 <= k < i ==> (#[trigger] commands@[k]).id@ != id@,
        decreases commands.len() - i,
    {
        if commands[i].id == *id {
            return true;
        }
        i = i + 1;
    }
    false
}

} // verus!
