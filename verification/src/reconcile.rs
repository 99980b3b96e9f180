//! The reconciliation engine: merging one commit's per-file diffs into a
//! single add-set and remove-set of entries.
//!
//! Every entry of an added file joins the add-set and every entry of a
//! removed file the remove-set; for a modified file, the diff between its
//! current and its previous entries (by full-value equality) contributes to
//! both.  A file whose text is no manifest contributes nothing, and does
//! not stop the other files from being reconciled.

use vstd::prelude::*;
use crate::command::{diff_minus, entries_view, CompareSubCommands, SubCommand, SubCommandView};
use crate::github::{ProcessedPushPayload, ProcessedPushView};
use crate::index::{commit_ops, ops_view, plan_commit, IndexOp};
use crate::manifest::{manifest_of_text, parse_manifest};

verus! {

/// The entries a manifest text contributes: none when it is no manifest.
pub open spec fn entries_of_text(s: Seq<char>) -> Seq<SubCommandView> {
    match manifest_of_text(s) {
        Ok(m) => m.commands,
        Err(_) => Seq::empty(),
    }
}

/// The entries contributed by a list of whole files.
pub open spec fn file_entries(files: Seq<Seq<char>>) -> Seq<SubCommandView>
    decreases files.len(),
{
    if files.len() == 0 {
        Seq::empty()
    } else {
        file_entries(files.drop_last()) + entries_of_text(files.last())
    }
}

/// What one modified file adds: its current entries absent from its
/// previous ones — or nothing, when either text is no manifest.
pub open spec fn modified_file_added(cur: Seq<char>, prev: Seq<char>) -> Seq<SubCommandView> {
    match (manifest_of_text(cur), manifest_of_text(prev)) {
        (Ok(c), Ok(p)) => diff_minus(c.commands, p.commands),
        _ => Seq::empty(),
    }
}

/// What one modified file removes: its previous entries absent from its
/// current ones — or nothing, when either text is no manifest.
pub open spec fn modified_file_removed(cur: Seq<char>, prev: Seq<char>) -> Seq<SubCommandView> {
    match (manifest_of_text(cur), manifest_of_text(prev)) {
        (Ok(c), Ok(p)) => diff_minus(p.commands, c.commands),
        _ => Seq::empty(),
    }
}

/// What the modified files add, in their order.
pub open spec fn modified_added(files: Seq<(Seq<char>, Seq<char>)>) -> Seq<SubCommandView>
    decreases files.len(),
{
    if files.len() == 0 {
        Seq::empty()
    } else {
        modified_added(files.drop_last()) + modified_file_added(
            files.last().0,
            files.last().1,
        )
    }
}

/// What the modified files remove, in their order.
pub open spec fn modified_removed(files: Seq<(Seq<char>, Seq<char>)>) -> Seq<SubCommandView>
    decreases files.len(),
{
    if files.len() == 0 {
        Seq::empty()
    } else {
        modified_removed(files.drop_last()) + modified_file_removed(
            files.last().0,
            files.last().1,
        )
    }
}

/// One commit's add-set: the added files' entries, then what the modified
/// files add.
pub open spec fn commit_add_set(p: ProcessedPushView) -> Seq<SubCommandView> {
    file_entries(p.added) + modified_added(p.modified)
}

/// One commit's remove-set: the removed files' entries, then what the
/// modified files remove.
pub open spec fn commit_remove_set(p: ProcessedPushView) -> Seq<SubCommandView> {
    file_entries(p.removed) + modified_removed(p.modified)
}

/// The entries of the manifest a text holds, or none.
#[verifier::loop_isolation(false)]
fn text_entries(text: &String) -> (r: Vec<SubCommand>)
    ensures
        entries_view(r@) == entries_of_text(text@),
{
    match parse_manifest(text.as_str()) {
        Ok(m) => m.commands,
        Err(_) => Vec::new(),
    }
}

/// Merges one commit's per-file diffs into its add-set and remove-set.
#[verifier::loop_isolation(false)]
pub fn reconcile(p: &ProcessedPushPayload) -> (r: (Vec<SubCommand>, Vec<SubCommand>))
    ensures
        entries_view(r.0@) == commit_add_set(p@),
        entries_view(r.1@) == commit_remove_set(p@),
{
    let ghost addv = p@.added;
    let ghost remv = p@.removed;
    let ghost modv = p@.modified;
    let mut add: Vec<SubCommand> = Vec::new();
    let mut remove: Vec<SubCommand> = Vec::new();

    proof {
        assert(addv.subrange(0, 0) =~= Seq::<Seq<char>>::empty());
        assert(entries_view(add@) =~= file_entries(addv.subrange(0, 0)));
    }
    let mut i: usize = 0;
    while i < p.added.len()
        invariant
            i <= p.added.len(),
            addv.len() == p.added.len(),
            entries_view(add@) == file_entries(addv.subrange(0, i as int)),
        decreases p.added.len() - i,
    {
        proof {
            assert(addv.subrange(0, i + 1).drop_last() =~= addv.subrange(0, i as int));
            assert(addv.subrange(0, i + 1).last() == addv[i as int]);
            assert(addv[i as int] == p.added@[i as int]@);
        }
        let mut cs = text_entries(&p.added[i]);
        proof {
            assert(entries_view(add@ + cs@) =~= entries_view(add@) + entries_view(cs@));
        }
        add.append(&mut cs);
        i = i + 1;
    }
    proof {
        assert(addv.subrange(0, p.added.len() as int) =~= addv);
    }

    proof {
        assert(remv.subrange(0, 0) =~= Seq::<Seq<char>>::empty());
        assert(entries_view(remove@) =~= file_entries(remv.subrange(0, 0)));
    }
    let mut i2: usize = 0;
    while i2 < p.removed.len()
        invariant
            i2 <= p.removed.len(),
            remv.len() == p.removed.len(),
            entries_view(remove@) == file_entries(remv.subrange(0, i2 as int)),
        decreases p.removed.len() - i2,
    {
        proof {
            assert(remv.subrange(0, i2 + 1).drop_last() =~= remv.subrange(0, i2 as int));
            assert(remv.subrange(0, i2 + 1).last() == remv[i2 as int]);
            assert(remv[i2 as int] == p.removed@[i2 as int]@);
        }
        let mut cs = text_entries(&p.removed[i2]);
        proof {
            assert(entries_view(remove@ + cs@) =~= entries_view(remove@) + entries_view(cs@));
        }
        remove.append(&mut cs);
        i2 = i2 + 1;
    }
    proof {
        assert(remv.subrange(0, p.removed.len() as int) =~= remv);
        assert(modv.subrange(0, 0) =~= Seq::<(Seq<char>, Seq<char>)>::empty());
        assert(entries_view(add@) + modified_added(modv.subrange(0, 0)) =~= entries_view(add@));
        assert(entries_view(remove@) + modified_removed(modv.subrange(0, 0)) =~= entries_view(
            remove@,
        ));
    }

    let mut i3: usize = 0;
    while i3 < p.modified.len()
        invariant
            i3 <= p.modified.len(),
            modv.len() == p.modified.len(),
            entries_view(add@) == file_entries(addv) + modified_added(
                modv.subrange(0, i3 as int),
            ),
            entries_view(remove@) == file_entries(remv) + modified_removed(
                modv.subrange(0, i3 as int),
            ),
        decreases p.modified.len() - i3,
    {
        proof {
            assert(modv.subrange(0, i3 + 1).drop_last() =~= modv.subrange(0, i3 as int));
            assert(modv.subrange(0, i3 + 1).last() == modv[i3 as int]);
            assert(modv[i3 as int] == (p.modified@[i3 as int].0@, p.modified@[i3 as int].1@));
        }
        let cur = parse_manifest(p.modified[i3].0.as_str());
        let prev = parse_manifest(p.modified[i3].1.as_str());
        match (cur, prev) {
            (Ok(c), Ok(pm)) => {
                let (mut to_add, mut to_remove) = pm.commands.compare(&c.commands);
                proof {
                    assert(entries_view(add@ + to_add@) =~= entries_view(add@) + entries_view(
                        to_add@,
                    ));
                    assert(entries_view(remove@ + to_remove@) =~= entries_view(remove@)
                        + entries_view(to_remove@));
                }
                add.append(&mut to_add);
                remove.append(&mut to_remove);
            },
            _ => {
                proof {
                    assert(entries_view(add@) + Seq::<SubCommandView>::empty() =~= entries_view(
                        add@,
                    ));
                    assert(entries_view(remove@) + Seq::<SubCommandView>::empty() =~= entries_view(
                        remove@,
                    ));
                }
            },
        }
        i3 = i3 + 1;
    }
    proof {
        assert(modv.subrange(0, p.modified.len() as int) =~= modv);
    }
    (add, remove)
}

/// What one commit asks of the index: the reconciliation's remove-set as
/// deletes, then its add-set as upserts.
pub fn webhook_ops(p: &ProcessedPushPayload) -> (r: Vec<IndexOp>)
    ensures
        ops_view(r@) == commit_ops(commit_add_set(p@), commit_remove_set(p@)),
{
    let (add, remove) = reconcile(p);
    plan_commit(&add, &remove)
}

} // verus!
