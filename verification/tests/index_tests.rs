use std::collections::HashMap;

use spellbook::command::SubCommand;
use spellbook::identity::uuid_hash;
use spellbook::index::{plan_commit, IndexOp};

fn entry(command: &str, description: &str) -> SubCommand {
    SubCommand {
        command: String::from(command),
        description: String::from(description),
        placeholders: None,
    }
}

/// What the vector store does with a plan: deletes remove the record at
/// the identity, upserts overwrite it.
fn apply(index: &mut HashMap<String, String>, ops: &[IndexOp]) {
    for op in ops {
        match op {
            IndexOp::Delete { id } => {
                index.remove(id);
            }
            IndexOp::Upsert { id, payload, .. } => {
                index.insert(id.clone(), payload.clone());
            }
        }
    }
}

#[test]
fn applying_the_same_add_set_twice_changes_nothing() {
    let add = vec![entry("ls -la", "list files"), entry("du -sh", "disk usage")];
    let remove: Vec<SubCommand> = Vec::new();
    let ops = plan_commit(&add, &remove);

    let mut once: HashMap<String, String> = HashMap::new();
    once.insert(String::from("unrelated"), String::from("stays"));
    let mut twice = once.clone();

    apply(&mut once, &ops);
    apply(&mut twice, &ops);
    apply(&mut twice, &ops);
    assert_eq!(once, twice);
    assert_eq!(once.len(), 3);
}

#[test]
fn replacing_a_description_leaves_exactly_one_record() {
    let old = entry("ls -la", "list files");
    let new = entry("ls -la", "list all files, long format");
    let id = uuid_hash("ls -la");

    let mut index: HashMap<String, String> = HashMap::new();
    let no_remove: Vec<SubCommand> = Vec::new();
    apply(&mut index, &plan_commit(&vec![old.clone()], &no_remove));
    assert_eq!(index.len(), 1);

    // the commit that replaces the entry: remove the old value, add the new
    apply(&mut index, &plan_commit(&vec![new.clone()], &vec![old]));
    assert_eq!(index.len(), 1);
    let payload = index.get(&id).expect("one record at the identity");
    assert_eq!(
        spellbook::payload::decode_payload(payload).unwrap(),
        new
    );
}

#[test]
fn deleting_an_absent_record_is_a_no_op() {
    let remove = vec![entry("never indexed", "gone")];
    let add: Vec<SubCommand> = Vec::new();
    let mut index: HashMap<String, String> = HashMap::new();
    index.insert(String::from("other"), String::from("kept"));
    apply(&mut index, &plan_commit(&add, &remove));
    assert_eq!(index.len(), 1);
}
