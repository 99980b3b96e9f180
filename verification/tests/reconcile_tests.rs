use spellbook::command::{CompareSubCommands, SubCommand};
use spellbook::github::{ProcessedPushPayload, is_manifest_path, manifest_paths};
use spellbook::identity::uuid_hash;
use spellbook::index::{plan_commit, IndexOp};
use spellbook::payload::decode_payload;
use spellbook::reconcile::reconcile;

fn entry(command: &str, description: &str) -> SubCommand {
    SubCommand {
        command: String::from(command),
        description: String::from(description),
        placeholders: None,
    }
}

fn manifest(name: &str, entries: &[(&str, &str)]) -> String {
    let mut body = String::new();
    for (i, (c, d)) in entries.iter().enumerate() {
        if i > 0 {
            body.push(',');
        }
        body.push_str(&format!(
            "{{\"command\":\"{}\",\"description\":\"{}\"}}",
            c, d
        ));
    }
    format!("{{\"name\":\"{}\",\"commands\":[{}]}}", name, body)
}

fn empty_push() -> ProcessedPushPayload {
    ProcessedPushPayload { added: Vec::new(), removed: Vec::new(), modified: Vec::new() }
}

#[test]
fn commit_adding_one_file() {
    // one new registry file with one entry: one upsert, nothing removed
    let mut p = empty_push();
    p.added.push(manifest("registry-a", &[("ls -la", "list files")]));
    let (add, remove) = reconcile(&p);
    assert_eq!(add, vec![entry("ls -la", "list files")]);
    assert!(remove.is_empty());
    let ops = plan_commit(&add, &remove);
    assert_eq!(ops.len(), 1);
    match &ops[0] {
        IndexOp::Upsert { id, embed_text, payload } => {
            assert_eq!(*id, uuid_hash("ls -la"));
            assert_eq!(embed_text, "ls -la : list files");
            assert_eq!(decode_payload(payload).unwrap(), entry("ls -la", "list files"));
        }
        other => panic!("expected an upsert, got {:?}", other),
    }
}

#[test]
fn commit_changing_a_description() {
    // same invocation, new description: one remove and one add, and the two
    // operations share one identity, so the index ends with one record
    let mut p = empty_push();
    p.modified.push((
        manifest("registry-a", &[("ls -la", "list all files, long format")]),
        manifest("registry-a", &[("ls -la", "list files")]),
    ));
    let (add, remove) = reconcile(&p);
    assert_eq!(add, vec![entry("ls -la", "list all files, long format")]);
    assert_eq!(remove, vec![entry("ls -la", "list files")]);
    let ops = plan_commit(&add, &remove);
    assert_eq!(ops.len(), 2);
    match (&ops[0], &ops[1]) {
        (IndexOp::Delete { id: del }, IndexOp::Upsert { id: up, payload, .. }) => {
            assert_eq!(del, up);
            assert_eq!(*del, uuid_hash("ls -la"));
            assert_eq!(
                decode_payload(payload).unwrap(),
                entry("ls -la", "list all files, long format")
            );
        }
        other => panic!("expected delete then upsert, got {:?}", other),
    }
}

#[test]
fn commit_removing_one_file() {
    // a removed file with two entries: two deletes, no embedding at all
    let mut p = empty_push();
    p.removed.push(manifest("registry-b", &[("a", "first"), ("b", "second")]));
    let (add, remove) = reconcile(&p);
    assert!(add.is_empty());
    assert_eq!(remove.len(), 2);
    let ops = plan_commit(&add, &remove);
    assert_eq!(ops.len(), 2);
    for op in &ops {
        assert!(matches!(op, IndexOp::Delete { .. }));
    }
}

#[test]
fn invalid_file_does_not_stop_the_others() {
    let mut p = empty_push();
    p.added.push(String::from("{not json at all"));
    p.added.push(manifest("registry-c", &[("du -sh", "disk usage")]));
    p.modified.push((String::from("[]"), manifest("r", &[("x", "y")])));
    let (add, remove) = reconcile(&p);
    assert_eq!(add, vec![entry("du -sh", "disk usage")]);
    assert!(remove.is_empty());
}

#[test]
fn unchanged_entries_stay_out_of_both_sets() {
    let prev = vec![entry("a", "1"), entry("b", "2"), entry("c", "3")];
    let cur = vec![entry("b", "2"), entry("c", "changed"), entry("d", "4")];
    let (added, removed) = prev.compare(&cur);
    assert_eq!(added, vec![entry("c", "changed"), entry("d", "4")]);
    assert_eq!(removed, vec![entry("a", "1"), entry("c", "3")]);
}

#[test]
fn compare_deduplicates_within_a_file() {
    let prev: Vec<SubCommand> = Vec::new();
    let cur = vec![entry("a", "1"), entry("a", "1"), entry("b", "2")];
    let (added, removed) = prev.compare(&cur);
    assert_eq!(added, vec![entry("a", "1"), entry("b", "2")]);
    assert!(removed.is_empty());
}

#[test]
fn duplicates_across_files_both_land_in_the_add_set() {
    let mut p = empty_push();
    p.added.push(manifest("one", &[("a", "1")]));
    p.added.push(manifest("two", &[("a", "1")]));
    let (add, _) = reconcile(&p);
    assert_eq!(add, vec![entry("a", "1"), entry("a", "1")]);
}

#[test]
fn webhook_ops_deletes_before_upserts() {
    let mut p = empty_push();
    p.added.push(manifest("new", &[("tar -xf {f}", "extract")]));
    p.removed.push(manifest("old", &[("unzip {f}", "extract")]));
    let ops = spellbook::reconcile::webhook_ops(&p);
    assert_eq!(ops.len(), 2);
    assert!(matches!(ops[0], IndexOp::Delete { .. }));
    assert!(matches!(ops[1], IndexOp::Upsert { .. }));
}

#[test]
fn only_json_paths_are_manifests() {
    assert!(is_manifest_path(&String::from("registry-a.json")));
    assert!(is_manifest_path(&String::from("dir/registry.json")));
    assert!(!is_manifest_path(&String::from("README.md")));
    assert!(!is_manifest_path(&String::from("json")));
    assert!(!is_manifest_path(&String::from(".json.bak")));
    let paths = vec![
        String::from("a.json"),
        String::from("b.txt"),
        String::from("c.json"),
    ];
    let kept = manifest_paths(&paths);
    assert_eq!(kept, vec![String::from("a.json"), String::from("c.json")]);
}
