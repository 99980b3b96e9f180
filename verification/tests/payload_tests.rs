use spellbook::command::{Placeholder, SubCommand};
use spellbook::errors::SyncError;
use spellbook::localdb::{is_command_installed, LocalCommand};
use spellbook::payload::{decode_payload, entry_payload};
use spellbook::search::decode_results;

fn entry(command: &str, description: &str) -> SubCommand {
    SubCommand {
        command: String::from(command),
        description: String::from(description),
        placeholders: None,
    }
}

#[test]
fn payload_round_trip() {
    let e = SubCommand {
        command: String::from("grep {pattern} {file}"),
        description: String::from("search a file"),
        placeholders: Some(vec![
            Placeholder {
                name: String::from("pattern"),
                description: String::from("what to find"),
            },
            Placeholder { name: String::from("file"), description: String::from("where") },
        ]),
    };
    let text = entry_payload(&e);
    assert_eq!(decode_payload(&text).unwrap(), e);
}

#[test]
fn payload_round_trip_with_awkward_texts() {
    let e = SubCommand {
        command: String::from("echo \"a\\b\"\n\t"),
        description: String::from("quotes \u{e9} and \u{1F600} and \u{1}"),
        placeholders: None,
    };
    let text = entry_payload(&e);
    assert_eq!(decode_payload(&text).unwrap(), e);
}

#[test]
fn payload_has_the_expected_shape() {
    let text = entry_payload(&entry("ls", "list"));
    assert_eq!(
        text,
        "{\"command\":\"ls\",\"description\":\"list\",\"placeholders\":null}"
    );
}

#[test]
fn search_drops_undecodable_payloads() {
    let good_a = entry_payload(&entry("ls", "list"));
    let good_b = entry_payload(&entry("du", "disk"));
    let payloads = vec![
        good_a,
        String::from("{\"not\":\"an entry\"}"),
        String::from("garbage"),
        good_b,
    ];
    let results = decode_results(&payloads);
    assert_eq!(results, vec![entry("ls", "list"), entry("du", "disk")]);
}

#[test]
fn top_search_result_decodes_to_the_entry() {
    let payloads = vec![entry_payload(&entry("ls -la", "list files"))];
    let results = decode_results(&payloads);
    assert_eq!(results[0], entry("ls -la", "list files"));
}

#[test]
fn index_text_joins_invocation_and_intent() {
    assert_eq!(entry("ls -la", "list files").index_text(), "ls -la : list files");
}

#[test]
fn local_cache_membership() {
    let commands = vec![
        LocalCommand {
            id: String::from("one"),
            command: String::from("ls"),
            description: String::from("list"),
            installed: Some(true),
        },
        LocalCommand {
            id: String::from("two"),
            command: String::from("du"),
            description: String::from("disk"),
            installed: None,
        },
    ];
    assert!(is_command_installed(&commands, &String::from("two")));
    assert!(!is_command_installed(&commands, &String::from("three")));
    assert!(!is_command_installed(&Vec::new(), &String::from("one")));
}

#[test]
fn sync_error_reach() {
    assert!(SyncError::RevisionNotFound.is_fatal());
    assert!(SyncError::PathNotFoundInTree.is_fatal());
    assert!(SyncError::RepositoryUnavailable.is_fatal());
    assert!(SyncError::IndexOperationFailed.is_fatal());
    assert!(!SyncError::EmbeddingUnavailable.is_fatal());
    assert_eq!(
        SyncError::EmbeddingUnavailable.message(),
        "the embedding provider was unavailable"
    );
}
