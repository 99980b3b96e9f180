use spellbook::manifest::{parse_manifest, validate_manifest, ManifestError};

const GOOD: &str = "{\"name\":\"registry-a\",\"commands\":[\
{\"command\":\"ls -la\",\"description\":\"list files\",\"placeholders\":null},\
{\"command\":\"grep {pattern}\",\"description\":\"search text\",\
\"placeholders\":[{\"name\":\"pattern\",\"description\":\"what to find\"}]}]}";

#[test]
fn parses_a_manifest() {
    let m = parse_manifest(GOOD).unwrap();
    assert_eq!(m.name, "registry-a");
    assert_eq!(m.commands.len(), 2);
    assert_eq!(m.commands[0].command, "ls -la");
    assert_eq!(m.commands[0].description, "list files");
    assert!(m.commands[0].placeholders.is_none());
    let ps = m.commands[1].placeholders.as_ref().unwrap();
    assert_eq!(ps.len(), 1);
    assert_eq!(ps[0].name, "pattern");
    assert_eq!(ps[0].description, "what to find");
}

#[test]
fn missing_placeholders_member_means_none() {
    let m = parse_manifest(
        "{\"name\":\"r\",\"commands\":[{\"command\":\"c\",\"description\":\"d\"}]}",
    )
    .unwrap();
    assert!(m.commands[0].placeholders.is_none());
}

#[test]
fn unknown_members_are_ignored() {
    let m = parse_manifest(
        "{\"extra\":1,\"name\":\"r\",\"commands\":[\
{\"command\":\"c\",\"description\":\"d\",\"note\":true}]}",
    )
    .unwrap();
    assert_eq!(m.commands.len(), 1);
}

#[test]
fn rejects_invalid_json() {
    assert_eq!(parse_manifest("{oops").unwrap_err(), ManifestError::InvalidJson);
}

#[test]
fn rejects_non_object_documents() {
    assert_eq!(parse_manifest("[]").unwrap_err(), ManifestError::NotAnObject);
    assert_eq!(parse_manifest("\"x\"").unwrap_err(), ManifestError::NotAnObject);
}

#[test]
fn rejects_missing_or_wrong_name() {
    assert_eq!(
        parse_manifest("{\"commands\":[]}").unwrap_err(),
        ManifestError::InvalidName
    );
    assert_eq!(
        parse_manifest("{\"name\":3,\"commands\":[]}").unwrap_err(),
        ManifestError::InvalidName
    );
}

#[test]
fn rejects_missing_or_wrong_commands() {
    assert_eq!(
        parse_manifest("{\"name\":\"r\"}").unwrap_err(),
        ManifestError::InvalidCommands
    );
    assert_eq!(
        parse_manifest("{\"name\":\"r\",\"commands\":{}}").unwrap_err(),
        ManifestError::InvalidCommands
    );
}

#[test]
fn rejects_bad_entries() {
    assert_eq!(
        parse_manifest("{\"name\":\"r\",\"commands\":[5]}").unwrap_err(),
        ManifestError::InvalidEntry
    );
    assert_eq!(
        parse_manifest("{\"name\":\"r\",\"commands\":[{\"command\":\"c\"}]}").unwrap_err(),
        ManifestError::InvalidEntry
    );
}

#[test]
fn rejects_bad_placeholders() {
    assert_eq!(
        parse_manifest(
            "{\"name\":\"r\",\"commands\":[\
{\"command\":\"c\",\"description\":\"d\",\"placeholders\":5}]}",
        )
        .unwrap_err(),
        ManifestError::InvalidPlaceholders
    );
    assert_eq!(
        parse_manifest(
            "{\"name\":\"r\",\"commands\":[\
{\"command\":\"c\",\"description\":\"d\",\"placeholders\":[{\"name\":\"n\"}]}]}",
        )
        .unwrap_err(),
        ManifestError::InvalidPlaceholders
    );
}

#[test]
fn validation_reports_without_keeping() {
    assert!(validate_manifest(GOOD).is_ok());
    let err = validate_manifest("{").unwrap_err();
    assert_eq!(err, ManifestError::InvalidJson);
    assert_eq!(err.message(), "not a valid JSON document");
}
