use spellbook::identity::uuid_hash;

#[test]
fn identity_is_stable() {
    let a = uuid_hash("ls -la");
    let b = uuid_hash("ls -la");
    assert_eq!(a, b);
}

#[test]
fn identity_distinguishes_inputs() {
    let a = uuid_hash("ls -la");
    let b = uuid_hash("ls -l");
    assert_ne!(a, b);
}

#[test]
fn identity_has_uuid_shape() {
    let id = uuid_hash("ls -la");
    assert_eq!(id.len(), 36);
    let bytes = id.as_bytes();
    assert_eq!(bytes[8], b'-');
    assert_eq!(bytes[13], b'-');
    assert_eq!(bytes[18], b'-');
    assert_eq!(bytes[23], b'-');
    // version-5 UUIDs carry the version digit after the second hyphen
    assert_eq!(bytes[14], b'5');
    assert_ne!(id, "ls -la");
}

#[test]
fn identity_ignores_nothing() {
    // identity depends on the whole invocation text
    assert_ne!(uuid_hash("git st"), uuid_hash("git st "));
    assert_ne!(uuid_hash(""), uuid_hash(" "));
}
