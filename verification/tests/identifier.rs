use steel::identifier::Identifier;

#[test]
fn namespace_chars() {
    assert!(Identifier::valid_namespace_char('a'));
    assert!(Identifier::valid_namespace_char('z'));
    assert!(Identifier::valid_namespace_char('0'));
    assert!(Identifier::valid_namespace_char('9'));
    assert!(Identifier::valid_namespace_char('_'));
    assert!(Identifier::valid_namespace_char('-'));
    assert!(Identifier::valid_namespace_char('.'));
    assert!(!Identifier::valid_namespace_char('/'));
    assert!(!Identifier::valid_namespace_char('A'));
    assert!(!Identifier::valid_namespace_char(':'));
    assert!(!Identifier::valid_namespace_char(' '));
}

#[test]
fn path_chars() {
    assert!(Identifier::valid_path_char('/'));
    assert!(Identifier::valid_path_char('q'));
    assert!(Identifier::valid_path_char('.'));
    assert!(!Identifier::valid_path_char('Z'));
    assert!(!Identifier::valid_path_char('é'));
}

#[test]
fn validate_namespace_cases() {
    assert!(Identifier::validate_namespace("minecraft"));
    assert!(Identifier::validate_namespace("hello_world"));
    assert!(Identifier::validate_namespace("my-plugin.v2"));
    assert!(!Identifier::validate_namespace(""));
    assert!(!Identifier::validate_namespace("Minecraft"));
    assert!(!Identifier::validate_namespace("a/b"));
    assert!(!Identifier::validate_namespace("caf\u{e9}"));
    assert!(!Identifier::validate_namespace("a b"));
}

#[test]
fn validate_path_cases() {
    assert!(Identifier::validate_path("stone"));
    assert!(Identifier::validate_path("block/stone_bricks"));
    assert!(!Identifier::validate_path(""));
    assert!(!Identifier::validate_path("Stone"));
    assert!(!Identifier::validate_path("a:b"));
}

#[test]
fn new_and_display() {
    let id = Identifier::new("steel", "server_starting");
    assert_eq!(id.namespace, "steel");
    assert_eq!(id.path, "server_starting");
    assert_eq!(id.to_string(), "steel:server_starting");
}

#[test]
fn vanilla_identifier() {
    let id = Identifier::vanilla("block/stone");
    assert_eq!(id.namespace, Identifier::VANILLA_NAMESPACE);
    assert_eq!(id.to_string(), "minecraft:block/stone");
}
