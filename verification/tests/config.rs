//! Configuration builder defaults and setters.

use unf::{UnfConfigBuilder, UnfVersion};

#[test]
fn defaults_apply() {
    let config = UnfConfigBuilder::new().build().unwrap();
    assert_eq!(config.digits, 7);
    assert_eq!(config.characters, 128);
    assert_eq!(config.truncation, 128);
    assert!(matches!(config.version, UnfVersion::Six));
}

#[test]
fn setters_override_defaults() {
    let config = UnfConfigBuilder::new()
        .digits(5)
        .characters(64)
        .truncation(192)
        .version(UnfVersion::Six)
        .build()
        .unwrap();
    assert_eq!(config.digits, 5);
    assert_eq!(config.characters, 64);
    assert_eq!(config.truncation, 192);
}

#[test]
fn default_builder_matches_new() {
    let a = UnfConfigBuilder::default().build().unwrap();
    let b = UnfConfigBuilder::new().build().unwrap();
    assert_eq!(a, b);
}

#[test]
fn full_digest_truncation_is_accepted() {
    let config = UnfConfigBuilder::new().truncation(256).build().unwrap();
    assert_eq!(config.truncation, 256);
}
