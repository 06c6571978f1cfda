use mermkit::locator::resolve;

#[test]
fn unset_override_resolves_to_default_name() {
    assert_eq!(resolve(None), "mermkit");
}

#[test]
fn set_override_resolves_to_its_value() {
    assert_eq!(resolve(Some("/custom/path".to_string())), "/custom/path");
}

#[test]
fn empty_override_resolves_to_default_name() {
    assert_eq!(resolve(Some(String::new())), "mermkit");
}
