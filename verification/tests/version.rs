use llmfit_core::version::long_version;

#[test]
fn long_version_with_revision() {
    assert_eq!(long_version("0.9.1", Some("abc1234")), "llmfit 0.9.1 (build abc1234)");
}

#[test]
fn long_version_without_revision() {
    assert_eq!(long_version("0.9.1", None), "llmfit 0.9.1 (build: unknown)");
}
