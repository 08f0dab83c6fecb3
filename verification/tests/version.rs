use grok_pager::version::{
    append_fork_build_meta, display_version, display_version_with_commit, full_version,
    full_version_or, installed, installed_or, installed_semver, installed_semver_or,
    set_full_version, FullVersion, TEST_VERSION_ENV, VERSION,
};

/// Checks that the channel label is appended for alpha, stable, and empty labels.
#[test]
fn test_display_version_formatting_matrix() {
    let cases: &[(&str, &str, &str)] = &[
        // (version_with_commit,    label,        expected_suffix)
        ("0.2.5 (abc1234)", " [alpha]", "0.2.5 (abc1234) [alpha]"),
        ("0.2.5 (abc1234)", " [stable]", "0.2.5 (abc1234) [stable]"),
        ("0.2.5 (abc1234)", "", "0.2.5 (abc1234)"),
        (
            "0.1.220-alpha.2 (def0)",
            " [alpha]",
            "0.1.220-alpha.2 (def0) [alpha]",
        ),
        (
            "1.0.16+tbhaxor-abc1234 (deadbeef0123)",
            " [stable]",
            "1.0.16+tbhaxor-abc1234 (deadbeef0123) [stable]",
        ),
        (
            "1.0.16+ci.1.tbhaxor-abc1234 (deadbeef0123)",
            "",
            "1.0.16+ci.1.tbhaxor-abc1234 (deadbeef0123)",
        ),
    ];
    for (vwc, label, expected) in cases {
        assert_eq!(
            display_version_with_commit(vwc, label),
            *expected,
            "display_version_with_commit({:?}, {:?})",
            vwc,
            label,
        );
    }
    // display_version uses the compiled VERSION, so verify only that the label appends
    assert_eq!(display_version(""), VERSION);
    assert!(display_version(" [stable]").ends_with("[stable]"));
}

#[test]
fn append_fork_build_meta_adds_or_extends_without_replacing() {
    assert_eq!(
        append_fork_build_meta("1.0.16", "tbhaxor", "abc1234"),
        "1.0.16+tbhaxor-abc1234"
    );
    assert_eq!(
        append_fork_build_meta("1.0.16+ci.1", "tbhaxor", "abc1234"),
        "1.0.16+ci.1.tbhaxor-abc1234"
    );
    assert_eq!(
        append_fork_build_meta("1.0.16+ci.1.tbhaxor-oldsha", "tbhaxor", "abc1234"),
        "1.0.16+ci.1.tbhaxor-abc1234"
    );
    assert_eq!(
        append_fork_build_meta("1.0.16+tbhaxor.oldsha", "tbhaxor", "abc1234"),
        "1.0.16+tbhaxor-abc1234"
    );
}

#[test]
fn full_version_falls_back_then_first_set_wins() {
    let mut cell = FullVersion::new();
    assert_eq!(full_version(&cell), VERSION);
    set_full_version(&mut cell, "first (aaaaaaa)");
    assert_eq!(full_version(&cell), "first (aaaaaaa)");
    set_full_version(&mut cell, "second (bbbbbbb)");
    assert_eq!(full_version(&cell), "first (aaaaaaa)");
}

#[test]
fn display_version_appends_label_to_compiled_version() {
    assert_eq!(display_version(" [alpha]"), format!("{} [alpha]", VERSION));
    assert_eq!(display_version(""), "0.1.0");
}

#[test]
fn append_fork_build_meta_legacy_pair_in_the_middle_drops_both() {
    assert_eq!(
        append_fork_build_meta("2.0.0+a.tbhaxor.old.b", "tbhaxor", "new"),
        "2.0.0+a.b.tbhaxor-new"
    );
}

#[test]
fn append_fork_build_meta_bare_fork_id_at_end_is_dropped_alone() {
    assert_eq!(
        append_fork_build_meta("2.0.0+a.tbhaxor", "tbhaxor", "new"),
        "2.0.0+a.tbhaxor-new"
    );
}

#[test]
fn append_fork_build_meta_only_first_stale_token_is_refreshed() {
    assert_eq!(
        append_fork_build_meta("1.0+tbhaxor-a.tbhaxor-b", "tbhaxor", "c"),
        "1.0+tbhaxor-b.tbhaxor-c"
    );
}

#[test]
fn append_fork_build_meta_drops_empty_identifiers_and_splits_on_first_plus() {
    assert_eq!(
        append_fork_build_meta("1.0.0+..x..", "f", "s"),
        "1.0.0+x.f-s"
    );
    assert_eq!(append_fork_build_meta("1.0.0+", "f", "s"), "1.0.0+f-s");
    assert_eq!(append_fork_build_meta("1+2+3", "f", "s"), "1+2+3.f-s");
    assert_eq!(append_fork_build_meta("", "f", "s"), "+f-s");
}

#[test]
fn append_fork_build_meta_does_not_match_other_forks_sharing_a_prefix() {
    assert_eq!(
        append_fork_build_meta("1.0.0+tbhaxorx-1", "tbhaxor", "abc"),
        "1.0.0+tbhaxorx-1.tbhaxor-abc"
    );
}

#[test]
fn restamping_does_not_stack() {
    let once = append_fork_build_meta("1.0.16+ci.1", "tbhaxor", "aaa");
    let twice = append_fork_build_meta(&once, "tbhaxor", "bbb");
    assert_eq!(twice, append_fork_build_meta("1.0.16+ci.1", "tbhaxor", "bbb"));
    assert_eq!(twice, "1.0.16+ci.1.tbhaxor-bbb");
}

#[test]
fn installed_prefers_trimmed_override() {
    assert_eq!(installed(Some("  2.3.4 \n")), "2.3.4");
    assert_eq!(installed(None), VERSION);
    assert_eq!(TEST_VERSION_ENV, "GROK_TEST_VERSION");
}

#[test]
fn installed_semver_parses_the_installed_version() {
    let v = installed_semver(Some(" 1.2.3-beta.1+build.5 ")).unwrap();
    assert_eq!((v.major, v.minor, v.patch), (1, 2, 3));
    assert_eq!(v.pre, "beta.1");
    assert_eq!(v.build, "build.5");
    let compiled = installed_semver(None).unwrap();
    assert_eq!((compiled.major, compiled.minor, compiled.patch), (0, 1, 0));
    assert!(installed_semver(Some("1.0")).is_err());
    assert!(installed_semver(Some("1.0.01")).is_err());
}

#[test]
fn injected_compiled_version_is_the_fallback() {
    let mut cell = FullVersion::new();
    assert_eq!(full_version_or(&cell, "1.0.16"), "1.0.16");
    set_full_version(&mut cell, "1.0.16 (abc1234)");
    assert_eq!(full_version_or(&cell, "1.0.16"), "1.0.16 (abc1234)");
    assert_eq!(installed_or(None, "1.0.16"), "1.0.16");
    assert_eq!(installed_or(Some(" 2.0.0 "), "1.0.16"), "2.0.0");
    let v = installed_semver_or(None, "1.0.16").unwrap();
    assert_eq!((v.major, v.minor, v.patch), (1, 0, 16));
}
