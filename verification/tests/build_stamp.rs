use grok_pager::build_stamp::{
    build_version, commit_label_for, short_sha_for, version_with_commit, FORK_ID,
};

#[test]
fn build_version_falls_back_in_order() {
    assert_eq!(build_version(Some("1.0.16"), Some("0.9.0")), "1.0.16");
    assert_eq!(build_version(None, Some("0.9.0")), "0.9.0");
    assert_eq!(build_version(None, None), "0.0.0");
}

#[test]
fn commit_label_takes_twelve_characters() {
    assert_eq!(
        commit_label_for(Some("deadbeef0123456789abcdef\n")),
        "deadbeef0123"
    );
    assert_eq!(commit_label_for(Some("abc\n")), "unknown");
    assert_eq!(commit_label_for(None), "unknown");
    // Six two-byte characters also make twelve bytes.
    assert_eq!(commit_label_for(Some("éééééé")), "éééééé");
    assert_eq!(commit_label_for(Some("ééééééé")), "unknown");
}

#[test]
fn short_sha_must_be_hex() {
    assert_eq!(short_sha_for(Some("abc1234\n")), "abc1234");
    assert_eq!(short_sha_for(Some("ABC1234")), "ABC1234");
    assert_eq!(short_sha_for(Some("abc123g")), "unknown");
    assert_eq!(short_sha_for(Some("  \n")), "unknown");
    assert_eq!(short_sha_for(None), "unknown");
}

#[test]
fn version_with_commit_stamps_like_the_library() {
    assert_eq!(
        version_with_commit(
            "1.0.16",
            FORK_ID,
            Some("deadbeef0123456789abcdef\n"),
            Some("abc1234\n")
        ),
        "1.0.16+tbhaxor-abc1234 (deadbeef0123)"
    );
    assert_eq!(
        version_with_commit("1.0.16+ci.1.tbhaxor.old", FORK_ID, None, None),
        "1.0.16+ci.1.tbhaxor-unknown (unknown)"
    );
}
