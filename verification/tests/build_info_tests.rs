use vhs_gui::build_info::{directives, run_git};

#[test]
fn git_answers_are_trimmed_texts() {
    assert_eq!(run_git(true, b"0123abcd\n"), Some("0123abcd".to_string()));
    assert_eq!(run_git(true, "  bränch \n".as_bytes()), Some("bränch".to_string()));
    assert_eq!(run_git(false, b"0123abcd\n"), None);
    assert_eq!(run_git(true, b" \n"), None);
    assert_eq!(run_git(true, b"\xff\n"), None);
}

#[test]
fn builds_record_their_commit() {
    assert_eq!(
        directives(Some("0123abcd".into()), Some("main".into()), Some(" M x".into())),
        [
            "cargo:rustc-env=VHS_GUI_GIT_HASH=0123abcd",
            "cargo:rustc-env=VHS_GUI_GIT_BRANCH=main",
            "cargo:rustc-env=VHS_GUI_GIT_DIRTY=-dirty",
            "cargo:rerun-if-changed=.git/HEAD",
            "cargo:rerun-if-changed=.git/index",
        ]
    );
    assert_eq!(
        directives(None, None, None)[..3],
        [
            "cargo:rustc-env=VHS_GUI_GIT_HASH=unknown",
            "cargo:rustc-env=VHS_GUI_GIT_BRANCH=unknown",
            "cargo:rustc-env=VHS_GUI_GIT_DIRTY=",
        ]
    );
}
