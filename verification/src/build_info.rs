//! What a build records of the commit it was made from.
use crate::encoding;
use crate::text;
use vstd::prelude::*;

verus! {

/// What a run of `git` says: the trimmed text that it printed. `None` where it
/// failed, printed nothing or did not print UTF-8.
pub open spec fn spec_git_answer(success: bool, stdout: Seq<u8>) -> Option<Seq<char>> {
    let printed = text::spec_trim(vstd::utf8::decode_utf8(stdout));
    if success && vstd::utf8::valid_utf8(stdout) && printed.len() > 0 {
        Some(printed)
    } else {
        None
    }
}

/// What a run of `git` says, given whether it succeeded and what it printed.
pub fn run_git(success: bool, stdout: &[u8]) -> (r: Option<String>)
    ensures
        text::opt_text(r) == spec_git_answer(success, stdout@),
{
    if !success || !encoding::is_utf8(stdout) {
        return None;
    }
    let printed = encoding::lossy(stdout);
    let answer = text::trim(printed.as_str());
    if answer.is_empty() {
        None
    } else {
        Some(answer.to_string())
    }
}

/// The directives for the build: the short commit hash and the branch, each
/// `unknown` where `git` has no answer; whether the working tree was dirty,
/// which it is where `git status` lists something; and to build anew when the
/// commit or the index changes.
pub open spec fn spec_directives(
    hash: Option<Seq<char>>,
    branch: Option<Seq<char>>,
    status: Option<Seq<char>>,
) -> Seq<Seq<char>> {
    seq![
        "cargo:rustc-env=VHS_GUI_GIT_HASH="@ + (match hash {
            Some(h) => h,
            None => "unknown"@,
        }),
        "cargo:rustc-env=VHS_GUI_GIT_BRANCH="@ + (match branch {
            Some(b) => b,
            None => "unknown"@,
        }),
        "cargo:rustc-env=VHS_GUI_GIT_DIRTY="@ + (if status matches Some(s) && s.len() > 0 {
            "-dirty"@
        } else {
            ""@
        }),
        "cargo:rerun-if-changed=.git/HEAD"@,
        "cargo:rerun-if-changed=.git/index"@,
    ]
}

/// A directive that sets `name` to `value`, or to `unknown`.
fn setting(name: &str, value: Option<String>) -> (r: String)
    ensures
        r@ == name@ + (match value {
            Some(v) => v@,
            None => "unknown"@,
        }),
{
    let mut line = name.to_string();
    match value {
        Some(v) => {
            line.append(v.as_str());
        },
        None => {
            line.append("unknown");
        },
    }
    line
}

/// The directives for the build, given what `git` said about the commit, the
/// branch and the working tree.
pub fn directives(hash: Option<String>, branch: Option<String>, status: Option<String>) -> (r: Vec<
    String,
>)
    ensures
        r@.map_values(|line: String| line@) == spec_directives(
            text::opt_text(hash),
            text::opt_text(branch),
            text::opt_text(status),
        ),
{
    let mut lines: Vec<String> = Vec::new();
    let ghost (h, b, st) = (
        text::opt_text(hash),
        text::opt_text(branch),
        text::opt_text(status),
    );
    lines.push(setting("cargo:rustc-env=VHS_GUI_GIT_HASH=", hash));
    lines.push(setting("cargo:rustc-env=VHS_GUI_GIT_BRANCH=", branch));
    let dirty = match status {
        Some(s) => !s.as_str().is_empty(),
        None => false,
    };
    let mut line = "cargo:rustc-env=VHS_GUI_GIT_DIRTY=".to_string();
    line.append(
        if dirty {
            "-dirty"
        } else {
            ""
        },
    );
    lines.push(line);
    lines.push("cargo:rerun-if-changed=.git/HEAD".to_string());
    lines.push("cargo:rerun-if-changed=.git/index".to_string());
    assert(lines@.map_values(|line: String| line@) =~= spec_directives(h, b, st));
    lines
}

/// A successful run of `git` says what it printed between white space. It says
/// nothing where it failed, printed nothing else or did not print UTF-8.
pub proof fn law_git_answer(
    left: Seq<char>,
    core: Seq<char>,
    right: Seq<char>,
    success: bool,
    stdout: Seq<u8>,
)
    requires
        forall|i: int| 0 <= i < left.len() ==> text::is_white(#[trigger] left[i]),
        forall|i: int| 0 <= i < right.len() ==> text::is_white(#[trigger] right[i]),
        core.len() > 0 ==> !text::is_white(core[0]) && !text::is_white(core.last()),
    ensures
        spec_git_answer(true, vstd::utf8::encode_utf8(left + core + right)) == (if core.len() > 0 {
            Some(core)
        } else {
            None
        }),
        spec_git_answer(false, stdout) is None,
        !vstd::utf8::valid_utf8(stdout) ==> spec_git_answer(success, stdout) is None,
{
    let printed = left + core + right;
    vstd::utf8::encode_utf8_decode_utf8(printed);
    vstd::utf8::encode_utf8_valid_utf8(printed);
    text::law_trim_is_the_core(left, core, right);
}

/// What a build records: the hash and the branch as `git` gave them, each in
/// its own variable, `unknown` where there is none; `-dirty` where the status
/// lists something; and the two files that call for another build.
pub proof fn law_directives(
    hash: Seq<char>,
    branch: Seq<char>,
    status: Seq<char>,
    any_hash: Option<Seq<char>>,
    any_branch: Option<Seq<char>>,
    any_status: Option<Seq<char>>,
)
    ensures
        spec_directives(any_hash, any_branch, any_status).len() == 5,
        spec_directives(Some(hash), any_branch, any_status)[0]
            == "cargo:rustc-env=VHS_GUI_GIT_HASH="@ + hash,
        spec_directives(None, any_branch, any_status)[0]
            == "cargo:rustc-env=VHS_GUI_GIT_HASH="@ + "unknown"@,
        spec_directives(any_hash, Some(branch), any_status)[1]
            == "cargo:rustc-env=VHS_GUI_GIT_BRANCH="@ + branch,
        spec_directives(any_hash, None, any_status)[1]
            == "cargo:rustc-env=VHS_GUI_GIT_BRANCH="@ + "unknown"@,
        status.len() > 0 ==> spec_directives(any_hash, any_branch, Some(status))[2]
            == "cargo:rustc-env=VHS_GUI_GIT_DIRTY="@ + "-dirty"@,
        status.len() == 0 ==> spec_directives(any_hash, any_branch, Some(status))[2]
            == "cargo:rustc-env=VHS_GUI_GIT_DIRTY="@,
        spec_directives(any_hash, any_branch, None)[2] == "cargo:rustc-env=VHS_GUI_GIT_DIRTY="@,
        spec_directives(any_hash, any_branch, any_status)[3]
            == "cargo:rerun-if-changed=.git/HEAD"@,
        spec_directives(any_hash, any_branch, any_status)[4]
            == "cargo:rerun-if-changed=.git/index"@,
{
    reveal_strlit("");
    assert("cargo:rustc-env=VHS_GUI_GIT_DIRTY="@ + ""@ =~= "cargo:rustc-env=VHS_GUI_GIT_DIRTY="@);
}

} // verus!
