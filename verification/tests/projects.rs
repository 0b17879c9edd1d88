//! Worktree sets, project roots and the names of directories.

use snapback::paths::{called, file_name};
use snapback::worktrees::{
    git_worktree_argv, listed_paths, parse_porcelain, project_root, project_root_name,
    resolved_or_raw, set_from_output, set_from_run, WorktreeSet,
};

const SAMPLE: &str = "\
worktree /Volumes/Development/ilfroloff/snapback
HEAD 24505baa75d87a6a4deb40fc1e6d0fef409457b0
branch refs/heads/main

worktree /Volumes/Development/ilfroloff/snapback/.agents/worktrees/cross-worktree-project-scope
HEAD 24505baa75d87a6a4deb40fc1e6d0fef409457b0
branch refs/heads/cross-worktree-project-scope

HEAD f60190a2f5d7518b479816918ec3b20a31dd84b0
detached

worktree /Volumes/Development/ilfroloff/snapback/.agents/worktrees/feature/quick-send-reply-to-session
HEAD f60190a2f5d7518b479816918ec3b20a31dd84b0
branch refs/heads/feature/quick-send-reply-to-session
";

const MAIN: &str = "/Volumes/Development/ilfroloff/snapback";
const WT_SCOPE: &str =
    "/Volumes/Development/ilfroloff/snapback/.agents/worktrees/cross-worktree-project-scope";
const WT_REPLY: &str = "/Volumes/Development/ilfroloff/snapback/.agents/worktrees/feature/quick-send-reply-to-session";

fn as_is(path: &[u8]) -> Vec<u8> {
    path.to_vec()
}

fn bytes(path: &str) -> Vec<u8> {
    path.as_bytes().to_vec()
}

/// The part of a path before a directory of worktrees.
fn repo_root_of(path: &[u8]) -> Vec<u8> {
    let text = String::from_utf8_lossy(path).into_owned();
    for marker in ["/.agents/worktrees/", "/.wtp/worktrees/"] {
        if let Some(at) = text.find(marker) {
            return text.as_bytes()[..at].to_vec();
        }
    }
    path.to_vec()
}

fn repo_of(root: &[u8]) -> String {
    called(&repo_root_of(root))
}

#[test]
fn multi_worktree_porcelain_parses_every_root_and_labels_from_the_main_worktree() {
    let set = parse_porcelain(SAMPLE, as_is, repo_of);

    assert!(
        set == WorktreeSet::from_resolved(
            vec![bytes(MAIN), bytes(WT_SCOPE), bytes(WT_REPLY)],
            Some("snapback".to_string()),
        ),
        "every `worktree <path>` line is a root of the same project"
    );
    assert!(set.contains(WT_SCOPE.as_bytes()), "a sibling worktree is in");
    assert!(
        !set.contains(b"/Volumes/Development/ilfroloff/other-project"),
        "an unrelated repo must never be in the project's set"
    );
    assert_eq!(
        set.label(),
        Some("snapback"),
        "the label names the project, i.e. the main worktree's repo label"
    );
    assert!(!set.is_empty(), "a parsed set carries signal");
}

#[test]
fn a_record_without_a_worktree_line_is_skipped() {
    let set = parse_porcelain(SAMPLE, as_is, repo_of);

    assert!(
        !set.contains(b"f60190a2f5d7518b479816918ec3b20a31dd84b0"),
        "a `HEAD`/`detached` record has no path, so it adds no root"
    );
    assert!(
        set.contains(WT_REPLY.as_bytes()),
        "the record AFTER the skipped one must still parse"
    );
}

#[test]
fn malformed_or_empty_input_yields_an_empty_set() {
    for input in [
        "",
        "\n\n\n",
        "not porcelain at all\n",
        "worktree\n",
        "worktree \n",
    ] {
        let set = parse_porcelain(input, as_is, repo_of);
        assert!(
            set == WorktreeSet::empty(),
            "unparseable input must degrade to the empty set, not a root: {input:?}"
        );
        assert!(set.is_empty());
        assert_eq!(set.label(), None, "no main worktree -> no project label");
    }
}

#[test]
fn argv_is_git_dash_c_launch_dir_worktree_list_porcelain() {
    let expected: Vec<Vec<u8>> = [
        "git",
        "-C",
        "/Users/me/acme/web",
        "worktree",
        "list",
        "--porcelain",
    ]
    .iter()
    .map(|word| bytes(word))
    .collect();

    assert_eq!(git_worktree_argv(b"/Users/me/acme/web"), expected);
    assert_eq!(git_worktree_argv(b"/tmp/\xff")[2], b"/tmp/\xff".to_vec());
}

#[test]
fn a_non_zero_git_exit_is_no_signal() {
    assert!(set_from_output(false, SAMPLE.as_bytes(), as_is, repo_of) == WorktreeSet::empty());
    assert!(set_from_output(true, SAMPLE.as_bytes(), as_is, repo_of) != WorktreeSet::empty());
}

#[test]
fn non_utf8_git_output_is_no_signal() {
    assert!(
        set_from_output(true, b"worktree /Users/me/acme/web\xff\n", as_is, repo_of)
            == WorktreeSet::empty()
    );
    assert!(
        !set_from_output(true, b"worktree /Users/me/acme/web\n", as_is, repo_of).is_empty()
    );
}

#[test]
fn listed_paths_lose_what_trails_them() {
    assert_eq!(
        listed_paths("worktree /a \r\nworktree\t/b\nworktree /c/d e\n"),
        vec!["/a", "/c/d e"]
    );
}

#[test]
fn every_path_is_resolved_before_it_is_held() {
    let resolve = |path: &[u8]| -> Vec<u8> {
        let mut out = b"/private".to_vec();
        out.extend_from_slice(path);
        out
    };
    let set = parse_porcelain("worktree /tmp/a\nworktree /tmp/b\n", resolve, repo_of);
    assert!(set.contains(b"/private/tmp/a"));
    assert!(set.contains(b"/private/tmp/b"));
    assert!(!set.contains(b"/tmp/a"));
    assert_eq!(set.label(), Some("a"), "the first record names the project");
}

#[test]
fn sets_are_the_same_whatever_their_order() {
    let ab = WorktreeSet::from_resolved(vec![bytes("/a"), bytes("/b"), bytes("/a")], None);
    let ba = WorktreeSet::from_resolved(vec![bytes("/b"), bytes("/a")], None);
    let named = WorktreeSet::from_resolved(vec![bytes("/b"), bytes("/a")], Some("x".to_string()));
    assert!(ab == ba);
    assert!(ba != named);
    assert!(ab != WorktreeSet::from_resolved(vec![bytes("/a")], None));
    assert!(named.clone() == named);
    assert!(WorktreeSet::default() == WorktreeSet::empty());
}

#[test]
fn a_root_is_derived_before_it_is_resolved() {
    let resolve = |path: &[u8]| -> Vec<u8> {
        if path == b"/link/acme-repo" {
            b"/real/acme-repo".to_vec()
        } else {
            path.to_vec()
        }
    };
    let gone = b"/link/acme-repo/.wtp/worktrees/feature/gone";
    assert_eq!(project_root(gone, repo_root_of, resolve), b"/real/acme-repo".to_vec());
    assert_eq!(
        project_root(gone, repo_root_of, resolve),
        project_root(b"/link/acme-repo", repo_root_of, resolve)
    );
}

#[test]
fn a_project_is_named_after_its_repo_root_not_the_worktree_launched_from() {
    assert_eq!(
        project_root_name(
            b"/Volumes/Development/ilfroloff/snapback/.agents/worktrees/feature/quick-send",
            repo_root_of,
        ),
        "snapback",
        "the launch dir is called `quick-send`; the PROJECT is `snapback`"
    );
    assert_eq!(
        project_root_name(b"/Volumes/Development/ilfroloff/snapback", repo_root_of),
        "snapback",
        "a plain checkout is its own root, so nothing changes there"
    );
    assert_eq!(
        project_root_name(b"/", repo_root_of),
        "/",
        "no final component -> named by the whole path"
    );
}

#[test]
fn a_directory_is_called_by_its_last_component() {
    assert_eq!(file_name(b"/a/b"), Some(b"b".to_vec()));
    assert_eq!(file_name(b"/a/b/"), Some(b"b".to_vec()));
    assert_eq!(file_name(b"a/b//./"), Some(b"b".to_vec()));
    assert_eq!(file_name(b"/a/.."), None);
    assert_eq!(file_name(b"."), None);
    assert_eq!(file_name(b"./."), None);
    assert_eq!(file_name(b""), None);
    assert_eq!(file_name(b"/."), None);
    assert_eq!(file_name(b".hidden"), Some(b".hidden".to_vec()));
    assert_eq!(file_name(b"a/..b"), Some(b"..b".to_vec()));
    assert_eq!(called(b"/tmp/\xff"), "\u{FFFD}");
    assert_eq!(called(b"/"), "/");
}

#[test]
fn a_run_that_could_not_be_started_is_no_signal() {
    assert!(set_from_run(None, as_is, repo_of) == WorktreeSet::empty());
    assert!(set_from_run(Some((false, SAMPLE.as_bytes())), as_is, repo_of).is_empty());
    assert!(set_from_run(Some((true, SAMPLE.as_bytes())), as_is, repo_of).contains(MAIN.as_bytes()));
}

#[test]
fn a_directory_that_is_gone_keeps_its_spelling() {
    assert_eq!(resolved_or_raw(b"/tmp/gone", None), b"/tmp/gone".to_vec());
    assert_eq!(resolved_or_raw(b"/tmp", Some(b"/private/tmp".to_vec())), b"/private/tmp".to_vec());
}
