use porcelain::exec::{discard_step, DiscardStep};
use porcelain::fs::Canonical;
use porcelain::model::{DiffLineKind, FileChangeKind, FileDiff, RefKind};
use porcelain::read::{
    classify_ref, file_diff, summarize, unborn_name, DeltaFacts, DeltaStatus, LineFacts, RawHunk,
    RawLine,
};

fn delta(status: DeltaStatus, new_path: Option<&str>, old_path: Option<&str>) -> DeltaFacts {
    DeltaFacts {
        status,
        new_path: new_path.map(str::to_owned),
        old_path: old_path.map(str::to_owned),
        binary: false,
    }
}

fn line(path: &str, origin: char) -> LineFacts {
    LineFacts { new_path: Some(path.to_owned()), old_path: None, origin }
}

#[test]
fn diffstat_counts_per_file_and_in_total() {
    let deltas = [
        delta(DeltaStatus::Modified, Some("a.rs"), Some("a.rs")),
        delta(DeltaStatus::Renamed, Some("new.rs"), Some("old.rs")),
        delta(DeltaStatus::Deleted, None, Some("gone.rs")),
    ];
    let lines = [
        line("a.rs", '+'),
        line("a.rs", '+'),
        line("a.rs", '-'),
        line("a.rs", ' '),
        line("new.rs", '+'),
        LineFacts { new_path: None, old_path: Some("gone.rs".to_owned()), origin: '-' },
    ];
    let (insertions, deletions, files) = summarize(&deltas, &lines);
    assert_eq!((insertions, deletions), (3, 2));
    assert_eq!(files.len(), 3);
    assert_eq!((files[0].path.as_str(), files[0].insertions, files[0].deletions), ("a.rs", 2, 1));
    assert_eq!(files[0].old_path, None);
    assert_eq!(files[1].kind, FileChangeKind::Renamed);
    assert_eq!(files[1].old_path.as_deref(), Some("old.rs"));
    assert_eq!(files[2].path, "gone.rs");
    assert_eq!(files[2].kind, FileChangeKind::Deleted);
    assert_eq!(files[2].deletions, 1);
}

#[test]
fn a_copy_onto_itself_keeps_no_old_path_and_odd_statuses_read_as_modified() {
    let deltas = [
        delta(DeltaStatus::Copied, Some("same.rs"), Some("same.rs")),
        delta(DeltaStatus::Untracked, Some("x.rs"), None),
    ];
    let (_, _, files) = summarize(&deltas, &[]);
    assert_eq!(files[0].old_path, None);
    assert_eq!(files[1].kind, FileChangeKind::Modified);
}

#[test]
fn refs_are_sorted_into_branches_remotes_and_tags() {
    assert_eq!(
        classify_ref("refs/heads/main", Some("main")),
        Some((RefKind::Branch, "main".to_owned(), true))
    );
    assert_eq!(
        classify_ref("refs/heads/feature/x", Some("main")),
        Some((RefKind::Branch, "feature/x".to_owned(), false))
    );
    assert_eq!(
        classify_ref("refs/remotes/origin/main", Some("main")),
        Some((RefKind::Remote, "origin/main".to_owned(), false))
    );
    assert_eq!(classify_ref("refs/tags/v1.0", None), Some((RefKind::Tag, "v1.0".to_owned(), false)));
    assert_eq!(classify_ref("refs/stash", Some("main")), None);
}

#[test]
fn an_unborn_head_names_its_branch_or_falls_back_to_head() {
    assert_eq!(unborn_name(Some("refs/heads/trunk")), "trunk");
    assert_eq!(unborn_name(Some("refs/tags/odd")), "HEAD");
    assert_eq!(unborn_name(None), "HEAD");
}

fn raw(origin: char, old: Option<u32>, new: Option<u32>, content: &[u8]) -> RawLine {
    RawLine { origin, old_lineno: old, new_lineno: new, content: content.to_vec() }
}

#[test]
fn a_patch_becomes_hunks_line_for_line() {
    let hunks = [RawHunk {
        header: b"@@ -1,2 +1,2 @@ fn main\n".to_vec(),
        lines: vec![
            raw(' ', Some(1), Some(1), b"keep\n"),
            raw('-', Some(2), None, b"old\n"),
            raw('+', None, Some(2), b"new\n\n"),
        ],
    }];
    match file_diff(false, &hunks) {
        FileDiff::Text { hunks } => {
            assert_eq!(hunks.len(), 1);
            assert_eq!(hunks[0].header, "@@ -1,2 +1,2 @@ fn main");
            let lines = &hunks[0].lines;
            assert_eq!(lines[0].kind, DiffLineKind::Context);
            assert_eq!(lines[1].kind, DiffLineKind::Deletion);
            assert_eq!(lines[1].new_lineno, None);
            assert_eq!(lines[2].kind, DiffLineKind::Addition);
            assert_eq!(lines[2].content, "new");
        }
        other => panic!("expected text, got {other:?}"),
    }
}

#[test]
fn binary_and_legacy_encodings_have_no_hunks() {
    assert!(matches!(file_diff(true, &[]), FileDiff::Binary));
    let hunks = [RawHunk {
        header: b"@@ -1 +1 @@\n".to_vec(),
        lines: vec![raw('+', None, Some(1), b"ol\xe1\n")],
    }];
    assert!(matches!(file_diff(false, &hunks), FileDiff::NotUtf8));
}

#[test]
fn discarding_only_removes_files_inside_the_repository() {
    let found = |path: &str, is_dir: bool| Canonical::Found { path: path.to_owned(), is_dir };
    assert_eq!(discard_step(Some("/r"), found("/r/a.txt", false)), DiscardStep::Remove("/r/a.txt".to_owned()));
    assert_eq!(discard_step(Some("/r"), found("/etc/passwd", false)), DiscardStep::Skip);
    assert_eq!(discard_step(Some("/r"), found("/rx/a.txt", false)), DiscardStep::Skip);
    assert_eq!(discard_step(Some("/r"), found("/r/dir", true)), DiscardStep::Skip);
    assert_eq!(discard_step(Some("/r"), Canonical::Missing), DiscardStep::Skip);
    assert_eq!(discard_step(None, found("/r/a.txt", false)), DiscardStep::RepositoryGone);
}

#[test]
fn a_file_is_found_by_its_new_path_or_for_the_worktree_by_either() {
    let deltas = [
        delta(DeltaStatus::Modified, Some("a.rs"), Some("a.rs")),
        delta(DeltaStatus::Renamed, Some("new.rs"), Some("old.rs")),
    ];
    assert_eq!(porcelain::read::delta_position(&deltas, "new.rs", false), Some(1));
    assert_eq!(porcelain::read::delta_position(&deltas, "old.rs", false), None);
    assert_eq!(porcelain::read::delta_position(&deltas, "old.rs", true), Some(1));
    assert_eq!(porcelain::read::delta_position(&deltas, "zzz.rs", true), None);
}
