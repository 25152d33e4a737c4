use cearch::repo::find_git_root;
use cearch::repo::gitignore_has_entry;
use cearch::repo::gitignore_without_entry;
use cearch::repo::line_marks_index_dir;
use cearch::repo::parse_tracked_paths;
use cearch::repo::relative_to;

#[test]
fn returns_none_for_non_repo_paths() {
    // This test is heuristic and may run in various environments. We pick a
    // path that is unlikely to be inside a Git repo: the filesystem root.
    // If it is, the assertion will be skipped.
    let root = "/";

    if find_git_root(root).is_some() {
        // Environment happens to be a repo at root; skip to avoid false failure
        return;
    }

    assert!(find_git_root(root).is_none());
}

#[test]
fn tracked_paths_are_split_on_nul_and_joined_to_the_root() {
    let out = b"a.py\0src/b.rs\0";
    let paths = parse_tracked_paths("/repo", out);
    assert_eq!(paths, vec!["/repo/a.py".to_string(), "/repo/src/b.rs".to_string()]);
}

#[test]
fn empty_chunks_in_tracked_output_are_dropped() {
    let out = b"\0\0a\0\0";
    let paths = parse_tracked_paths("/repo", out);
    assert_eq!(paths, vec!["/repo/a".to_string()]);
}

#[test]
fn tracked_output_without_trailing_nul_still_parses() {
    let out = b"only-one";
    let paths = parse_tracked_paths("/r", out);
    assert_eq!(paths, vec!["/r/only-one".to_string()]);
}

#[test]
fn empty_tracked_output_means_no_files() {
    let paths = parse_tracked_paths("/repo", b"");
    assert_eq!(paths.len(), 0);
}

#[test]
fn paths_under_the_root_are_relativised() {
    assert_eq!(relative_to("/repo", "/repo/src/a.py"), "src/a.py");
    assert_eq!(relative_to("/repo", "/repo/x"), "x");
}

#[test]
fn paths_outside_the_root_are_kept_as_they_are() {
    assert_eq!(relative_to("/repo", "/other/x"), "/other/x");
    assert_eq!(relative_to("/repo", "/repo"), "/repo");
    assert_eq!(relative_to("/repo", "/repository/x"), "/repository/x");
}

#[test]
fn gitignore_entry_is_found_whatever_its_surroundings() {
    assert!(gitignore_has_entry(".cearch/\n"));
    assert!(gitignore_has_entry("target/\n.cearch\nbuild/\n"));
    assert!(gitignore_has_entry("  .cearch/  \n"));
    assert!(gitignore_has_entry("\t.cearch\r\n"));
    assert!(!gitignore_has_entry(""));
    assert!(!gitignore_has_entry("target/\nbuild/\n"));
    assert!(!gitignore_has_entry("my.cearch/\n"));
    assert!(!gitignore_has_entry(".cearch/extra\n"));
}

#[test]
fn gitignore_scrub_removes_exactly_the_entry_lines() {
    assert_eq!(gitignore_without_entry("target/\n.cearch/\nbuild/\n"), "target/\nbuild/\n");
    assert_eq!(gitignore_without_entry(".cearch/\n"), "");
    assert_eq!(gitignore_without_entry(".cearch\n .cearch/ \n"), "");
    assert_eq!(gitignore_without_entry("a\nb\n"), "a\nb\n");
    assert_eq!(gitignore_without_entry("a\n.cearch"), "a\n");
    assert_eq!(gitignore_without_entry(""), "");
}

#[test]
fn line_test_trims_blanks_only() {
    assert!(line_marks_index_dir(".cearch"));
    assert!(line_marks_index_dir("  .cearch/ "));
    assert!(!line_marks_index_dir("x .cearch"));
    assert!(!line_marks_index_dir(".cearch/x"));
}
