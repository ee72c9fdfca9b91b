use braid::git::{
    branch_exists, current_branch, diff_content, diff_files, diff_stat, has_remote,
    has_remote_branch, is_clean, parse_diff, parse_diff_output, parse_hunk_header, parse_range,
    stash_count, stash_pop, stash_push, DiffLine, FileDiff, FileStatus,
};

#[test]
fn test_parse_diff_output_empty() {
    let files = parse_diff_output("", "").unwrap();
    assert!(files.is_empty());
}

#[test]
fn test_parse_diff_output_simple() {
    let numstat = "3\t1\tfile.txt\n";
    let name_status = "M\tfile.txt\n";

    let files = parse_diff_output(numstat, name_status).unwrap();

    assert_eq!(files.len(), 1);
    assert_eq!(files[0].path, "file.txt");
    assert_eq!(files[0].status, FileStatus::Modified);
    assert_eq!(files[0].insertions, 3);
    assert_eq!(files[0].deletions, 1);
}

#[test]
fn test_parse_diff_output_binary_file() {
    // binary files show "-" for stats
    let numstat = "-\t-\timage.png\n";
    let name_status = "A\timage.png\n";

    let files = parse_diff_output(numstat, name_status).unwrap();

    assert_eq!(files.len(), 1);
    assert_eq!(files[0].path, "image.png");
    assert_eq!(files[0].status, FileStatus::Added);
    assert_eq!(files[0].insertions, 0);
    assert_eq!(files[0].deletions, 0);
}

#[test]
fn test_file_status_from_char() {
    assert_eq!(FileStatus::from_char('A'), FileStatus::Added);
    assert_eq!(FileStatus::from_char('M'), FileStatus::Modified);
    assert_eq!(FileStatus::from_char('D'), FileStatus::Deleted);
    assert_eq!(FileStatus::from_char('R'), FileStatus::Renamed);
    assert_eq!(FileStatus::from_char('C'), FileStatus::Copied);
    assert_eq!(FileStatus::from_char('?'), FileStatus::Unknown);
}

#[test]
fn test_parse_diff_empty() {
    let diffs = parse_diff("");
    assert!(diffs.is_empty());
}

#[test]
fn test_parse_diff_simple() {
    let diff = r#"diff --git a/file.txt b/file.txt
index abc123..def456 100644
--- a/file.txt
+++ b/file.txt
@@ -1,3 +1,4 @@
 line1
-old line
+new line
+added line
 line3
"#;

    let diffs = parse_diff(diff);

    assert_eq!(diffs.len(), 1);
    assert_eq!(diffs[0].path, "file.txt");
    assert_eq!(diffs[0].hunks.len(), 1);

    let hunk = &diffs[0].hunks[0];
    assert_eq!(hunk.old_start, 1);
    assert_eq!(hunk.old_count, 3);
    assert_eq!(hunk.new_start, 1);
    assert_eq!(hunk.new_count, 4);

    assert_eq!(hunk.lines.len(), 5);
    assert_eq!(hunk.lines[0], DiffLine::Context("line1".to_string()));
    assert_eq!(hunk.lines[1], DiffLine::Remove("old line".to_string()));
    assert_eq!(hunk.lines[2], DiffLine::Add("new line".to_string()));
    assert_eq!(hunk.lines[3], DiffLine::Add("added line".to_string()));
    assert_eq!(hunk.lines[4], DiffLine::Context("line3".to_string()));
}

#[test]
fn test_parse_diff_multiple_hunks() {
    let diff = r#"diff --git a/file.txt b/file.txt
--- a/file.txt
+++ b/file.txt
@@ -1,2 +1,2 @@
-old1
+new1
@@ -10,2 +10,2 @@
-old2
+new2
"#;

    let diffs = parse_diff(diff);

    assert_eq!(diffs.len(), 1);
    assert_eq!(diffs[0].hunks.len(), 2);

    assert_eq!(diffs[0].hunks[0].old_start, 1);
    assert_eq!(diffs[0].hunks[1].old_start, 10);
}

#[test]
fn test_parse_diff_multiple_files() {
    let diff = r#"diff --git a/file1.txt b/file1.txt
--- a/file1.txt
+++ b/file1.txt
@@ -1 +1 @@
-old
+new
diff --git a/file2.txt b/file2.txt
--- a/file2.txt
+++ b/file2.txt
@@ -1 +1 @@
-foo
+bar
"#;

    let diffs = parse_diff(diff);

    assert_eq!(diffs.len(), 2);
    assert_eq!(diffs[0].path, "file1.txt");
    assert_eq!(diffs[1].path, "file2.txt");
}

#[test]
fn test_parse_hunk_header_with_counts() {
    let hunk = parse_hunk_header("@@ -10,5 +20,8 @@ some context").unwrap();
    assert_eq!(hunk.old_start, 10);
    assert_eq!(hunk.old_count, 5);
    assert_eq!(hunk.new_start, 20);
    assert_eq!(hunk.new_count, 8);
}

#[test]
fn test_parse_hunk_header_without_counts() {
    // single line changes don't have counts
    let hunk = parse_hunk_header("@@ -1 +1 @@").unwrap();
    assert_eq!(hunk.old_start, 1);
    assert_eq!(hunk.old_count, 1);
    assert_eq!(hunk.new_start, 1);
    assert_eq!(hunk.new_count, 1);
}

#[test]
fn test_parse_range() {
    assert_eq!(parse_range("10,5"), (10, 5));
    assert_eq!(parse_range("1"), (1, 1));
    assert_eq!(parse_range("42,100"), (42, 100));
}

#[test]
fn parse_diff_output_keeps_renames() {
    let numstat = "2\t0\told.txt => new.txt\n";
    let name_status = "R100\told.txt\tnew.txt\n";
    let files = parse_diff_output(numstat, name_status).unwrap();
    assert_eq!(files.len(), 1);
    assert_eq!(files[0].path, "new.txt");
    assert_eq!(files[0].old_path, Some("old.txt".to_string()));
    assert_eq!(files[0].status, FileStatus::Renamed);
    assert_eq!(files[0].insertions, 2);
}

#[test]
fn parse_diff_output_defaults_to_modified() {
    let files = parse_diff_output("1\t1\tx.rs\n", "").unwrap();
    assert_eq!(files[0].status, FileStatus::Modified);
    assert_eq!(files[0].old_path, None);
}

#[test]
fn diff_stat_sums_files() {
    let files = vec![
        FileDiff { path: "a".into(), old_path: None, status: FileStatus::Added, insertions: 3, deletions: 0 },
        FileDiff { path: "b".into(), old_path: None, status: FileStatus::Modified, insertions: 1, deletions: 1 },
    ];
    let stat = diff_stat(&files);
    assert_eq!(stat.files_changed, 2);
    assert_eq!(stat.insertions, 4);
    assert_eq!(stat.deletions, 1);
    let empty = diff_stat(&[]);
    assert_eq!(empty.files_changed, 0);
}

#[test]
fn git_output_readers() {
    assert!(is_clean(""));
    assert!(is_clean("  \n"));
    assert!(!is_clean(" M README.md\n"));
    assert_eq!(current_branch("main\n").unwrap(), "main");
    assert_eq!(
        current_branch("  \n").unwrap_err().to_text(),
        "failed to get current branch"
    );
    assert_eq!(stash_count(""), 0);
    assert_eq!(stash_count("stash@{0}: WIP\nstash@{1}: WIP\n"), 2);
    assert!(stash_push(0, true, 1).unwrap());
    assert!(!stash_push(1, true, 1).unwrap());
    assert_eq!(stash_push(0, false, 0).unwrap_err().to_text(), "failed to stash changes");
}

#[test]
fn git_command_arguments() {
    assert_eq!(has_remote("origin"), vec!["remote", "get-url", "origin"]);
    assert_eq!(has_remote_branch("origin", "main"), vec!["rev-parse", "--verify", "origin/main"]);
    assert_eq!(branch_exists("dev"), vec!["rev-parse", "--verify", "dev"]);
    assert_eq!(stash_pop(), vec!["stash", "pop"]);
    let (a, b) = diff_files(Some("main"), Some("HEAD"));
    assert_eq!(a, vec!["diff", "--numstat", "--find-renames", "main..HEAD"]);
    assert_eq!(b, vec!["diff", "--name-status", "--find-renames", "main..HEAD"]);
    let (c, _) = diff_files(None, None);
    assert_eq!(c, vec!["diff", "--numstat", "--find-renames"]);
    assert_eq!(
        diff_content(None, Some("HEAD"), Some("README.md")),
        vec!["diff", "-U3", "HEAD", "--", "README.md"]
    );
    assert_eq!(diff_content(Some("base"), None, None), vec!["diff", "-U3", "base"]);
}
