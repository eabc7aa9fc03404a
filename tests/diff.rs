use cmux::diff::{
    assemble_entries, is_binary, parse_name_status, parse_numstat, BlobPair, ChangeKind,
    DiffEntry, FileChange, NumstatRow,
};
use cmux::revs::{merge_base_from_output, resolution_plan, RevStep};

fn totals(entries: &[DiffEntry]) -> (i64, i64) {
    (
        entries.iter().map(|e| e.additions as i64).sum(),
        entries.iter().map(|e| e.deletions as i64).sum(),
    )
}

fn text(s: &str) -> Option<Vec<u8>> {
    Some(s.as_bytes().to_vec())
}

#[test]
fn fuzz_diff_stats_match_github_ground_truth() {
    // `git diff -z` output of a pull request with a rename, a binary file, an
    // addition and a modification: 4 + 2 + 1 lines added, 12 deleted.
    let name_status = "M\0README.md\0R087\0src/old.rs\0src/new.rs\0A\0docs/new.md\0M\0logo.png\0";
    let numstat = "4\t12\tREADME.md\x002\t0\t\0src/old.rs\0src/new.rs\0001\t0\tdocs/new.md\0-\t-\tlogo.png\0";
    let changes = parse_name_status(name_status);
    let rows = parse_numstat(numstat);
    assert_eq!(changes.len(), 4);
    assert_eq!(rows.len(), 4);
    let blobs = vec![
        BlobPair { old: text("a\n"), new: text("b\n") },
        BlobPair { old: text("x\n"), new: text("x\ny\n") },
        BlobPair { old: None, new: text("new\n") },
        BlobPair { old: Some(vec![0x89, 0x50, 0x00]), new: Some(vec![0x89, 0x51, 0x00]) },
    ];
    let entries = assemble_entries(&changes, &rows, &blobs, true, 972_800);
    assert_eq!(totals(&entries), (7, 12));
    assert_eq!(entries.len() as i64, 4);
    assert_eq!(entries[1].status, "renamed");
    assert_eq!(entries[1].old_path.as_deref(), Some("src/old.rs"));
    assert!(entries[3].is_binary);
}

#[test]
fn fuzz_merge_commit_inference_matches_github() {
    // `git merge-base` prints the base followed by a newline; the resolver
    // tries a full object id as such first.
    let base = "08db1fe57536b2832a75b8eff5c1955e735157e6";
    assert_eq!(
        merge_base_from_output(&format!("\n  {}\n", base)),
        Some(base.to_string())
    );
    assert_eq!(merge_base_from_output(" \n"), None);
    let plan = resolution_plan(base);
    assert_eq!(plan[0], RevStep::ObjectId(base.to_string()));
}

#[test]
fn name_status_records() {
    let c = parse_name_status("A\0new file.txt\0D\0gone\0T\0link\0C075\0a\0b\0X\0weird\0");
    assert_eq!(
        c,
        vec![
            FileChange { kind: ChangeKind::Added, path: "new file.txt".into(), old_path: None },
            FileChange { kind: ChangeKind::Deleted, path: "gone".into(), old_path: None },
            FileChange { kind: ChangeKind::Modified, path: "link".into(), old_path: None },
            FileChange { kind: ChangeKind::Added, path: "b".into(), old_path: None },
        ]
    );
    assert!(parse_name_status("").is_empty());
}

#[test]
fn numstat_records() {
    let r = parse_numstat("10\t2\ta.rs\0-\t-\tbin\0oops\0");
    assert_eq!(
        r,
        vec![
            NumstatRow { additions: 10, deletions: 2, binary: false, path: "a.rs".into(), old_path: None },
            NumstatRow { additions: 0, deletions: 0, binary: true, path: "bin".into(), old_path: None },
        ]
    );
    let big = parse_numstat("99999999999\t0\tx\0");
    assert_eq!(big[0].additions, i32::MAX);
}

#[test]
fn binary_heuristic() {
    assert!(!is_binary(b"plain text\n"));
    assert!(is_binary(b"a\0b"));
    assert!(is_binary(&[0xff, 0xfe]));
    assert!(!is_binary("héllo".as_bytes()));
    assert!(!is_binary(b""));
}

#[test]
fn entry_contents_and_sizes() {
    let changes = parse_name_status("A\0a.txt\0D\0d.txt\0M\0m.txt\0");
    let rows = parse_numstat("2\t0\ta.txt\x000\t1\td.txt\x001\t1\tm.txt\0");
    let blobs = vec![
        BlobPair { old: None, new: text("1\n2\n") },
        BlobPair { old: text("gone\n"), new: None },
        BlobPair { old: text("aaaa"), new: text("bbbbbb") },
    ];
    let e = assemble_entries(&changes, &rows, &blobs, true, 8);
    assert_eq!((e[0].old_size, e[0].new_size), (Some(0), Some(4)));
    assert_eq!(e[0].old_content.as_deref(), Some(""));
    assert_eq!(e[0].new_content.as_deref(), Some("1\n2\n"));
    assert_eq!(e[1].new_content.as_deref(), Some(""));
    assert_eq!(e[1].deletions, 1);
    // 4 + 6 bytes exceed the bound of 8: sizes stay, text goes.
    assert!(e[2].content_omitted);
    assert_eq!(e[2].old_content, None);
    assert_eq!((e[2].old_size, e[2].new_size), (Some(4), Some(6)));
    assert_eq!((e[2].additions, e[2].deletions), (1, 1));

    let without = assemble_entries(&changes, &rows, &blobs, false, 8);
    assert_eq!(without[0].new_content, None);
    assert_eq!(without[0].new_size, Some(4));
    assert_eq!(without[0].additions, 2);
}

#[test]
fn unreadable_blob_is_binary() {
    let changes = parse_name_status("M\0sub\0");
    let rows = parse_numstat("1\t1\tsub\0");
    let e = assemble_entries(&changes, &rows, &vec![BlobPair { old: None, new: None }], true, 100);
    assert!(e[0].is_binary);
    assert_eq!((e[0].additions, e[0].deletions), (0, 0));
    assert_eq!(e[0].old_content, None);
}

#[test]
fn resolution_order() {
    let plan = resolution_plan("origin/main");
    assert_eq!(
        plan,
        vec![
            RevStep::Reference("refs/remotes/origin/main".into()),
            RevStep::Reference("refs/remotes/origin/origin/main".into()),
            RevStep::RevParse("origin/main".into()),
            RevStep::Reference("refs/heads/origin/main".into()),
            RevStep::Reference("refs/tags/origin/main".into()),
        ]
    );
    assert_eq!(resolution_plan("HEAD")[0], RevStep::Reference("HEAD".into()));
    assert_eq!(resolution_plan("refs/tags/v1")[0], RevStep::Reference("refs/tags/v1".into()));
}

use cmux::diff::{classify_trees, fallback_rows, TreeEntry};
use cmux::merge_base::merge_base_bfs;

fn tree(entries: &[(&str, &str)]) -> Vec<TreeEntry> {
    entries
        .iter()
        .map(|(p, o)| TreeEntry { path: p.to_string(), oid: o.to_string() })
        .collect()
}

#[test]
fn same_tree_has_no_changes() {
    let t = tree(&[("a", "1"), ("b/c", "2")]);
    assert!(classify_trees(&t, &t).is_empty());
}

#[test]
fn tree_classification_pairs_renames_once() {
    let base = tree(&[("keep", "k"), ("mod", "m1"), ("old1", "x"), ("old2", "x"), ("gone", "g")]);
    let head = tree(&[("keep", "k"), ("mod", "m2"), ("new1", "x"), ("fresh", "f")]);
    let mut got: Vec<(ChangeKind, String, Option<String>)> = classify_trees(&base, &head)
        .into_iter()
        .map(|c| (c.kind, c.path, c.old_path))
        .collect();
    got.sort_by(|a, b| a.1.cmp(&b.1));
    assert_eq!(
        got,
        vec![
            (ChangeKind::Added, "fresh".to_string(), None),
            (ChangeKind::Deleted, "gone".to_string(), None),
            (ChangeKind::Modified, "mod".to_string(), None),
            (ChangeKind::Renamed, "new1".to_string(), Some("old1".to_string())),
            (ChangeKind::Deleted, "old2".to_string(), None),
        ]
    );
}

#[test]
fn fallback_counts_lines() {
    let changes = vec![
        FileChange { kind: ChangeKind::Modified, path: "m".into(), old_path: None },
        FileChange { kind: ChangeKind::Added, path: "a".into(), old_path: None },
        FileChange { kind: ChangeKind::Deleted, path: "d".into(), old_path: None },
        FileChange { kind: ChangeKind::Renamed, path: "n".into(), old_path: Some("o".into()) },
    ];
    let blobs = vec![
        BlobPair { old: text("a\nb\nc\n"), new: text("a\nB\nc\nd\n") },
        BlobPair { old: None, new: text("1\n2\n3") },
        BlobPair { old: text("x\n\ny\n"), new: None },
        BlobPair { old: text("same\n"), new: text("same\n") },
    ];
    let rows = fallback_rows(&changes, &blobs);
    let counts: Vec<(i32, i32)> = rows.iter().map(|r| (r.additions, r.deletions)).collect();
    assert_eq!(counts, vec![(2, 1), (3, 0), (0, 3), (0, 0)]);
    let entries = assemble_entries(&changes, &rows, &blobs, true, 1024);
    assert_eq!(totals(&entries), (5, 4));
    assert_eq!(entries[3].old_content, entries[3].new_content);
}

#[test]
fn merge_base_by_breadth_first_search() {
    // 0 <- 1 <- 2 (main), 0 <- 3 <- 4 (feature); 5 stands alone.
    let parents: Vec<Vec<usize>> = vec![vec![], vec![0], vec![1], vec![0], vec![3], vec![]];
    assert_eq!(merge_base_bfs(&parents, 2, 4), 0);
    assert_eq!(merge_base_bfs(&parents, 2, 1), 1);
    assert_eq!(merge_base_bfs(&parents, 2, 2), 2);
    assert_eq!(merge_base_bfs(&parents, 2, 5), 2);
    // A merge: 6 has parents 2 and 4.
    let mut merged = parents.clone();
    merged.push(vec![2, 4]);
    assert_eq!(merge_base_bfs(&merged, 6, 4), 4);
}

#[test]
fn merge_base_prefers_best_common_ancestor() {
    // 0 has parents 1 and 2; 2 has parent 1. Commit 1 is met first from 0,
    // but it is an ancestor of 2, which is the best common ancestor.
    let parents: Vec<Vec<usize>> = vec![vec![1, 2], vec![], vec![1]];
    assert_eq!(merge_base_bfs(&parents, 0, 2), 2);
    assert_eq!(merge_base_bfs(&parents, 2, 0), 2);
}
