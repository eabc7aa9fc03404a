use cmux::files::{detect_origin_head_branch, parse_ls_tree, rank_paths};

#[test]
fn default_branch_detection() {
    assert_eq!(
        detect_origin_head_branch(Some("refs/remotes/origin/main\n"), None),
        Some("main".to_string())
    );
    assert_eq!(
        detect_origin_head_branch(Some("refs/remotes/origin/HEAD\n"), Some("origin/dev\n")),
        Some("dev".to_string())
    );
    assert_eq!(detect_origin_head_branch(None, Some("origin/HEAD")), None);
    assert_eq!(detect_origin_head_branch(None, None), None);
}

#[test]
fn ls_tree_paths_and_ranking() {
    let paths = parse_ls_tree("src/main.ts\nREADME.md\n\ndocs/guide.md\n");
    assert_eq!(paths, vec!["src/main.ts", "README.md", "docs/guide.md"]);
    let by_path: Vec<String> = rank_paths(&paths, None).into_iter().map(|(_, p)| p).collect();
    assert_eq!(by_path, vec!["README.md", "docs/guide.md", "src/main.ts"]);
    let blank: Vec<String> = rank_paths(&paths, Some("  ")).into_iter().map(|(_, p)| p).collect();
    assert_eq!(blank, by_path);
    let fuzzy = rank_paths(&paths, Some("rdme"));
    assert!(!fuzzy.is_empty());
    assert_eq!(fuzzy[0].1, "README.md");
    assert!(fuzzy.windows(2).all(|w| w[0].0 >= w[1].0));
}
