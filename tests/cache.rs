use cmux::cache::{
    enforce_cache_limit, repo_action, resolve_repo_url, should_fetch, slug_from_url, touch_index,
    CacheIndexEntry, RepoAction, RepoUrlError, MAX_CACHE_REPOS,
};

#[test]
fn slugs_from_urls() {
    assert_eq!(slug_from_url("https://github.com/manaflow-ai/cmux.git"), "manaflow-ai__cmux");
    assert_eq!(slug_from_url("https://github.com/o/r.git.git"), "o__r");
    assert_eq!(slug_from_url("git@host:repo"), "git_host_repo");
    assert_eq!(slug_from_url("https://github.com/o/r/"), "r__");
}

#[test]
fn repo_urls() {
    assert_eq!(resolve_repo_url(Some("a/b"), Some("file:///x")), Ok("file:///x".to_string()));
    assert_eq!(resolve_repo_url(Some("a/b"), None), Ok("https://github.com/a/b.git".to_string()));
    assert_eq!(resolve_repo_url(None, None), Err(RepoUrlError::Missing));
    assert_eq!(RepoUrlError::Missing.message(), "repoUrl or repoFullName required");
}

#[test]
fn index_keeps_most_recent_first_and_unique() {
    let mut idx: Vec<CacheIndexEntry> = Vec::new();
    idx = touch_index(&idx, &"a".to_string(), &"/c/a".to_string(), 10);
    idx = touch_index(&idx, &"b".to_string(), &"/c/b".to_string(), 20);
    idx = touch_index(&idx, &"a".to_string(), &"/c/a2".to_string(), 30);
    let slugs: Vec<&str> = idx.iter().map(|e| e.slug.as_str()).collect();
    assert_eq!(slugs, vec!["a", "b"]);
    assert_eq!(idx[0].path, "/c/a2");
    assert_eq!(idx[0].last_access_ms, 30);
}

#[test]
fn cache_capacity_after_many_repos() {
    let mut idx: Vec<CacheIndexEntry> = Vec::new();
    let mut removed = Vec::new();
    for n in 0..25u128 {
        let slug = format!("o__r{}", n);
        idx = touch_index(&idx, &slug, &format!("/cache/{}", slug), 1000 + n);
        let (keep, victims) = enforce_cache_limit(&idx);
        removed.extend(victims.into_iter().map(|v| v.slug));
        idx = keep;
    }
    assert_eq!(idx.len(), MAX_CACHE_REPOS);
    assert_eq!(idx[0].slug, "o__r24");
    assert_eq!(removed, vec!["o__r0", "o__r1", "o__r2", "o__r3", "o__r4"]);
}

#[test]
fn fetch_window_and_actions() {
    assert!(should_fetch(None, 5, 5000));
    assert!(!should_fetch(Some(1000), 5999, 5000));
    assert!(should_fetch(Some(1000), 6000, 5000));
    assert!(!should_fetch(Some(7000), 6000, 5000));
    assert_eq!(repo_action(false, false), RepoAction::Clone);
    assert_eq!(repo_action(true, false), RepoAction::Reclone);
    assert_eq!(repo_action(true, true), RepoAction::Fetch);
}
