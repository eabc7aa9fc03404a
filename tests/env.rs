use cmux::env::{escape_sh, parse_dotenv, socket_path, Scope, ShellKind, State};

#[test]
fn set_unset_and_effective_values() {
    let mut st = State::new();
    assert!(st.set(Scope::Global, "A".into(), "1".into()));
    assert!(!st.set(Scope::Global, "A".into(), "1".into()));
    assert!(st.set(Scope::Dir("/p".into()), "A".into(), "2".into()));
    assert!(st.set(Scope::Dir("/p/q".into()), "B".into(), "3".into()));
    assert_eq!(st.generation, 3);
    assert_eq!(st.get_effective("A", "/p/q/r"), Some("1".to_string()));
    assert_eq!(st.get_effective("A", "/p/x"), Some("2".to_string()));
    assert_eq!(st.get_effective("A", "/px"), Some("1".to_string()));
    assert_eq!(st.get_effective("B", "/p/q"), Some("3".to_string()));
    assert!(st.unset(Scope::Global, "A".into()));
    assert!(!st.unset(Scope::Global, "A".into()));
    assert_eq!(st.get_effective("A", "/elsewhere"), None);
    assert!(st.unset(Scope::Dir("/p".into()), "A".into()));
    assert!(!st.unset(Scope::Dir("/none".into()), "A".into()));
    assert_eq!(st.history.len(), 5);
}

#[test]
fn load_sets_in_order() {
    let mut st = State::new();
    st.load(Scope::Global, vec![("K".into(), "a".into()), ("K".into(), "b".into())]);
    assert_eq!(st.get_effective("K", "/"), Some("b".to_string()));
    assert_eq!(st.generation, 2);
}

#[test]
fn export_script_for_shells() {
    let mut st = State::new();
    st.set(Scope::Global, "A".into(), "it's".into());
    st.set(Scope::Global, "B".into(), "x".into());
    st.unset(Scope::Global, "B".into());
    let (bash, g) = st.export_since(ShellKind::Bash, 0, "/");
    assert_eq!(g, 3);
    assert_eq!(bash, "unset -v B\nexport A='it'\\''s'\nexport ENVCTL_GEN=3\n");
    let (fish, _) = st.export_since(ShellKind::Fish, 1, "/");
    assert_eq!(fish, "set -e B\nset -x ENVCTL_GEN 3\n");
    let (none, g3) = st.export_since(ShellKind::Zsh, 3, "/");
    assert_eq!((none.as_str(), g3), ("export ENVCTL_GEN=3\n", 3));
}

#[test]
fn dotenv_lines() {
    let pairs = parse_dotenv("# comment\n A=1 \r\n\nB==x\n=skip\nnoeq\nC=\n");
    assert_eq!(
        pairs,
        vec![
            ("A".to_string(), "1".to_string()),
            ("B".to_string(), "=x".to_string()),
            ("C".to_string(), String::new()),
        ]
    );
}

#[test]
fn shell_escaping_and_socket() {
    assert_eq!(escape_sh("a'b"), "a'\\''b");
    assert_eq!(socket_path(Some("/run/user/1")), "/run/user/1/cmux-envd/envd.sock");
    assert_eq!(socket_path(Some("")), "/tmp/cmux-envd/envd.sock");
    assert_eq!(socket_path(None), "/tmp/cmux-envd/envd.sock");
    assert_eq!(socket_path(Some("/r/")), "/r/cmux-envd/envd.sock");
}
