use opus::workspace::{
    ensure_in_workspace, line_count, node_sort_key, should_skip, sort_workspace_nodes,
    WorkspaceNode, WorkspaceNodeKind,
};
use std::cmp::Ordering;

fn node(name: &str, kind: WorkspaceNodeKind) -> WorkspaceNode {
    WorkspaceNode { name: name.to_string(), path: name.to_string(), kind, children: Vec::new() }
}

#[test]
fn skips_tooling_directories() {
    assert!(should_skip(".git"));
    assert!(should_skip("target"));
    assert!(should_skip("node_modules"));
    assert!(!should_skip("src"));
    assert!(!should_skip("Target"));
}

#[test]
fn counts_lines_like_str_lines() {
    for text in ["", "a", "a\n", "a\nb", "\n", "a\n\n", "a\r\nb\r\n", "\n\n\n", "é\nü"] {
        assert_eq!(line_count(text), text.lines().count(), "{text:?}");
    }
}

#[test]
fn directories_sort_first_then_lowercase_names() {
    let a = node("b.rs", WorkspaceNodeKind::File);
    let b = node("Zeta", WorkspaceNodeKind::Directory);
    assert_eq!(node_sort_key(&b, &a), Ordering::Less);
    assert_eq!(node_sort_key(&a, &b), Ordering::Greater);
    let c = node("README.md", WorkspaceNodeKind::File);
    let d = node("readme.md", WorkspaceNodeKind::File);
    assert_eq!(node_sort_key(&c, &d), Ordering::Equal);
    assert_eq!(node_sort_key(&a, &c), Ordering::Less);
}

#[test]
fn sort_is_stable_and_ordered() {
    let nodes = vec![
        node("src", WorkspaceNodeKind::Directory),
        node("README.md", WorkspaceNodeKind::File),
        node("Cargo.toml", WorkspaceNodeKind::File),
        node("readme.md", WorkspaceNodeKind::File),
        node("app", WorkspaceNodeKind::Directory),
        node("Docs", WorkspaceNodeKind::Directory),
    ];
    let sorted = sort_workspace_nodes(nodes);
    let names: Vec<&str> = sorted.iter().map(|n| n.name.as_str()).collect();
    assert_eq!(names, vec!["app", "Docs", "src", "Cargo.toml", "README.md", "readme.md"]);
    assert!(sort_workspace_nodes(Vec::new()).is_empty());
}

#[test]
fn paths_outside_root_are_refused() {
    let c = |parts: &[&str]| -> Vec<Vec<u8>> { parts.iter().map(|p| p.as_bytes().to_vec()).collect() };
    let root = c(&["/", "home", "ws"]);
    assert_eq!(ensure_in_workspace(&c(&["/", "home", "ws", "src", "main.rs"]), &root), Ok(()));
    assert_eq!(ensure_in_workspace(&c(&["/", "home", "ws"]), &root), Ok(()));
    assert_eq!(
        ensure_in_workspace(&c(&["/", "home", "ws2", "x"]), &root),
        Err("requested path is outside the workspace".to_string())
    );
    assert_eq!(
        ensure_in_workspace(&c(&["/", "home"]), &root),
        Err("requested path is outside the workspace".to_string())
    );
}
