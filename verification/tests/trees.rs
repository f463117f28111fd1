use tmsu::tree::Tree;

fn assert_same_paths(actual: Vec<String>, expected: Vec<&str>) {
    let expected_paths: Vec<String> = expected.into_iter().map(|s| s.to_string()).collect();
    assert_eq!(actual, expected_paths);
}

#[test]
fn test_paths() {
    let mut tree = Tree::new();
    tree.add("/a/b/c", false);
    tree.add("/a/b/d", false);
    tree.add("/a/b", true);
    tree.add("/a/b/e", false);
    tree.add("/a/f", false);
    tree.add("/a/b", true);
    tree.add("/j/k/l", false);
    tree.add("/j/k/m", false);

    let paths = tree.paths();
    let expected = vec![
        "/a/b", "/a/b/c", "/a/b/d", "/a/b/e", "/a/f", "/j/k/l", "/j/k/m",
    ];
    assert_same_paths(paths, expected);
}

#[test]
fn test_top_level() {
    let mut tree = Tree::new();
    tree.add("/a/b/c", false);
    tree.add("/a/b/d", false);
    tree.add("/a/b", true);
    tree.add("/a/b/e", false);
    tree.add("/a/f", true);
    tree.add("/a/b", true);
    tree.add("/j/k/l", false);
    tree.add("/j/k/m", false);

    let paths = tree.top_level().paths();
    let expected = vec!["/a/b", "/a/f", "/j/k/l", "/j/k/m"];
    assert_same_paths(paths, expected);
}

#[test]
fn adding_a_path_twice_keeps_one_node() {
    let mut tree = Tree::new();
    tree.add("x/y", false);
    let before = tree.nodes.len();
    tree.add("x/y", true);
    assert_eq!(tree.nodes.len(), before);
    assert_eq!(tree.paths(), vec!["x/y".to_string()]);
    assert!(tree.nodes[1].is_real);
    assert!(tree.nodes[1].is_dir);
    assert!(!tree.nodes[0].is_real);
}

#[test]
fn a_real_node_stays_real() {
    let mut tree = Tree::new();
    tree.add("/a", true);
    tree.add("/a/b", false);
    assert_same_paths(tree.paths(), vec!["/a", "/a/b"]);
    assert_same_paths(tree.top_level().paths(), vec!["/a"]);
}

#[test]
fn paths_come_in_ascending_order() {
    let mut tree = Tree::new();
    tree.add("b", false);
    tree.add("a/z", false);
    tree.add("a", false);
    tree.add("B", false);
    assert_same_paths(tree.paths(), vec!["B", "a", "a/z", "b"]);
}
