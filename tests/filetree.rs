use asphinx::filetree::{directory_node, document_node, extract_title, hidden, sort_level, FileTreeData, FileTreeNode};

fn doc(name: &str) -> FileTreeNode {
    document_node(name.to_string(), &format!("content/{name}"), None, 0)
}

fn dir(name: &str, children: Vec<FileTreeNode>) -> FileTreeNode {
    directory_node(name.to_string(), &format!("content/{name}"), children, 0)
}

fn names(nodes: &[FileTreeNode]) -> Vec<&str> {
    nodes.iter().map(|n| n.name.as_str()).collect()
}

#[test]
fn directories_first_then_by_name() {
    let mut nodes = vec![doc("b.adoc"), dir("zeta", vec![doc("y.adoc"), doc("x.adoc")]), doc("a.adoc"), dir("alpha", vec![])];
    FileTreeData::sort_tree_nodes(&mut nodes);
    assert_eq!(names(&nodes), vec!["alpha", "zeta", "a.adoc", "b.adoc"]);
    assert_eq!(names(&nodes[1].children), vec!["x.adoc", "y.adoc"]);
}

#[test]
fn deep_levels_are_sorted_too() {
    let inner = dir("inner", vec![doc("d.adoc"), doc("c.adoc")]);
    let mut nodes = vec![dir("outer", vec![inner])];
    FileTreeData::sort_tree_nodes(&mut nodes);
    assert_eq!(names(&nodes[0].children[0].children), vec!["c.adoc", "d.adoc"]);
}

#[test]
fn sort_orders_by_code_point_and_prefix() {
    let sorted = sort_level(vec![doc("b"), doc("B"), doc("ab"), doc("a"), doc("é")]);
    assert_eq!(names(&sorted), vec!["B", "a", "ab", "b", "é"]);
}

#[test]
fn document_node_links_to_page() {
    let n = document_node("intro.adoc".to_string(), "content/guide/intro.adoc", Some("Intro".to_string()), 1);
    assert_eq!(n.path, "guide/intro.adoc");
    assert_eq!(n.url, Some("guide/intro.html".to_string()));
    assert!(!n.is_directory);
    assert_eq!(n.level, 1);
    let d = directory_node("guide".to_string(), "content/guide", vec![], 0);
    assert_eq!(d.path, "guide");
    assert_eq!(d.url, None);
    assert!(d.is_directory);
}

#[test]
fn hidden_entries() {
    assert!(hidden(".git"));
    assert!(!hidden("guide"));
}

#[test]
fn title_from_heading() {
    assert_eq!(extract_title("= Socket Programming\n\ntext"), Some("Socket Programming".to_string()));
    assert_eq!(extract_title(":toc: left\n// a comment\n\n  =  Spaced  \r\nbody"), Some("Spaced".to_string()));
    assert_eq!(extract_title("== Section\n= Late"), None);
    assert_eq!(extract_title("Plain first line\n= Title"), None);
    assert_eq!(extract_title("=\n= Title"), None);
    assert_eq!(extract_title(""), None);
}

#[test]
fn subtrees_are_kept_whole() {
    let inner = dir("inner", vec![doc("d.adoc"), doc("c.adoc"), dir("deep", vec![doc("z.adoc")])]);
    let mut nodes = vec![doc("top.adoc"), dir("outer", vec![inner, doc("b.adoc")])];
    FileTreeData::sort_tree_nodes(&mut nodes);
    assert_eq!(names(&nodes), vec!["outer", "top.adoc"]);
    assert_eq!(names(&nodes[0].children), vec!["inner", "b.adoc"]);
    assert_eq!(names(&nodes[0].children[0].children), vec!["deep", "c.adoc", "d.adoc"]);
    assert_eq!(names(&nodes[0].children[0].children[0].children), vec!["z.adoc"]);
}
