use asphinx::resolver::{join_path, needs_contents, parent_of, scan_xrefs, targets_of, GraphResolver};
use std::collections::HashMap;

fn run(fs: &HashMap<String, String>, root: &str) -> Vec<String> {
    let mut r = GraphResolver::new(root.to_string());
    while let Some(p) = r.next_request() {
        let reply = fs.get(&p).cloned();
        r.answer(reply);
    }
    r.into_result()
}

fn fs_of(entries: &[(&str, &str)]) -> HashMap<String, String> {
    entries.iter().map(|(k, v)| (k.to_string(), v.to_string())).collect()
}

#[test]
fn manifest_with_two_documents() {
    let fs = fs_of(&[
        ("content/index.adoc", "= Home\n\nxref:a.adoc[A]\nxref:b.adoc[B]\n"),
        ("content/a.adoc", "= A"),
        ("content/b.adoc", "= B"),
    ]);
    assert_eq!(
        run(&fs, "content/index.adoc"),
        vec!["content/a.adoc", "content/b.adoc", "content/index.adoc"]
    );
}

#[test]
fn resolving_twice_gives_the_same_list() {
    let fs = fs_of(&[
        ("content/index.adoc", "xref:a.adoc[A]\nxref:sub/index.adoc[S]\n"),
        ("content/a.adoc", ""),
        ("content/sub/index.adoc", "xref:c.adoc[C]\n"),
        ("content/sub/c.adoc", ""),
    ]);
    let first = run(&fs, "content/index.adoc");
    let second = run(&fs, "content/index.adoc");
    assert_eq!(first, second);
    assert_eq!(
        first,
        vec!["content/a.adoc", "content/sub/c.adoc", "content/sub/index.adoc", "content/index.adoc"]
    );
}

#[test]
fn missing_documents_are_skipped() {
    let fs = fs_of(&[
        ("content/index.adoc", "xref:gone.adoc[G]\nxref:a.adoc[A]\n"),
        ("content/a.adoc", ""),
    ]);
    assert_eq!(run(&fs, "content/index.adoc"), vec!["content/a.adoc", "content/index.adoc"]);
    assert_eq!(run(&fs, "content/nothing.adoc"), Vec::<String>::new());
}

#[test]
fn cyclic_manifest_is_not_expanded_again() {
    let fs = fs_of(&[
        ("content/index.adoc", "xref:index.adoc[Self]\nxref:a.adoc[A]\n"),
        ("content/a.adoc", ""),
    ]);
    assert_eq!(run(&fs, "content/index.adoc"), vec!["content/a.adoc", "content/index.adoc"]);
}

#[test]
fn duplicates_are_kept() {
    let fs = fs_of(&[
        ("content/index.adoc", "xref:a.adoc[A]\nxref:a.adoc[again]\n"),
        ("content/a.adoc", ""),
    ]);
    assert_eq!(
        run(&fs, "content/index.adoc"),
        vec!["content/a.adoc", "content/a.adoc", "content/index.adoc"]
    );
}

#[test]
fn cpp_placeholder_is_spelled_out() {
    assert_eq!(
        targets_of("content/index.adoc", "xref:{cpp}/intro.adoc[C++]"),
        vec!["content/c++/intro.adoc"]
    );
}

#[test]
fn xref_capture_is_greedy_within_a_line() {
    assert_eq!(
        scan_xrefs("see xref:a.adoc[A] and xref:b.adoc[B]\nxref:c.adoc[]\nno directive here\nxref:d.adoc"),
        vec!["a.adoc[A] and xref:b.adoc", "c.adoc"]
    );
}

#[test]
fn path_helpers() {
    assert_eq!(parent_of("content/index.adoc"), "content");
    assert_eq!(parent_of("index.adoc"), "");
    assert_eq!(parent_of("/index.adoc"), "/");
    assert_eq!(join_path("content", "a.adoc"), "content/a.adoc");
    assert_eq!(join_path("content/", "a.adoc"), "content/a.adoc");
    assert_eq!(join_path("", "a.adoc"), "a.adoc");
    assert_eq!(join_path("content", "/abs.adoc"), "/abs.adoc");
    assert!(needs_contents("content/index.adoc"));
    assert!(needs_contents("index.adoc"));
    assert!(!needs_contents("content/myindex.adoc"));
    assert!(!needs_contents("content/a.adoc"));
}
