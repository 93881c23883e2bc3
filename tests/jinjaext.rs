use asphinx::jinjaext::{finish_page, minify, Resource};

const PAGE: &str = "<html>\n  <head>\n    <title>  T  </title>\n  </head>\n  <body>\n    <p>   hello    world   </p>\n  </body>\n</html>\n";

#[test]
fn minify_shrinks_a_page() {
    let out = minify(PAGE);
    assert!(out.len() < PAGE.len());
    assert!(out.contains("hello world"));
}

#[test]
fn finish_page_minifies_only_when_asked() {
    assert_eq!(finish_page(PAGE.to_string(), false), PAGE);
    assert_eq!(finish_page(PAGE.to_string(), true), minify(PAGE));
}

#[test]
fn resource_can_be_made() {
    let _ = Resource::new();
}
