use asphinx::html::HtmlParser;

const PAGE: &str = "<!DOCTYPE html><html><head><title>\n  套接字  </title></head><body>\
<div id=\"toc\"><div id=\"toctitle\">Table of Contents</div><ul class=\"sectlevel1\"><li>注释</li></ul></div>\
<div id=\"content\">  <p>Hello <b>world</b></p>  </div>\
<img src=\"assets/UDP_CS%E6%A8%A1%E5%9E%8B.png\"><img alt=\"no source\"><img src=\"diag-1.svg\">\
<div id=\"footnotes\"><hr></div></body></html>";

#[test]
fn title_is_trimmed() {
    assert_eq!(HtmlParser::new(PAGE).get_title(), "套接字");
}

#[test]
fn content_is_trimmed_inner_html() {
    assert_eq!(HtmlParser::new(PAGE).get_content(), Some("<p>Hello <b>world</b></p>".to_string()));
}

#[test]
fn toc_loses_its_title_block() {
    assert_eq!(
        HtmlParser::new(PAGE).get_toc(),
        Some("<ul class=\"sectlevel1\"><li>注释</li></ul>".to_string())
    );
}

#[test]
fn image_urls_are_decoded() {
    assert_eq!(HtmlParser::new(PAGE).get_image_urls(), vec!["assets/UDP_CS模型.png", "diag-1.svg"]);
}

#[test]
fn footnotes_and_text() {
    let p = HtmlParser::new(PAGE);
    assert_eq!(p.get_footnotes(), Some("<hr>".to_string()));
    assert!(p.text().contains("Hello world"));
    assert!(p.text().contains("注释"));
}

#[test]
fn page_without_parts() {
    let p = HtmlParser::new("<html><body>just text</body></html>");
    assert_eq!(p.get_title(), "");
    assert_eq!(p.get_content(), None);
    assert_eq!(p.get_toc(), None);
    assert_eq!(p.get_footnotes(), None);
    assert_eq!(p.get_image_urls(), Vec::<String>::new());
    let parsed = p.parsed();
    assert_eq!(parsed.text, "just text");
}

#[test]
fn html_test_get_image_url() {
    assert_eq!(HtmlParser::new(PAGE).get_image_urls()[0], "assets/UDP_CS模型.png");
}

#[test]
fn html_test_get_title() {
    assert_eq!(HtmlParser::new(PAGE).get_title(), "套接字");
}

#[test]
fn html_test_get_toc() {
    assert!(HtmlParser::new(PAGE).get_toc().unwrap().contains("<ul class=\"sectlevel1\">"));
}

#[test]
fn html_test_get_footnotes() {
    assert_eq!(HtmlParser::new(PAGE).get_footnotes(), Some("<hr>".to_string()));
}

#[test]
fn test_html_test_get_image_url() {
    assert_eq!(HtmlParser::new(PAGE).get_image_urls(), vec!["assets/UDP_CS模型.png", "diag-1.svg"]);
}

#[test]
fn test_html_test_get_title() {
    assert_eq!(HtmlParser::new(PAGE).parsed().title, "套接字");
}

#[test]
fn test_html_test_get_toc() {
    assert_eq!(
        HtmlParser::new(PAGE).get_toc(),
        Some("<ul class=\"sectlevel1\"><li>注释</li></ul>".to_string())
    );
}

#[test]
fn test_html_test_get_footnotes() {
    assert_eq!(HtmlParser::new(PAGE).parsed().footnotes, Some("<hr>".to_string()));
}
