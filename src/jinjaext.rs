//! Helpers that page templates and the page writer use.
use vstd::prelude::*;

verus! {

/// The object that page templates call to read a theme asset.
#[derive(Debug, Clone, Default)]
pub struct Resource {}

impl Resource {
    pub fn new() -> (r: Resource) {
        Resource {}
    }
}

/// The page `s` as minify-html minifies it, with CSS and JavaScript minified as `css` and
/// `js` say; `None` where the bytes it gives are not UTF-8.
pub uninterp spec fn minified(s: Seq<char>, css: bool, js: bool) -> Option<Seq<char>>;

/// Relies on `minify_html::minify` with `Cfg::new()` and the two flags set, and on
/// `String::from_utf8` for its bytes. minify-html hands `<script>` and `<style>` bodies to
/// minify-js and lightningcss and falls back to the body as written when they report an error;
/// that those crates never panic is relied on, not shown.
#[verifier::external_body]
fn minify_page(s: &str, css: bool, js: bool) -> (r: Option<String>)
    ensures
        match r {
            Some(m) => minified(s@, css, js) == Some(m@),
            None => minified(s@, css, js) is None,
        },
{
    let mut cfg = minify_html::Cfg::new();
    cfg.minify_css = css;
    cfg.minify_js = js;
    String::from_utf8(minify_html::minify(s.as_bytes(), &cfg)).ok()
}

/// The page minified, CSS and JavaScript included; the page unchanged where minifying does
/// not give text.
pub fn minify(value: &str) -> (r: String)
    ensures
        r@ == match minified(value@, true, true) {
            Some(m) => m,
            None => value@,
        },
{
    match minify_page(value, true, true) {
        Some(m) => m,
        None => value.to_owned(),
    }
}

/// The rendered page as it is written: minified where asked.
pub fn finish_page(rendered: String, need_minify: bool) -> (r: String)
    ensures
        !need_minify ==> r@ == rendered@,
        need_minify ==> r@ == match minified(rendered@, true, true) {
            Some(m) => m,
            None => rendered@,
        },
{
    if need_minify {
        minify(rendered.as_str())
    } else {
        rendered
    }
}

} // verus!
