//! Reads the parts of a converted page that the build needs.
//!
//! Parsing and querying HTML is scraper's work; the results are named as functions of the
//! page's text. What the build makes of them (trimming, dropping the table of contents'
//! title block, decoding image addresses) is stated here.
use crate::generator::{opt_view, toc_body, ParsedPage, TOC_TITLE};
use crate::text::{chars_of, replace, string_of, trim, trim_exec, views};
use vstd::prelude::*;

verus! {

/// The inner HTML of the first element of the page `source` that the CSS selector `selector`
/// matches, as scraper gives it; `None` where none matches.
pub uninterp spec fn html_first_inner(source: Seq<char>, selector: Seq<char>) -> Option<Seq<char>>;

/// The text of the first element of the page `source` that `selector` matches, its text nodes
/// joined, as scraper gives it; `None` where none matches.
pub uninterp spec fn html_first_text(source: Seq<char>, selector: Seq<char>) -> Option<Seq<char>>;

/// For each element of the page `source` that `selector` matches, in document order, the
/// value of its attribute `attr`, as scraper gives it; `None` for an element without it.
pub uninterp spec fn html_attr_values(source: Seq<char>, selector: Seq<char>, attr: Seq<char>) -> Seq<Option<Seq<char>>>;

/// The text of the page's body; empty where there is no body.
pub open spec fn html_body_text(source: Seq<char>) -> Seq<char> {
    match html_first_text(source, "body"@) {
        Some(t) => t,
        None => Seq::empty(),
    }
}

/// The `src` of each image of the page, as written; `None` for an image without one.
pub open spec fn html_img_srcs(source: Seq<char>) -> Seq<Option<Seq<char>>> {
    html_attr_values(source, "img"@, "src"@)
}

/// The views of a list of optional strings.
pub open spec fn opt_views(v: Seq<Option<String>>) -> Seq<Option<Seq<char>>> {
    v.map_values(|o: Option<String>| opt_view(o))
}

/// The percent-decoding of `s` by urlencoding; `None` where the bytes it gives are not UTF-8.
pub uninterp spec fn url_decoded(s: Seq<char>) -> Option<Seq<char>>;

/// Relies on scraper's `Html::parse_document`, `Selector::parse`, `Html::select` and
/// `ElementRef::inner_html`: the inner HTML of the first match of `selector`.
#[verifier::external_body]
fn first_inner_html(source: &str, selector: &str) -> (r: Option<String>)
    ensures
        opt_view(r) == html_first_inner(source@, selector@),
{
    let selector = scraper::Selector::parse(selector).ok()?;
    let doc = scraper::Html::parse_document(source);
    let first = doc.select(&selector).next();
    first.map(|e| e.inner_html())
}

/// Relies on scraper's `Html::parse_document`, `Selector::parse`, `Html::select` and
/// `ElementRef::text`: the text nodes of the first match of `selector`, joined.
#[verifier::external_body]
fn first_text(source: &str, selector: &str) -> (r: Option<String>)
    ensures
        opt_view(r) == html_first_text(source@, selector@),
{
    let selector = scraper::Selector::parse(selector).ok()?;
    let doc = scraper::Html::parse_document(source);
    let first = doc.select(&selector).next();
    first.map(|e| e.text().collect())
}

/// Relies on scraper's `Html::parse_document`, `Selector::parse`, `Html::select` and
/// `Element::attr`: the value of `attr` on each match of `selector`, if it has one.
#[verifier::external_body]
fn attr_values(source: &str, selector: &str, attr: &str) -> (r: Vec<Option<String>>)
    ensures
        opt_views(r@) == html_attr_values(source@, selector@, attr@),
{
    let Ok(selector) = scraper::Selector::parse(selector) else {
        return Vec::new();
    };
    let doc = scraper::Html::parse_document(source);
    doc.select(&selector).map(|e| e.value().attr(attr).map(|v| v.to_string())).collect()
}

/// Relies on `urlencoding::decode`: `%XX` escapes decoded; an error where the result is not
/// UTF-8.
#[verifier::external_body]
fn decode_url(s: &str) -> (r: Option<String>)
    ensures
        opt_view(r) == url_decoded(s@),
{
    urlencoding::decode(s).ok().map(|c| c.into_owned())
}

/// The decoded addresses of `srcs`, in order, leaving out missing ones and those that do not
/// decode.
pub open spec fn decoded_all(srcs: Seq<Option<Seq<char>>>) -> Seq<Seq<char>>
    decreases srcs.len(),
{
    if srcs.len() == 0 {
        seq![]
    } else {
        decoded_all(srcs.drop_last()) + match srcs.last() {
            Some(s) => match url_decoded(s) {
                Some(u) => seq![u],
                None => Seq::<Seq<char>>::empty(),
            },
            None => Seq::<Seq<char>>::empty(),
        }
    }
}

/// A trimmed optional text.
pub open spec fn trimmed(o: Option<Seq<char>>) -> Option<Seq<char>> {
    match o {
        Some(t) => Some(trim(t)),
        None => None,
    }
}

/// A converted page, read on demand.
pub struct HtmlParser {
    html: String,
}

impl HtmlParser {
    /// The text of the page.
    pub closed spec fn source(&self) -> Seq<char> {
        self.html@
    }

    pub fn new(html: &str) -> (r: HtmlParser)
        ensures
            r.source() == html@,
    {
        HtmlParser { html: html.to_owned() }
    }

    /// The page's main content: the inner HTML of `#content`, trimmed.
    pub fn get_content(&self) -> (r: Option<String>)
        ensures
            opt_view(r) == trimmed(html_first_inner(self.source(), "#content"@)),
    {
        match first_inner_html(self.html.as_str(), "#content") {
            Some(t) => Some(string_of(trim_exec(&chars_of(t.as_str())).as_slice())),
            None => None,
        }
    }

    /// The plain text of the page's body, for the search index.
    pub fn text(&self) -> (r: String)
        ensures
            r@ == html_body_text(self.source()),
    {
        match first_text(self.html.as_str(), "body") {
            Some(t) => t,
            None => String::new(),
        }
    }

    /// The page's title: the inner HTML of the first `title`, trimmed; empty where there is
    /// none.
    pub fn get_title(&self) -> (r: String)
        ensures
            r@ == match html_first_inner(self.source(), "title"@) {
                Some(t) => trim(t),
                None => Seq::empty(),
            },
    {
        match first_inner_html(self.html.as_str(), "title") {
            Some(t) => string_of(trim_exec(&chars_of(t.as_str())).as_slice()),
            None => String::new(),
        }
    }

    /// The table of contents: the inner HTML of `#toc` without its title block.
    pub fn get_toc(&self) -> (r: Option<String>)
        ensures
            opt_view(r) == toc_body(html_first_inner(self.source(), "#toc"@)),
    {
        match first_inner_html(self.html.as_str(), "#toc") {
            Some(t) => Some(replace(t.as_str(), TOC_TITLE, "")),
            None => None,
        }
    }

    /// The decoded addresses of the page's images, in order; one that does not decode is
    /// left out.
    pub fn get_image_urls(&self) -> (r: Vec<String>)
        ensures
            views(r@) == decoded_all(html_img_srcs(self.source())),
    {
        let srcs = attr_values(self.html.as_str(), "img", "src");
        let mut out: Vec<String> = Vec::new();
        let mut i: usize = 0;
        assert(opt_views(srcs@).subrange(0, 0) =~= Seq::<Option<Seq<char>>>::empty());
        assert(views(out@) =~= Seq::<Seq<char>>::empty());
        while i < srcs.len()
            invariant
                i <= srcs@.len(),
                views(out@) == decoded_all(opt_views(srcs@).subrange(0, i as int)),
            decreases srcs@.len() - i,
        {
            let ghost upto = opt_views(srcs@).subrange(0, i + 1);
            assert(upto.drop_last() =~= opt_views(srcs@).subrange(0, i as int));
            assert(upto.last() == opt_view(srcs@[i as int]));
            let ghost before = views(out@);
            match &srcs[i] {
                Some(src) => match decode_url(src.as_str()) {
                    Some(u) => {
                        let ghost uv = u@;
                        out.push(u);
                        assert(views(out@) =~= before.push(uv));
                    },
                    None => {},
                },
                None => {},
            }
            assert(views(out@) =~= decoded_all(upto));
            i = i + 1;
        }
        assert(opt_views(srcs@).subrange(0, i as int) =~= opt_views(srcs@));
        out
    }

    /// The footnotes: the inner HTML of `#footnotes`.
    pub fn get_footnotes(&self) -> (r: Option<String>)
        ensures
            opt_view(r) == html_first_inner(self.source(), "#footnotes"@),
    {
        first_inner_html(self.html.as_str(), "#footnotes")
    }

    /// Everything the build reads from the page. The table of contents is kept as the page
    /// has it; the page plan drops its title block.
    pub fn parsed(&self) -> (r: ParsedPage)
        ensures
            r.title@ == match html_first_inner(self.source(), "title"@) {
                Some(t) => trim(t),
                None => Seq::empty(),
            },
            r.text@ == html_body_text(self.source()),
            opt_view(r.content) == trimmed(html_first_inner(self.source(), "#content"@)),
            opt_view(r.toc) == html_first_inner(self.source(), "#toc"@),
            opt_view(r.footnotes) == html_first_inner(self.source(), "#footnotes"@),
            views(r.images@) == decoded_all(html_img_srcs(self.source())),
    {
        ParsedPage {
            title: self.get_title(),
            text: self.text(),
            content: self.get_content(),
            toc: first_inner_html(self.html.as_str(), "#toc"),
            footnotes: self.get_footnotes(),
            images: self.get_image_urls(),
        }
    }
}

} // verus!
