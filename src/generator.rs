//! Per-document decisions of a build: where a document's page goes, its breadcrumb trail,
//! its index key, what goes into its page, and which assets are copied beside it.
//!
//! Sources live under a `content` tree and pages under the matching `public` tree: a
//! document's destination is its source path with the leading `content/` taken to `public/`
//! and a final `.adoc` taken to `.html`.
use crate::error::Error;
use crate::history::{GitInfo, utc_formatted, TIME_PATTERN};
use crate::resolver::{join, join_path, parent, parent_of};
use crate::text::{slice, chars_of, concat, ends_with, find_from, find_from_exec, occurs_at_exec, replace, replace_all, starts_with, string_of, views};
use vstd::prelude::*;

verus! {

/// Where a document is read and where its page is written.
#[derive(Debug, Clone)]
pub struct BuildContext {
    pub source_dir: String,
    pub source_file: String,
    pub dest_dir: String,
    pub dest_file: String,
}

/// A source path taken to the destination tree: a leading `content/` becomes `public/`.
pub open spec fn to_public(p: Seq<char>) -> Seq<char> {
    if starts_with(p, "content/"@) {
        "public/"@ + p.subrange(8, p.len() as int)
    } else {
        p
    }
}

/// A final `.adoc` extension taken to `.html`.
pub open spec fn with_html(p: Seq<char>) -> Seq<char> {
    if ends_with(p, ".adoc"@) {
        p.subrange(0, p.len() - 5) + ".html"@
    } else {
        p
    }
}

/// The page path of a source document.
pub open spec fn page_path(source: Seq<char>) -> Seq<char> {
    with_html(to_public(source))
}

/// `v` without its leading `pat`, where it has one.
fn strip_leading(v: &Vec<char>, pat: &str) -> (r: Option<Vec<char>>)
    ensures
        r matches Some(rest) ==> starts_with(v@, pat@) && rest@ == v@.subrange(pat@.len() as int, v@.len() as int),
        r is None ==> !starts_with(v@, pat@),
{
    let p = chars_of(pat);
    if occurs_at_exec(v, &p, 0) {
        Some(slice(v, p.len(), v.len()))
    } else {
        None
    }
}

/// The source path `p` taken to the destination tree.
fn public_path(p: &str) -> (r: String)
    ensures
        r@ == to_public(p@),
{
    let v = chars_of(p);
    proof {
        reveal_strlit("content/");
    }
    match strip_leading(&v, "content/") {
        Some(rest) => concat("public/", string_of(rest.as_slice()).as_str()),
        None => p.to_owned(),
    }
}

/// The path `p` with a final `.adoc` taken to `.html`.
fn html_path(p: &str) -> (r: String)
    ensures
        r@ == with_html(p@),
{
    let v = chars_of(p);
    let ext = chars_of(".adoc");
    proof {
        reveal_strlit(".adoc");
    }
    if v.len() >= 5 && occurs_at_exec(&v, &ext, v.len() - 5) {
        let head = string_of(slice(&v, 0, v.len() - 5).as_slice());
        concat(head.as_str(), ".html")
    } else {
        p.to_owned()
    }
}

/// The build context of `source_file`, which the caller found to be a regular file or
/// not. A path that is not a regular file is skipped with `NotFound`.
pub fn generate_build_context(source_file: &str, is_file: bool) -> (r: Result<BuildContext, Error>)
    ensures
        r is Err <==> !is_file,
        r matches Err(Error::NotFound(p)) ==> p@ == source_file@,
        r matches Ok(c) ==> {
            &&& c.source_file@ == source_file@
            &&& c.source_dir@ == parent(source_file@)
            &&& c.dest_file@ == page_path(source_file@)
            &&& c.dest_dir@ == parent(page_path(source_file@))
        },
{
    if !is_file {
        return Err(Error::NotFound(source_file.to_owned()));
    }
    let source_dir = parent_of(source_file);
    let public = public_path(source_file);
    let dest_file = html_path(public.as_str());
    let dest_dir = parent_of(dest_file.as_str());
    Ok(BuildContext { source_dir, source_file: source_file.to_owned(), dest_dir, dest_file })
}

/// The breadcrumbs of the `/`-separated path `s`, scanning from `i` with the current
/// segment starting at `seg`: at each `/`, the segment before it and the URL `/` followed by
/// everything before it.
pub open spec fn crumbs(s: Seq<char>, seg: int, i: int) -> Seq<(Seq<char>, Seq<char>)>
    decreases s.len() - i,
{
    if i < 0 || i >= s.len() {
        seq![]
    } else if s[i] == '/' {
        seq![(s.subrange(seg, i), seq!['/'] + s.subrange(0, i))] + crumbs(s, i + 1, i + 1)
    } else {
        crumbs(s, seg, i + 1)
    }
}

/// A page path relative to the destination root: without a leading `public/`.
pub open spec fn below_root(dest_file: Seq<char>) -> Seq<char> {
    if starts_with(dest_file, "public/"@) {
        dest_file.subrange(7, dest_file.len() as int)
    } else {
        dest_file
    }
}

/// The ancestors of a page: for each directory on its path below the destination root, its
/// name and its URL.
pub open spec fn breadcrumbs(dest_file: Seq<char>) -> Seq<(Seq<char>, Seq<char>)> {
    crumbs(below_root(dest_file), 0, 0)
}

/// The views of a list of string pairs.
pub open spec fn pair_views(v: Seq<(String, String)>) -> Seq<(Seq<char>, Seq<char>)> {
    v.map_values(|p: (String, String)| (p.0@, p.1@))
}

/// The ancestors of the page at `dest_file`, nearest the root first.
pub fn generate_paths(dest_file: &str) -> (r: Vec<(String, String)>)
    ensures
        pair_views(r@) == breadcrumbs(dest_file@),
{
    let whole = chars_of(dest_file);
    proof {
        reveal_strlit("public/");
    }
    let v = match strip_leading(&whole, "public/") {
        Some(rest) => rest,
        None => whole,
    };
    let n = v.len();
    let mut out: Vec<(String, String)> = Vec::new();
    let mut seg: usize = 0;
    let mut i: usize = 0;
    assert(pair_views(out@) =~= Seq::<(Seq<char>, Seq<char>)>::empty());
    while i < n
        invariant
            n == v@.len(),
            v@ == below_root(dest_file@),
            seg <= i <= n,
            pair_views(out@) + crumbs(v@, seg as int, i as int) == breadcrumbs(dest_file@),
        decreases n - i,
    {
        if v[i] == '/' {
            let name = string_of(slice(&v, seg, i).as_slice());
            let mut url_chars: Vec<char> = vec!['/'];
            let head = slice(&v, 0, i);
            let mut k: usize = 0;
            while k < head.len()
                invariant
                    k <= head@.len(),
                    url_chars@ == seq!['/'] + head@.subrange(0, k as int),
                decreases head@.len() - k,
            {
                url_chars.push(head[k]);
                k = k + 1;
                assert(url_chars@ =~= seq!['/'] + head@.subrange(0, k as int));
            }
            assert(head@.subrange(0, head@.len() as int) =~= head@);
            let url = string_of(url_chars.as_slice());
            let ghost before = pair_views(out@);
            out.push((name, url));
            assert(pair_views(out@) =~= before + seq![(v@.subrange(seg as int, i as int), seq!['/'] + v@.subrange(0, i as int))]);
            i = i + 1;
            seg = i;
        } else {
            i = i + 1;
        }
    }
    assert(pair_views(out@) + Seq::<(Seq<char>, Seq<char>)>::empty() =~= pair_views(out@));
    out
}

/// The key of a page in the search index: its path after the first `public/`, or the whole
/// path where there is none.
pub open spec fn index_key_of(dest_file: Seq<char>) -> Seq<char> {
    match find_from(dest_file, "public/"@, 0) {
        Some(i) => dest_file.subrange(i + 7, dest_file.len() as int),
        None => dest_file,
    }
}

/// The key of the page at `dest_file` in the search index.
pub fn index_key(dest_file: &str) -> (r: String)
    ensures
        r@ == index_key_of(dest_file@),
{
    let v = chars_of(dest_file);
    let pat = chars_of("public/");
    proof {
        reveal_strlit("public/");
    }
    match find_from_exec(&v, &pat, 0) {
        Some(i) => {
            proof {
                crate::text::lemma_find_from_occurs(v@, pat@, 0);
            }
            assert(pat@.len() == 7);
            assert(i + 7 <= v.len());
            string_of(slice(&v, i + 7, v.len()).as_slice())
        },
        None => dest_file.to_owned(),
    }
}

/// An image whose file the converter generated itself, which is not copied.
pub open spec fn is_diagram(url: Seq<char>) -> bool {
    starts_with(url, "diag-"@)
}

/// The images of a page that are copied beside it, in order.
pub open spec fn copied_images(urls: Seq<Seq<char>>) -> Seq<Seq<char>>
    decreases urls.len(),
{
    if urls.len() == 0 {
        seq![]
    } else {
        copied_images(urls.drop_last()) + if is_diagram(urls.last()) {
            Seq::<Seq<char>>::empty()
        } else {
            seq![urls.last()]
        }
    }
}

/// The images of a page that are copied beside it: all but the generated diagrams.
pub fn asset_items(images: &Vec<String>) -> (r: Vec<String>)
    ensures
        views(r@) == copied_images(views(images@)),
{
    let prefix = chars_of("diag-");
    let mut out: Vec<String> = Vec::new();
    let mut i: usize = 0;
    assert(views(images@).subrange(0, 0) =~= Seq::<Seq<char>>::empty());
    assert(views(out@) =~= Seq::<Seq<char>>::empty());
    while i < images.len()
        invariant
            i <= images@.len(),
            prefix@ == "diag-"@,
            views(out@) == copied_images(views(images@).subrange(0, i as int)),
        decreases images@.len() - i,
    {
        let v = chars_of(images[i].as_str());
        let diagram = occurs_at_exec(&v, &prefix, 0);
        let ghost upto = views(images@).subrange(0, i + 1);
        assert(upto.drop_last() =~= views(images@).subrange(0, i as int));
        assert(upto.last() == images@[i as int]@);
        if !diagram {
            let ghost before = views(out@);
            out.push(images[i].clone());
            assert(views(out@) =~= before.push(images@[i as int]@));
            assert(views(out@) =~= copied_images(upto));
        } else {
            assert(views(out@) =~= copied_images(upto));
        }
        i = i + 1;
    }
    assert(views(images@).subrange(0, i as int) =~= views(images@));
    out
}

/// One asset copy: the file to read, the file to write, and the directory that must exist
/// for it.
#[derive(Debug, Clone)]
pub struct AssetCopy {
    pub from: String,
    pub to: String,
    pub to_dir: String,
}

/// The copy of asset `item` from the source directory `source` to the destination
/// directory `des`. A missing source asset is skipped: `None`.
pub fn move_assets(item: &str, source: &str, des: &str, source_exists: bool) -> (r: Option<AssetCopy>)
    ensures
        r is None <==> !source_exists,
        r matches Some(c) ==> {
            &&& c.from@ == join(source@, item@)
            &&& c.to@ == join(des@, item@)
            &&& c.to_dir@ == parent(join(des@, item@))
        },
{
    if !source_exists {
        return None;
    }
    let from = join_path(source, item);
    let to = join_path(des, item);
    let to_dir = parent_of(to.as_str());
    Some(AssetCopy { from, to, to_dir })
}

/// What the HTML reader found in a converted page.
#[derive(Debug, Clone)]
pub struct ParsedPage {
    pub title: String,
    pub text: String,
    pub content: Option<String>,
    pub toc: Option<String>,
    pub footnotes: Option<String>,
    pub images: Vec<String>,
}

/// The payload of the page template.
#[derive(Debug, Clone)]
pub struct Document {
    pub site: String,
    pub title: String,
    pub content: Option<String>,
    pub toc: Option<String>,
    pub footnotes: Option<String>,
    pub last_modify_date: Option<String>,
    pub ancestors: Vec<(String, String)>,
}

/// One record of the search index.
#[derive(Debug, Clone, PartialEq, Eq)]
pub struct IndexEntry {
    pub text: String,
    pub title: String,
    pub last_modified: Option<String>,
}

/// Everything that rendering one page needs: the template payload, the index record and its
/// key, and the assets to copy.
#[derive(Debug, Clone)]
pub struct PagePlan {
    pub document: Document,
    pub index_key: String,
    pub entry: IndexEntry,
    pub assets: Vec<String>,
}

/// The view of an optional string.
pub open spec fn opt_view(o: Option<String>) -> Option<Seq<char>> {
    match o {
        Some(s) => Some(s@),
        None => None,
    }
}

/// The title block that the converter puts at the head of the table of contents, which the
/// page template shows by itself.
pub const TOC_TITLE: &'static str = "<div id=\"toctitle\">Table of Contents</div>";

/// The table of contents without its title block.
pub open spec fn toc_body(raw: Option<Seq<char>>) -> Option<Seq<char>> {
    match raw {
        Some(t) => Some(replace_all(t, TOC_TITLE@, ""@)),
        None => None,
    }
}

/// The last-modified time shown for `source`: none without history.
pub open spec fn shown_time(git: Option<GitInfo>, source: Seq<char>) -> Option<Seq<char>> {
    match git {
        Some(g) => utc_formatted(g.spec_last_modified(source), TIME_PATTERN@),
        None => None,
    }
}

/// Decides what goes into the page of one converted document.
pub fn plan_page(ctx: &BuildContext, page: ParsedPage, site: &str, git: Option<&GitInfo>) -> (r: PagePlan)
    ensures
        r.document.site@ == site@,
        r.document.title@ == page.title@,
        opt_view(r.document.content) == opt_view(page.content),
        opt_view(r.document.toc) == toc_body(opt_view(page.toc)),
        opt_view(r.document.footnotes) == opt_view(page.footnotes),
        opt_view(r.document.last_modify_date) == shown_time(
            match git {
                Some(g) => Some(*g),
                None => None,
            },
            ctx.source_file@,
        ),
        pair_views(r.document.ancestors@) == breadcrumbs(ctx.dest_file@),
        r.index_key@ == index_key_of(ctx.dest_file@),
        r.entry.text@ == page.text@,
        r.entry.title@ == page.title@,
        opt_view(r.entry.last_modified) == opt_view(r.document.last_modify_date),
        views(r.assets@) == copied_images(views(page.images@)),
{
    let time = match git {
        Some(g) => g.get_last_commit_time_of_file(ctx.source_file.as_str()),
        None => None,
    };
    let toc = match page.toc {
        Some(t) => Some(replace(t.as_str(), TOC_TITLE, "")),
        None => None,
    };
    let assets = asset_items(&page.images);
    let entry_time = match &time {
        Some(t) => Some(t.clone()),
        None => None,
    };
    let document = Document {
        site: site.to_owned(),
        title: page.title.clone(),
        content: page.content,
        toc,
        footnotes: page.footnotes,
        last_modify_date: time,
        ancestors: generate_paths(ctx.dest_file.as_str()),
    };
    let entry = IndexEntry { text: page.text, title: page.title, last_modified: entry_time };
    PagePlan { document, index_key: index_key(ctx.dest_file.as_str()), entry, assets }
}

} // verus!
