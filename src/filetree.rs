//! The navigation tree of the content directory: directories and documents, each level in
//! order, directories first, then by name.
use crate::generator::opt_view;
use crate::text::{chars_of, replace, trim, trim_exec};
use vstd::prelude::*;
use vstd::multiset::Multiset;
use vstd::seq_lib::{to_multiset_build, to_multiset_insert, to_multiset_len, to_multiset_remove};

verus! {

/// A directory or a document of the content tree.
#[derive(Debug)]
pub struct FileTreeNode {
    pub name: String,
    pub title: Option<String>,
    pub path: String,
    pub url: Option<String>,
    pub is_directory: bool,
    pub children: Vec<FileTreeNode>,
    pub level: usize,
}

/// The tree, and every node of it in the order the scan met them.
#[derive(Debug)]
pub struct FileTreeData {
    pub root: Vec<FileTreeNode>,
    pub flat_list: Vec<FileTreeNode>,
}

/// `a` comes before or with `b` in the order of `String`'s `Ord`: character by character,
/// by code point, a prefix first.
pub open spec fn name_le(a: Seq<char>, b: Seq<char>) -> bool
    decreases a.len(),
{
    if a.len() == 0 {
        true
    } else if b.len() == 0 {
        false
    } else if a[0] != b[0] {
        (a[0] as int) < (b[0] as int)
    } else {
        name_le(a.drop_first(), b.drop_first())
    }
}

/// `a` comes before or with `b`: directories first, then by name.
pub open spec fn node_le(a: FileTreeNode, b: FileTreeNode) -> bool {
    if a.is_directory != b.is_directory {
        a.is_directory
    } else {
        name_le(a.name@, b.name@)
    }
}

/// The nodes of one level are in order.
pub open spec fn sorted_level(s: Seq<FileTreeNode>) -> bool {
    forall|i: int, j: int| 0 <= i < j < s.len() ==> #[trigger] node_le(s[i], s[j]) && node_le(s[i], s[j])
}

pub proof fn lemma_name_le_total(a: Seq<char>, b: Seq<char>)
    ensures
        name_le(a, b) || name_le(b, a),
    decreases a.len(),
{
    if a.len() > 0 && b.len() > 0 && a[0] == b[0] {
        lemma_name_le_total(a.drop_first(), b.drop_first());
    }
}

pub proof fn lemma_name_le_trans(a: Seq<char>, b: Seq<char>, c: Seq<char>)
    requires
        name_le(a, b),
        name_le(b, c),
    ensures
        name_le(a, c),
    decreases a.len(),
{
    if a.len() > 0 && b.len() > 0 && c.len() > 0 && a[0] == b[0] && b[0] == c[0] {
        lemma_name_le_trans(a.drop_first(), b.drop_first(), c.drop_first());
    }
}

pub proof fn lemma_name_le_refl(a: Seq<char>)
    ensures
        name_le(a, a),
    decreases a.len(),
{
    if a.len() > 0 {
        lemma_name_le_refl(a.drop_first());
    }
}

proof fn lemma_node_le_total(a: FileTreeNode, b: FileTreeNode)
    ensures
        node_le(a, b) || node_le(b, a),
{
    lemma_name_le_total(a.name@, b.name@);
}

proof fn lemma_node_le_trans(a: FileTreeNode, b: FileTreeNode, c: FileTreeNode)
    requires
        node_le(a, b),
        node_le(b, c),
    ensures
        node_le(a, c),
{
    if a.is_directory == b.is_directory && b.is_directory == c.is_directory {
        lemma_name_le_trans(a.name@, b.name@, c.name@);
    }
}

fn name_le_exec(a: &Vec<char>, b: &Vec<char>) -> (r: bool)
    ensures
        r == name_le(a@, b@),
{
    let mut i: usize = 0;
    assert(a@.subrange(0, a@.len() as int) =~= a@);
    assert(b@.subrange(0, b@.len() as int) =~= b@);
    while i < a.len()
        invariant
            i <= a@.len(),
            i <= b@.len(),
            name_le(a@, b@) == name_le(a@.subrange(i as int, a@.len() as int), b@.subrange(i as int, b@.len() as int)),
        decreases a@.len() - i,
    {
        let ghost sa = a@.subrange(i as int, a@.len() as int);
        let ghost sb = b@.subrange(i as int, b@.len() as int);
        if i == b.len() {
            return false;
        }
        assert(sa[0] == a@[i as int] && sb[0] == b@[i as int]);
        if a[i] != b[i] {
            return a[i] < b[i];
        }
        assert(sa.drop_first() =~= a@.subrange(i + 1, a@.len() as int));
        assert(sb.drop_first() =~= b@.subrange(i + 1, b@.len() as int));
        i = i + 1;
    }
    true
}

fn node_le_exec(a: &FileTreeNode, b: &FileTreeNode) -> (r: bool)
    ensures
        r == node_le(*a, *b),
{
    if a.is_directory != b.is_directory {
        return a.is_directory;
    }
    name_le_exec(&chars_of(a.name.as_str()), &chars_of(b.name.as_str()))
}

/// The nodes of one level put in order, directories first, then by name.
pub fn sort_level(nodes: Vec<FileTreeNode>) -> (r: Vec<FileTreeNode>)
    ensures
        sorted_level(r@),
        r@.to_multiset() == nodes@.to_multiset(),
{
    let mut rest = nodes;
    let mut out: Vec<FileTreeNode> = Vec::new();
    proof {
        broadcast use vstd::seq_lib::group_to_multiset_ensures;
        assert(out@.to_multiset() =~= Multiset::<FileTreeNode>::empty());
    }
    while rest.len() > 0
        invariant
            sorted_level(out@),
            out@.to_multiset().add(rest@.to_multiset()) == nodes@.to_multiset(),
        decreases rest@.len(),
    {
        let ghost before_rest = rest@;
        let x = rest.remove(0);
        proof {
            to_multiset_remove(before_rest, 0);
        }
        let mut pos: usize = 0;
        while pos < out.len() && node_le_exec(&out[pos], &x)
            invariant
                pos <= out@.len(),
                forall|k: int| 0 <= k < pos ==> #[trigger] node_le(out@[k], x),
            decreases out@.len() - pos,
        {
            pos = pos + 1;
        }
        let ghost before = out@;
        proof {
            if pos < before.len() {
                lemma_node_le_total(before[pos as int], x);
            }
        }
        out.insert(pos, x);
        proof {
            to_multiset_insert(before, pos as int, x);
            let s = out@;
            assert(s == before.insert(pos as int, x));
            assert forall|i: int, j: int| 0 <= i < j < s.len() implies #[trigger] node_le(s[i], s[j]) && node_le(s[i], s[j]) by {
                if j < pos {
                    assert(s[i] == before[i] && s[j] == before[j]);
                } else if j == pos {
                    assert(s[i] == before[i]);
                } else if i < pos {
                    assert(s[i] == before[i] && s[j] == before[j - 1]);
                    lemma_node_le_total(before[pos as int], x);
                    lemma_name_le_refl(before[pos as int].name@);
                    if j - 1 > pos {
                        assert(node_le(before[pos as int], before[j - 1]));
                    }
                    lemma_node_le_trans(x, before[pos as int], before[j - 1]);
                    lemma_node_le_trans(s[i], x, s[j]);
                } else if i == pos {
                    assert(s[j] == before[j - 1]);
                    if j - 1 > pos {
                        assert(node_le(before[pos as int], before[j - 1]));
                        lemma_node_le_trans(x, before[pos as int], before[j - 1]);
                    }
                } else {
                    assert(s[i] == before[i - 1] && s[j] == before[j - 1]);
                }
            }
            assert(before_rest.remove(0) == rest@);
            assert(before_rest[0] == x);
            vstd::seq_lib::to_multiset_contains(before_rest, x);
            assert(before_rest.contains(x));
            assert(before_rest.to_multiset().count(x) > 0);
            assert(out@.to_multiset().add(rest@.to_multiset()) =~= nodes@.to_multiset());
        }
    }
    proof {
        assert(rest@.to_multiset() =~= Multiset::<FileTreeNode>::empty());
        assert(out@.to_multiset().add(Multiset::empty()) =~= out@.to_multiset());
    }
    out
}

/// The level reached from `nodes` by following `path`, one child index per step.
pub open spec fn level_at(nodes: Seq<FileTreeNode>, path: Seq<int>) -> Option<Seq<FileTreeNode>>
    decreases path.len(),
{
    if path.len() == 0 {
        Some(nodes)
    } else if 0 <= path[0] < nodes.len() {
        level_at(nodes[path[0]].children@, path.drop_first())
    } else {
        None
    }
}

/// Every level of the tree, however deep, is in order.
pub open spec fn tree_sorted(nodes: Seq<FileTreeNode>) -> bool {
    forall|path: Seq<int>| level_in_order(#[trigger] level_at(nodes, path))
}

/// A level that exists is in order.
pub open spec fn level_in_order(level: Option<Seq<FileTreeNode>>) -> bool {
    match level {
        Some(l) => sorted_level(l),
        None => true,
    }
}

/// The two nodes are the same entry, whatever their children.
pub open spec fn same_entry(a: FileTreeNode, b: FileTreeNode) -> bool {
    &&& a.name == b.name
    &&& a.title == b.title
    &&& a.path == b.path
    &&& a.url == b.url
    &&& a.is_directory == b.is_directory
    &&& a.level == b.level
}

/// `r` is a reordering of `nodes` in which each node's children may differ.
pub open spec fn reorders(r: Seq<FileTreeNode>, nodes: Seq<FileTreeNode>) -> bool {
    exists|s: Seq<FileTreeNode>|
        #![trigger s.to_multiset()]
        s.to_multiset() == nodes.to_multiset() && s.len() == r.len() && forall|i: int| 0 <= i < s.len() ==> #[trigger] same_entry(r[i], s[i])
}

/// A node without its children.
pub type EntryKey = (Seq<char>, Option<Seq<char>>, Seq<char>, Option<Seq<char>>, bool, usize);

/// The fields of a node other than its children.
pub open spec fn shallow(n: FileTreeNode) -> EntryKey {
    (n.name@, opt_view(n.title), n.path@, opt_view(n.url), n.is_directory, n.level)
}

/// The nodes `depth` levels below the level `nodes`, without their children, counted with
/// repetition.
pub open spec fn entries_at(nodes: Seq<FileTreeNode>, depth: nat) -> Multiset<EntryKey>
    decreases depth, nodes.len(),
{
    if nodes.len() == 0 {
        Multiset::empty()
    } else {
        let here = if depth == 0 {
            Multiset::singleton(shallow(nodes.last()))
        } else {
            entries_at(nodes.last().children@, (depth - 1) as nat)
        };
        here.add(entries_at(nodes.drop_last(), depth))
    }
}

/// What one node of a level gives `entries_at` at `depth`.
pub open spec fn part(n: FileTreeNode, depth: nat) -> Multiset<EntryKey> {
    if depth == 0 {
        Multiset::singleton(shallow(n))
    } else {
        entries_at(n.children@, (depth - 1) as nat)
    }
}

proof fn lemma_entries_remove(s: Seq<FileTreeNode>, j: int, depth: nat)
    requires
        0 <= j < s.len(),
    ensures
        entries_at(s, depth) == part(s[j], depth).add(entries_at(s.remove(j), depth)),
    decreases s.len(),
{
    if j == s.len() - 1 {
        assert(s.remove(j) =~= s.drop_last());
    } else {
        let t = s.drop_last();
        lemma_entries_remove(t, j, depth);
        let u = s.remove(j);
        assert(u.drop_last() =~= t.remove(j));
        assert(u.last() == s.last());
        assert(t[j] == s[j]);
        assert(entries_at(u, depth) == part(s.last(), depth).add(entries_at(t.remove(j), depth)));
        assert(entries_at(s, depth) == part(s.last(), depth).add(entries_at(t, depth)));
        assert(entries_at(s, depth) =~= part(s[j], depth).add(entries_at(u, depth)));
    }
}

/// Reordering a level keeps what lies at every depth below it.
pub proof fn lemma_entries_reorder(a: Seq<FileTreeNode>, b: Seq<FileTreeNode>, depth: nat)
    requires
        a.to_multiset() == b.to_multiset(),
    ensures
        entries_at(a, depth) == entries_at(b, depth),
    decreases a.len(),
{
    to_multiset_len(a);
    to_multiset_len(b);
    if a.len() == 0 {
        assert(b =~= Seq::<FileTreeNode>::empty());
    } else {
        let x = a.last();
        let rest = a.drop_last();
        assert(rest.push(x) =~= a);
        to_multiset_build(rest, x);
        vstd::seq_lib::to_multiset_contains(b, x);
        assert(a.to_multiset().count(x) > 0);
        assert(b.contains(x));
        let j = choose|j: int| 0 <= j < b.len() && b[j] == x;
        let b2 = b.remove(j);
        to_multiset_remove(b, j);
        assert(rest.to_multiset() =~= b2.to_multiset());
        lemma_entries_reorder(rest, b2, depth);
        lemma_entries_remove(b, j, depth);
        assert(entries_at(a, depth) == part(x, depth).add(entries_at(rest, depth)));
    }
}

/// The tree with every level put in order.
fn sorted_tree(nodes: Vec<FileTreeNode>) -> (r: Vec<FileTreeNode>)
    ensures
        tree_sorted(r@),
        reorders(r@, nodes@),
        forall|depth: nat| #[trigger] entries_at(r@, depth) == entries_at(nodes@, depth),
    decreases nodes,
{
    let ghost orig = nodes@;
    let sorted = sort_level(nodes);
    let ghost s = sorted@;
    let n = sorted.len();
    let mut rest = sorted;
    let mut done: Vec<FileTreeNode> = Vec::new();
    let mut i: usize = 0;
    assert(s.subrange(0, 0) =~= Seq::<FileTreeNode>::empty());
    assert(done@ =~= Seq::<FileTreeNode>::empty());
    while i < n
        invariant
            n == s.len(),
            i <= n,
            orig == nodes@,
            s.to_multiset() == orig.to_multiset(),
            sorted_level(s),
            rest@ == s.subrange(i as int, n as int),
            done@.len() == i,
            forall|k: int| 0 <= k < i ==> #[trigger] same_entry(done@[k], s[k]),
            forall|k: int| 0 <= k < i ==> #[trigger] tree_sorted(done@[k].children@),
            forall|depth: nat| #[trigger] entries_at(done@, depth) == entries_at(s.subrange(0, i as int), depth),
        decreases n - i,
    {
        let ghost before = rest@;
        assert(before[0] == s[i as int]);
        let mut node = rest.remove(0);
        assert(rest@ =~= s.subrange(i + 1, n as int));
        proof {
            vstd::seq_lib::to_multiset_contains(s, s[i as int]);
            vstd::seq_lib::to_multiset_contains(orig, s[i as int]);
            assert(s.contains(s[i as int]));
            assert(orig.contains(s[i as int]));
            let j = choose|j: int| 0 <= j < orig.len() && orig[j] == s[i as int];
            assert(decreases_to!(nodes => nodes@[j]));
        }
        let ghost old_node = node;
        let children = sorted_tree(node.children);
        node.children = children;
        assert(tree_sorted(node.children@));
        let ghost prev = done@;
        done.push(node);
        proof {
            assert(done@.drop_last() == prev);
            assert(done@.last() == node);
            assert(s.subrange(0, i + 1).drop_last() =~= s.subrange(0, i as int));
            assert(s.subrange(0, i + 1).last() == old_node);
            assert forall|depth: nat| #[trigger] entries_at(done@, depth) == entries_at(s.subrange(0, i + 1), depth) by {
                assert(part(node, depth) == part(old_node, depth));
                assert(entries_at(done@, depth) == part(node, depth).add(entries_at(prev, depth)));
                assert(entries_at(s.subrange(0, i + 1), depth) == part(old_node, depth).add(entries_at(s.subrange(0, i as int), depth)));
            }
        }
        assert(forall|k: int| 0 <= k < i ==> done@[k] == prev[k]);
        assert(same_entry(done@[i as int], s[i as int]));
        assert(tree_sorted(done@[i as int].children@));
        i = i + 1;
    }
    proof {
        assert forall|a: int, b: int| 0 <= a < b < done@.len() implies #[trigger] node_le(done@[a], done@[b]) && node_le(done@[a], done@[b]) by {
            assert(same_entry(done@[a], s[a]) && same_entry(done@[b], s[b]));
            assert(node_le(s[a], s[b]));
        }
        assert forall|path: Seq<int>| level_in_order(#[trigger] level_at(done@, path)) by {
            if path.len() > 0 && 0 <= path[0] < done@.len() {
                assert(tree_sorted(done@[path[0]].children@));
                assert(level_at(done@[path[0]].children@, path.drop_first()) == level_at(done@, path));
            }
        }
        assert(tree_sorted(done@));
        assert(s.subrange(0, n as int) =~= s);
        assert forall|depth: nat| #[trigger] entries_at(done@, depth) == entries_at(orig, depth) by {
            lemma_entries_reorder(s, orig, depth);
        }
        assert(forall|k: int| 0 <= k < s.len() ==> #[trigger] same_entry(done@[k], s[k]));
        assert(reorders(done@, orig));
    }
    done
}

impl FileTreeData {
    /// Puts every level of the tree in order, directories first, then by name. Each level is
    /// a reordering of what it was, and at every depth the same entries remain.
    pub fn sort_tree_nodes(nodes: &mut Vec<FileTreeNode>)
        ensures
            tree_sorted(final(nodes)@),
            reorders(final(nodes)@, old(nodes)@),
            forall|depth: nat| #[trigger] entries_at(final(nodes)@, depth) == entries_at(old(nodes)@, depth),
    {
        let mut taken: Vec<FileTreeNode> = Vec::new();
        std::mem::swap(nodes, &mut taken);
        *nodes = sorted_tree(taken);
    }
}

/// The path of a scanned entry relative to the content directory: `path` without a leading
/// `content` component, or unchanged where it has none.
pub open spec fn relative_path(path: Seq<char>) -> Seq<char> {
    if path == "content"@ {
        Seq::empty()
    } else if path.len() > 8 && path.subrange(0, 8) == "content/"@ {
        path.subrange(8, path.len() as int)
    } else {
        path
    }
}

/// A hidden entry, which the tree leaves out.
pub open spec fn is_hidden(name: Seq<char>) -> bool {
    name.len() > 0 && name[0] == '.'
}

/// Whether the entry named `name` is hidden.
pub fn hidden(name: &str) -> (r: bool)
    ensures
        r == is_hidden(name@),
{
    let v = chars_of(name);
    v.len() > 0 && v[0] == '.'
}

/// The node of a directory whose children were scanned already.
pub fn directory_node(name: String, path: &str, children: Vec<FileTreeNode>, level: usize) -> (r: FileTreeNode)
    ensures
        r.name == name,
        r.title is None,
        r.path@ == relative_path(path@),
        r.url is None,
        r.is_directory,
        r.children == children,
        r.level == level,
{
    FileTreeNode { name, title: None, path: relative_of(path), url: None, is_directory: true, children, level }
}

/// The node of a document, which links to its page.
pub fn document_node(name: String, path: &str, title: Option<String>, level: usize) -> (r: FileTreeNode)
    ensures
        r.name == name,
        r.title == title,
        r.path@ == relative_path(path@),
        r.url matches Some(u) && u@ == crate::text::replace_all(relative_path(path@), ".adoc"@, ".html"@),
        !r.is_directory,
        r.children@.len() == 0,
        r.level == level,
{
    let rel = relative_of(path);
    let url = replace(rel.as_str(), ".adoc", ".html");
    FileTreeNode { name, title, path: rel, url: Some(url), is_directory: false, children: Vec::new(), level }
}

fn relative_of(path: &str) -> (r: String)
    ensures
        r@ == relative_path(path@),
{
    let v = chars_of(path);
    let whole = chars_of("content");
    let prefix = chars_of("content/");
    proof {
        reveal_strlit("content");
        reveal_strlit("content/");
    }
    if v.len() == 7 && crate::text::occurs_at_exec(&v, &whole, 0) {
        assert(v@ =~= v@.subrange(0, 7));
        return String::new();
    }
    if v.len() == 7 {
        assert(v@ =~= v@.subrange(0, 7));
    }
    if v.len() > 8 && crate::text::occurs_at_exec(&v, &prefix, 0) {
        let mut out: Vec<char> = Vec::new();
        let mut k: usize = 8;
        while k < v.len()
            invariant
                8 <= k <= v@.len(),
                out@ == v@.subrange(8, k as int),
            decreases v@.len() - k,
        {
            out.push(v[k]);
            k = k + 1;
            assert(out@ =~= v@.subrange(8, k as int));
        }
        return crate::text::string_of(out.as_slice());
    }
    path.to_owned()
}


/// `s` without its leading `=` signs.
pub open spec fn strip_equals(s: Seq<char>) -> Seq<char>
    decreases s.len(),
{
    if s.len() > 0 && s[0] == '=' {
        strip_equals(s.drop_first())
    } else {
        s
    }
}

/// The title of a document whose text is `s`, looking from the line that starts at `i`:
/// the first line that is neither blank, an attribute (`:`) nor a comment (`//`) decides; it
/// gives the title where it is a level-0 heading (`= Title`).
pub open spec fn title_from(s: Seq<char>, i: int) -> Option<Seq<char>>
    decreases s.len() - i,
{
    if i < 0 || i > s.len() {
        None
    } else {
        let e = crate::resolver::line_end(s, i);
        let t = trim(s.subrange(i, e));
        let heading = t.len() > 0 && t[0] == '=' && !(t.len() > 1 && t[1] == '=');
        let title = trim(strip_equals(t));
        proof {
            crate::resolver::lemma_line_end_bounds(s, i);
        }
        if heading && title.len() > 0 {
            Some(title)
        } else if t.len() > 0 && t[0] != ':' && !(t.len() > 1 && t[0] == '/' && t[1] == '/') {
            None
        } else if e < s.len() {
            title_from(s, e + 1)
        } else {
            None
        }
    }
}

fn strip_equals_exec(v: &Vec<char>) -> (r: Vec<char>)
    ensures
        r@ == strip_equals(v@),
{
    let n = v.len();
    let mut a: usize = 0;
    assert(v@.subrange(0, n as int) =~= v@);
    while a < n && v[a] == '='
        invariant
            a <= n == v@.len(),
            strip_equals(v@) == strip_equals(v@.subrange(a as int, n as int)),
        decreases n - a,
    {
        assert(v@.subrange(a as int, n as int).drop_first() =~= v@.subrange(a + 1, n as int));
        a = a + 1;
    }
    crate::text::slice(v, a, n)
}

/// The title of a document from its text: the text of its level-0 heading, where the heading
/// comes before any other content line.
pub fn extract_title(content: &str) -> (r: Option<String>)
    ensures
        r matches Some(t) ==> title_from(content@, 0) == Some(t@),
        r is None ==> title_from(content@, 0) is None,
{
    let v = chars_of(content);
    let n = v.len();
    let mut i: usize = 0;
    loop
        invariant
            n == v@.len(),
            v@ == content@,
            i <= n,
            title_from(v@, 0) == title_from(v@, i as int),
        decreases n - i,
    {
        let e = crate::resolver::line_end_exec(&v, i);
        proof {
            crate::resolver::lemma_line_end_bounds(v@, i as int);
        }
        let line = crate::text::slice(&v, i, e);
        let t = trim_exec(&line);
        let heading = t.len() > 0 && t[0] == '=' && !(t.len() > 1 && t[1] == '=');
        let stripped = strip_equals_exec(&t);
        let title = trim_exec(&stripped);
        if heading && title.len() > 0 {
            return Some(crate::text::string_of(title.as_slice()));
        }
        if t.len() > 0 && t[0] != ':' && !(t.len() > 1 && t[0] == '/' && t[1] == '/') {
            return None;
        }
        if e < n {
            i = e + 1;
        } else {
            return None;
        }
    }
}

} // verus!
