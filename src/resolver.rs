//! Discovery of the documents to build, by following the cross-references of manifests.
//!
//! A manifest is a document named `index.adoc`. Each line of a manifest may hold one
//! directive `xref:<target>[<label>]`; the target, with `{cpp}` spelled out, is a path relative
//! to the manifest's directory. Resolving a document yields, depth first, the documents that a
//! manifest references before the manifest itself; a missing document yields nothing. A manifest
//! that is already being expanded higher up is not expanded again, so cyclic references end.
//!
//! The walk needs the file system, which this library does not touch: `GraphResolver` is a
//! state machine that asks for one path at a time and is told whether it exists, and, for a
//! manifest, what it holds.
use crate::text::{slice, chars_of, ends_with, find_from, find_from_exec, occurs_at_exec, replace, replace_all, starts_with, string_of, views};
use vstd::prelude::*;

verus! {

/// The index of the last `c` among the first `end` characters of `s`.
pub open spec fn last_of(s: Seq<char>, c: char, end: int) -> Option<int>
    decreases end,
{
    if end <= 0 || end > s.len() {
        None
    } else if s[end - 1] == c {
        Some(end - 1)
    } else {
        last_of(s, c, end - 1)
    }
}

/// The index of the first line break at or after `i`, or the length of `s`.
pub open spec fn line_end(s: Seq<char>, i: int) -> int
    decreases s.len() - i,
{
    if i >= s.len() {
        s.len() as int
    } else if s[i] == '\n' {
        i
    } else {
        line_end(s, i + 1)
    }
}

pub proof fn lemma_line_end_bounds(s: Seq<char>, i: int)
    requires
        0 <= i <= s.len(),
    ensures
        i <= line_end(s, i) <= s.len(),
        line_end(s, i) < s.len() ==> s[line_end(s, i)] == '\n',
    decreases s.len() - i,
{
    if i < s.len() && s[i] != '\n' {
        lemma_line_end_bounds(s, i + 1);
    }
}

/// The target of the directive on one line, as the pattern `xref:(.*)\[.*\]` captures it:
/// from the first `xref:` to the last `[` that a `]` follows.
pub open spec fn line_target(line: Seq<char>) -> Option<Seq<char>> {
    match last_of(line, ']', line.len() as int) {
        None => None,
        Some(close) => match last_of(line, '[', close) {
            None => None,
            Some(open) => match find_from(line.subrange(0, open), "xref:"@, 0) {
                None => None,
                Some(p) => Some(line.subrange(p + 5, open)),
            },
        },
    }
}

/// The targets of the directives of `s` from index `i` on, line by line.
pub open spec fn targets_from(s: Seq<char>, i: int) -> Seq<Seq<char>>
    decreases s.len() - i,
{
    if i < 0 || i > s.len() {
        seq![]
    } else {
        let e = line_end(s, i);
        let here = match line_target(s.subrange(i, e)) {
            Some(t) => seq![t],
            None => seq![],
        };
        proof {
            lemma_line_end_bounds(s, i);
        }
        if e < s.len() {
            here + targets_from(s, e + 1)
        } else {
            here
        }
    }
}

/// The targets of all directives of a manifest's text, in order.
pub open spec fn xref_targets(text: Seq<char>) -> Seq<Seq<char>> {
    targets_from(text, 0)
}

/// The directory part of a path: what precedes its last `/`.
pub open spec fn parent(p: Seq<char>) -> Seq<char> {
    match last_of(p, '/', p.len() as int) {
        None => seq![],
        Some(i) => if i == 0 {
            seq!['/']
        } else {
            p.subrange(0, i)
        },
    }
}

/// `name` taken relative to `dir`; an absolute `name` stands as it is.
pub open spec fn join(dir: Seq<char>, name: Seq<char>) -> Seq<char> {
    if starts_with(name, seq!['/']) || dir.len() == 0 {
        name
    } else if dir.last() == '/' {
        dir + name
    } else {
        dir + seq!['/'] + name
    }
}

/// The path names a manifest: its last component is `index.adoc`.
pub open spec fn is_manifest(p: Seq<char>) -> bool {
    p == "index.adoc"@ || ends_with(p, "/index.adoc"@)
}

/// The paths that a manifest at `path` holding `text` references, in order.
pub open spec fn manifest_targets(path: Seq<char>, text: Seq<char>) -> Seq<Seq<char>> {
    xref_targets(text).map_values(|t: Seq<char>| join(parent(path), replace_all(t, "{cpp}"@, "c++"@)))
}

/// The documents that resolving `p` yields, over a file system `fs` that maps each existing
/// path to its text, while the manifests in `open` are being expanded.
pub open spec fn resolve(fs: Map<Seq<char>, Seq<char>>, p: Seq<char>, open: Set<Seq<char>>) -> Seq<Seq<char>>
    decreases fs.dom().difference(open).len(), 0nat when fs.dom().finite()
{
    if is_manifest(p) && open.contains(p) {
        seq![]
    } else if !fs.contains_key(p) {
        seq![]
    } else if is_manifest(p) {
        proof {
            assert(fs.dom().difference(open.insert(p)) =~= fs.dom().difference(open).remove(p));
        }
        resolve_list(fs, manifest_targets(p, fs[p]), open.insert(p)) + seq![p]
    } else {
        seq![p]
    }
}

/// The documents that resolving each of `ts` in turn yields.
pub open spec fn resolve_list(fs: Map<Seq<char>, Seq<char>>, ts: Seq<Seq<char>>, open: Set<Seq<char>>) -> Seq<Seq<char>>
    decreases fs.dom().difference(open).len(), ts.len() + 1 when fs.dom().finite()
{
    if ts.len() == 0 {
        seq![]
    } else {
        resolve(fs, ts[0], open) + resolve_list(fs, ts.drop_first(), open)
    }
}

fn last_of_exec(v: &Vec<char>, c: char, end: usize) -> (r: Option<usize>)
    requires
        end <= v@.len(),
    ensures
        r matches Some(i) ==> last_of(v@, c, end as int) == Some(i as int) && i < end,
        r is None ==> last_of(v@, c, end as int) is None,
{
    let mut e = end;
    while e > 0
        invariant
            e <= end <= v@.len(),
            last_of(v@, c, end as int) == last_of(v@, c, e as int),
        decreases e,
    {
        if v[e - 1] == c {
            return Some(e - 1);
        }
        e = e - 1;
    }
    None
}

pub(crate) fn line_end_exec(v: &Vec<char>, i: usize) -> (r: usize)
    requires
        i <= v@.len(),
    ensures
        r as int == line_end(v@, i as int),
{
    let mut k = i;
    while k < v.len()
        invariant
            i <= k <= v@.len(),
            line_end(v@, i as int) == line_end(v@, k as int),
        decreases v@.len() - k,
    {
        if v[k] == '\n' {
            return k;
        }
        k = k + 1;
    }
    k
}

fn line_target_exec(line: &Vec<char>, xref: &Vec<char>) -> (r: Option<Vec<char>>)
    requires
        xref@ == "xref:"@,
    ensures
        r matches Some(t) ==> line_target(line@) == Some(t@),
        r is None ==> line_target(line@) is None,
{
    proof {
        reveal_strlit("xref:");
    }
    let close = match last_of_exec(line, ']', line.len()) {
        None => return None,
        Some(c) => c,
    };
    let open = match last_of_exec(line, '[', close) {
        None => return None,
        Some(o) => o,
    };
    let head = slice(line, 0, open);
    match find_from_exec(&head, xref, 0) {
        None => None,
        Some(p) => {
            proof {
                crate::text::lemma_find_from_occurs(head@, xref@, 0);
            }
            Some(slice(line, p + 5, open))
        },
    }
}


/// The targets of all directives of a manifest's text, in order.
pub fn scan_xrefs(text: &str) -> (r: Vec<String>)
    ensures
        views(r@) == xref_targets(text@),
{
    let v = chars_of(text);
    let xref = chars_of("xref:");
    let n = v.len();
    let mut out: Vec<String> = Vec::new();
    let mut i: usize = 0;
    loop
        invariant
            n == v@.len(),
            v@ == text@,
            i <= n,
            xref@ == "xref:"@,
            views(out@) + targets_from(v@, i as int) == xref_targets(v@),
        decreases n - i,
    {
        let e = line_end_exec(&v, i);
        proof {
            lemma_line_end_bounds(v@, i as int);
        }
        let line = slice(&v, i, e);
        let ghost before = views(out@);
        let ghost here = match line_target(v@.subrange(i as int, e as int)) {
            Some(t) => seq![t],
            None => seq![],
        };
        assert(targets_from(v@, i as int) == if e < n { here + targets_from(v@, e + 1) } else { here });
        match line_target_exec(&line, &xref) {
            Some(t) => {
                let s = string_of(t.as_slice());
                out.push(s);
                assert(views(out@) =~= before + here);
            },
            None => {
                assert(views(out@) =~= before + here);
            },
        }
        if e < n {
            assert(views(out@) + targets_from(v@, e + 1) =~= xref_targets(v@));
            i = e + 1;
        } else {
            assert(views(out@) =~= xref_targets(v@));
            return out;
        }
    }
}

/// The directory part of a path: what precedes its last `/`.
pub fn parent_of(p: &str) -> (r: String)
    ensures
        r@ == parent(p@),
{
    let v = chars_of(p);
    match last_of_exec(&v, '/', v.len()) {
        None => String::new(),
        Some(i) => if i == 0 {
            let r = string_of(&['/']);
            assert(r@ =~= seq!['/']);
            r
        } else {
            string_of(slice(&v, 0, i).as_slice())
        },
    }
}

/// `name` taken relative to `dir`.
pub fn join_path(dir: &str, name: &str) -> (r: String)
    ensures
        r@ == join(dir@, name@),
{
    let d = chars_of(dir);
    let n = chars_of(name);
    let slash: Vec<char> = vec!['/'];
    assert(slash@ =~= seq!['/']);
    if occurs_at_exec(&n, &slash, 0) || d.len() == 0 {
        return string_of(n.as_slice());
    }
    let mut out = d.clone();
    if d[d.len() - 1] != '/' {
        out.push('/');
    }
    let mut k: usize = 0;
    let ghost base = out@;
    while k < n.len()
        invariant
            k <= n@.len(),
            out@ == base + n@.subrange(0, k as int),
        decreases n@.len() - k,
    {
        out.push(n[k]);
        k = k + 1;
        assert(out@ =~= base + n@.subrange(0, k as int));
    }
    assert(n@.subrange(0, n@.len() as int) =~= n@);
    string_of(out.as_slice())
}

/// Whether the path names a manifest, whose text must be read.
pub fn needs_contents(p: &str) -> (r: bool)
    ensures
        r == is_manifest(p@),
{
    let v = chars_of(p);
    let name = chars_of("index.adoc");
    let tail = chars_of("/index.adoc");
    proof {
        reveal_strlit("index.adoc");
        reveal_strlit("/index.adoc");
    }
    let same = v.len() == name.len() && occurs_at_exec(&v, &name, 0);
    if same {
        assert(v@ =~= v@.subrange(0, 10));
    } else if v.len() == name.len() {
        assert(v@ =~= v@.subrange(0, 10));
    }
    let at_end = v.len() >= tail.len() && occurs_at_exec(&v, &tail, v.len() - tail.len());
    same || at_end
}

/// The paths that a manifest at `path` holding `text` references, in order.
pub fn targets_of(path: &str, text: &str) -> (r: Vec<String>)
    ensures
        views(r@) == manifest_targets(path@, text@),
{
    let raw = scan_xrefs(text);
    let dir = parent_of(path);
    let mut out: Vec<String> = Vec::new();
    let mut i: usize = 0;
    while i < raw.len()
        invariant
            i <= raw@.len(),
            dir@ == parent(path@),
            views(raw@) == xref_targets(text@),
            views(out@) == manifest_targets(path@, text@).subrange(0, i as int),
        decreases raw@.len() - i,
    {
        let named = replace(raw[i].as_str(), "{cpp}", "c++");
        let full = join_path(dir.as_str(), named.as_str());
        let ghost before = views(out@);
        out.push(full);
        assert(views(raw@)[i as int] == raw@[i as int]@);
        assert(xref_targets(text@)[i as int] == raw@[i as int]@);
        assert(manifest_targets(path@, text@)[i as int] == full@);
        assert(views(out@) =~= before.push(full@));
        assert(manifest_targets(path@, text@).subrange(0, i + 1) =~= manifest_targets(path@, text@).subrange(0, i as int).push(full@));
        i = i + 1;
    }
    assert(manifest_targets(path@, text@).subrange(0, i as int) =~= manifest_targets(path@, text@));
    out
}

/// One pending step of a walk: expand `path`, or, once its references are done, emit it.
#[derive(Clone, Debug)]
pub struct Task {
    pub path: String,
    pub emit: bool,
    /// The manifests being expanded around this step.
    pub open: Vec<String>,
}

/// The manifests named in `open`.
pub open spec fn open_set(open: Seq<String>) -> Set<Seq<char>> {
    Set::new(|q: Seq<char>| exists|i: int| 0 <= i < open.len() && #[trigger] open[i]@ == q)
}

/// What a pending step still yields over `fs`.
pub open spec fn task_out(fs: Map<Seq<char>, Seq<char>>, t: Task) -> Seq<Seq<char>> {
    if t.emit {
        seq![t.path@]
    } else {
        resolve(fs, t.path@, open_set(t.open@))
    }
}

/// What a stack of pending steps still yields over `fs`, top (last) first.
pub open spec fn stack_out(fs: Map<Seq<char>, Seq<char>>, st: Seq<Task>) -> Seq<Seq<char>>
    decreases st.len(),
{
    if st.len() == 0 {
        seq![]
    } else {
        task_out(fs, st.last()) + stack_out(fs, st.drop_last())
    }
}

/// The reply to a request for `p` agrees with `fs`: `None` for a missing path, and for an
/// existing manifest its text.
pub open spec fn agrees(fs: Map<Seq<char>, Seq<char>>, p: Seq<char>, reply: Option<String>) -> bool {
    match reply {
        None => !fs.contains_key(p),
        Some(t) => fs.contains_key(p) && (is_manifest(p) ==> t@ == fs[p]),
    }
}

/// A walk from one root document, driven by the caller: `next_request` names a path to look
/// up, `answer` takes what was found there, and `into_result` gives the documents once
/// `next_request` has returned `None`.
pub struct GraphResolver {
    root: String,
    stack: Vec<Task>,
    found: Vec<String>,
}

impl GraphResolver {
    pub closed spec fn spec_root(&self) -> Seq<char> {
        self.root@
    }

    pub closed spec fn spec_stack(&self) -> Seq<Task> {
        self.stack@
    }

    pub closed spec fn spec_found(&self) -> Seq<Seq<char>> {
        views(self.found@)
    }

    /// Over `fs`, what was found so far and what the pending steps yield make up the
    /// resolution of the root.
    pub open spec fn tracks(&self, fs: Map<Seq<char>, Seq<char>>) -> bool {
        self.spec_found() + stack_out(fs, self.spec_stack()) == resolve(fs, self.spec_root(), Set::empty())
    }

    /// A request is pending: the top step expands a path that is not a manifest being
    /// expanded already.
    pub open spec fn pending(&self) -> bool {
        let st = self.spec_stack();
        &&& st.len() > 0
        &&& !st.last().emit
        &&& !(is_manifest(st.last().path@) && open_set(st.last().open@).contains(st.last().path@))
    }

    /// A walk that starts at `root`.
    pub fn new(root: String) -> (r: GraphResolver)
        ensures
            r.spec_root() == root@,
            r.spec_found() == Seq::<Seq<char>>::empty(),
            forall|fs: Map<Seq<char>, Seq<char>>| #[trigger] r.tracks(fs),
    {
        let task = Task { path: root.clone(), emit: false, open: Vec::new() };
        let r = GraphResolver { root, stack: vec![task], found: Vec::new() };
        assert(r.spec_found() =~= Seq::<Seq<char>>::empty());
        assert(open_set(task.open@) =~= Set::<Seq<char>>::empty());
        assert(r.stack@ == seq![task]);
        assert forall|fs: Map<Seq<char>, Seq<char>>| #[trigger] r.tracks(fs) by {
            assert(r.stack@.drop_last() =~= Seq::<Task>::empty());
            assert(r.stack@.last() == task);
            assert(stack_out(fs, r.spec_stack()) == task_out(fs, task) + stack_out(fs, Seq::<Task>::empty()));
            assert(r.spec_found() + stack_out(fs, r.spec_stack()) =~= resolve(fs, r.spec_root(), Set::empty()));
        }
        r
    }

    /// Emits the finished steps on top of the stack and names the next path to look up;
    /// `None` once the walk is over.
    pub fn next_request(&mut self) -> (r: Option<String>)
        ensures
            final(self).spec_root() == old(self).spec_root(),
            forall|fs: Map<Seq<char>, Seq<char>>| fs.dom().finite() && #[trigger] old(self).tracks(fs) ==> final(self).tracks(fs),
            r is None <==> final(self).spec_stack().len() == 0,
            r matches Some(p) ==> final(self).pending() && p@ == final(self).spec_stack().last().path@,
    {
        loop
            invariant
                self.spec_root() == old(self).spec_root(),
                forall|fs: Map<Seq<char>, Seq<char>>| fs.dom().finite() && #[trigger] old(self).tracks(fs) ==> self.tracks(fs),
            decreases self.stack@.len(),
        {
            let len = self.stack.len();
            if len == 0 {
                return None;
            }
            let top = &self.stack[len - 1];
            let cyclic = needs_contents(top.path.as_str()) && contains_path(&top.open, top.path.as_str());
            if !top.emit && !cyclic {
                return Some(top.path.clone());
            }
            let ghost old_stack = self.stack@;
            let ghost old_found = self.found@;
            let t = self.stack.pop().unwrap();
            if t.emit {
                self.found.push(t.path);
            }
            proof {
                assert(self.stack@ == old_stack.drop_last());
                assert forall|fs: Map<Seq<char>, Seq<char>>| fs.dom().finite() && #[trigger] old(self).tracks(fs) implies self.tracks(fs) by {
                    let before = views(old_found);
                    if t.emit {
                        assert(self.spec_found() =~= before.push(t.path@));
                        assert(self.spec_found() + stack_out(fs, self.spec_stack()) =~= before + stack_out(fs, old_stack));
                    } else {
                        assert(self.spec_found() =~= before);
                        assert(task_out(fs, t) =~= seq![]);
                        assert(self.spec_found() + stack_out(fs, self.spec_stack()) =~= before + stack_out(fs, old_stack));
                    }
                }
            }
        }
    }

    /// Takes what was found at the pending path: `None` where it does not exist; for a
    /// manifest, its text; for another document, any text.
    pub fn answer(&mut self, reply: Option<String>)
        requires
            old(self).pending(),
        ensures
            final(self).spec_root() == old(self).spec_root(),
            final(self).spec_found() == old(self).spec_found(),
            forall|fs: Map<Seq<char>, Seq<char>>| fs.dom().finite() && #[trigger] old(self).tracks(fs) && agrees(fs, old(self).spec_stack().last().path@, reply) ==> final(self).tracks(fs),
            reply is None ==> final(self).spec_stack() == old(self).spec_stack().drop_last(),
            reply is Some && !is_manifest(old(self).spec_stack().last().path@) ==> final(self).spec_stack() == old(self).spec_stack().drop_last().push(Task { emit: true, ..old(self).spec_stack().last() }),
            reply matches Some(text) ==> is_manifest(old(self).spec_stack().last().path@) ==> ({
                let st = old(self).spec_stack();
                let ts = manifest_targets(st.last().path@, text@);
                &&& final(self).spec_stack().len() == st.len() + ts.len()
                &&& final(self).spec_stack().subrange(0, st.len() - 1) == st.drop_last()
                &&& final(self).spec_stack()[st.len() - 1] == (Task { emit: true, ..st.last() })
                &&& forall|i: int| 0 <= i < ts.len() ==> {
                    let t = #[trigger] final(self).spec_stack()[final(self).spec_stack().len() - 1 - i];
                    &&& !t.emit
                    &&& t.path@ == ts[i]
                    &&& open_set(t.open@) == open_set(st.last().open@).insert(st.last().path@)
                }
            }),
    {
        let ghost st = self.stack@;
        let ghost found = self.found@;
        let mut t = self.stack.pop().unwrap();
        let ghost top = t;
        let text = match reply {
            None => {
                proof {
                    assert forall|fs: Map<Seq<char>, Seq<char>>| fs.dom().finite() && #[trigger] old(self).tracks(fs) && agrees(fs, top.path@, reply) implies self.tracks(fs) by {
                        assert(task_out(fs, top) =~= seq![]);
                        assert(stack_out(fs, st) =~= stack_out(fs, self.stack@));
                    }
                }
                return;
            },
            Some(text) => text,
        };
        let manifest = needs_contents(t.path.as_str());
        t.emit = true;
        let path = t.path.clone();
        let mut open = t.open.clone();
        assert(open@ =~= top.open@);
        let ghost emitted = t;
        self.stack.push(t);
        if !manifest {
            proof {
                assert forall|fs: Map<Seq<char>, Seq<char>>| fs.dom().finite() && #[trigger] old(self).tracks(fs) && agrees(fs, top.path@, reply) implies self.tracks(fs) by {
                    assert(self.stack@.drop_last() =~= st.drop_last());
                    assert(task_out(fs, emitted) =~= task_out(fs, top));
                }
            }
            return;
        }
        let ts = targets_of(path.as_str(), text.as_str());
        let ghost tsv = views(ts@);
        let ghost inner = open_set(top.open@).insert(top.path@);
        open.push(path);
        assert(open_set(open@) =~= inner) by {
            assert forall|q: Seq<char>| open_set(open@).contains(q) <==> inner.contains(q) by {
                if open_set(top.open@).contains(q) {
                    let i = choose|i: int| 0 <= i < top.open@.len() && #[trigger] top.open@[i]@ == q;
                    assert(open@[i]@ == q);
                }
                if open_set(open@).contains(q) {
                    let i = choose|i: int| 0 <= i < open@.len() && #[trigger] open@[i]@ == q;
                    if i < top.open@.len() {
                        assert(top.open@[i] == open@[i]);
                    }
                }
                if q == top.path@ {
                    assert(open@[top.open@.len() as int]@ == q);
                }
            }
        }
        let ghost base = self.stack@;
        let mut k = ts.len();
        while k > 0
            invariant
                k <= ts@.len(),
                tsv == views(ts@),
                tsv == manifest_targets(top.path@, text@),
                open_set(open@) == inner,
                self.root == old(self).root,
                self.found == old(self).found,
                self.stack@.len() == base.len() + (ts@.len() - k),
                self.stack@.subrange(0, base.len() as int) == base,
                forall|i: int| k <= i < ts@.len() ==> {
                    let t = #[trigger] self.stack@[self.stack@.len() - 1 - (i - k)];
                    &&& !t.emit
                    &&& t.path@ == tsv[i]
                    &&& open_set(t.open@) == inner
                },
                forall|fs: Map<Seq<char>, Seq<char>>| fs.dom().finite() ==> #[trigger] stack_out(fs, self.stack@) == resolve_list(fs, tsv.subrange(k as int, tsv.len() as int), inner) + stack_out(fs, base),
            decreases k,
        {
            let ghost prev = self.stack@;
            k = k - 1;
            let task = Task { path: ts[k].clone(), emit: false, open: open.clone() };
            assert(task.open@ =~= open@);
            self.stack.push(task);
            proof {
                assert(tsv[k as int] == ts@[k as int]@);
                assert(task.path@ == tsv[k as int]);
                assert(self.stack@.last() == task);
                assert(self.stack@.drop_last() == prev);
                assert(self.stack@.subrange(0, base.len() as int) =~= prev.subrange(0, base.len() as int));
                assert forall|fs: Map<Seq<char>, Seq<char>>| fs.dom().finite() implies #[trigger] stack_out(fs, self.stack@) == resolve_list(fs, tsv.subrange(k as int, tsv.len() as int), inner) + stack_out(fs, base) by {
                    let rest = tsv.subrange(k as int, tsv.len() as int);
                    assert(rest.drop_first() =~= tsv.subrange(k + 1, tsv.len() as int));
                    assert(rest[0] == tsv[k as int]);
                    assert(task_out(fs, task) == resolve(fs, tsv[k as int], inner));
                    assert(stack_out(fs, self.stack@) == task_out(fs, task) + stack_out(fs, prev));
                    assert(stack_out(fs, prev) == resolve_list(fs, rest.drop_first(), inner) + stack_out(fs, base));
                    assert(resolve_list(fs, rest, inner) == resolve(fs, rest[0], inner) + resolve_list(fs, rest.drop_first(), inner));
                }
                assert forall|i: int| k <= i < ts@.len() implies {
                    let t = #[trigger] self.stack@[self.stack@.len() - 1 - (i - k)];
                    &&& !t.emit
                    &&& t.path@ == tsv[i]
                    &&& open_set(t.open@) == inner
                } by {
                    if i > k {
                        assert(self.stack@[self.stack@.len() - 1 - (i - k)] == prev[prev.len() - 1 - (i - (k + 1))]);
                    }
                }
            }
        }
        proof {
            assert(tsv.subrange(0, tsv.len() as int) =~= tsv);
            assert(base.drop_last() =~= st.drop_last());
            assert(self.stack@.subrange(0, st.len() - 1) =~= base.subrange(0, st.len() - 1));
            assert(self.stack@[st.len() - 1] == base[st.len() - 1]);
            assert(base[st.len() - 1] == emitted);
            assert(emitted == (Task { emit: true, ..top }));
            assert(top == st.last());
            assert forall|i: int| 0 <= i < tsv.len() implies {
                let t = #[trigger] self.stack@[self.stack@.len() - 1 - i];
                &&& !t.emit
                &&& t.path@ == tsv[i]
                &&& open_set(t.open@) == inner
            } by {
                assert(self.stack@.len() - 1 - (i - 0) == self.stack@.len() - 1 - i);
            }
            assert forall|fs: Map<Seq<char>, Seq<char>>| fs.dom().finite() && #[trigger] old(self).tracks(fs) && agrees(fs, top.path@, reply) implies self.tracks(fs) by {
                assert(!(is_manifest(top.path@) && open_set(top.open@).contains(top.path@)));
                assert(task_out(fs, top) == resolve_list(fs, tsv, inner) + seq![top.path@]);
                assert(stack_out(fs, base) == seq![top.path@] + stack_out(fs, st.drop_last()));
                assert(stack_out(fs, self.stack@) =~= task_out(fs, top) + stack_out(fs, st.drop_last()));
            }
        }
    }

    /// The documents found, in the order the walk emitted them.
    pub fn into_result(self) -> (r: Vec<String>)
        ensures
            views(r@) == self.spec_found(),
    {
        self.found
    }
}

/// Whether `p` is among `open`.
fn contains_path(open: &Vec<String>, p: &str) -> (r: bool)
    ensures
        r == open_set(open@).contains(p@),
{
    let key = p.to_owned();
    let mut i: usize = 0;
    while i < open.len()
        invariant
            i <= open@.len(),
            key@ == p@,
            forall|j: int| 0 <= j < i ==> open@[j]@ != p@,
        decreases open@.len() - i,
    {
        if open[i] == key {
            return true;
        }
        i = i + 1;
    }
    false
}

/// A finished walk found exactly the resolution of its root over the file system that
/// answered it.
pub proof fn lemma_finished_walk_resolves(r: GraphResolver, fs: Map<Seq<char>, Seq<char>>)
    requires
        r.tracks(fs),
        r.spec_stack().len() == 0,
    ensures
        r.spec_found() == resolve(fs, r.spec_root(), Set::empty()),
{
    assert(r.spec_found() + seq![] =~= r.spec_found());
}

/// Resolving the same root twice over the same file system yields the same list.
pub proof fn lemma_resolution_repeats(a: GraphResolver, b: GraphResolver, fs: Map<Seq<char>, Seq<char>>)
    requires
        a.spec_root() == b.spec_root(),
        a.tracks(fs),
        b.tracks(fs),
        a.spec_stack().len() == 0,
        b.spec_stack().len() == 0,
    ensures
        a.spec_found() == b.spec_found(),
{
    lemma_finished_walk_resolves(a, fs);
    lemma_finished_walk_resolves(b, fs);
}

} // verus!
