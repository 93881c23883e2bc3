//! Last-modified times of tracked files, derived from one walk of the commit history.
//!
//! The walk lists commits newest first. Each commit carries the files that differ between its
//! tree and the tree of the next (older) commit of the walk. A file gets the time of the newest
//! commit that added or modified it; a file that no pair of the walk touches gets the time of
//! the oldest commit of the walk.
use std::fmt::Write;
use vstd::prelude::*;

verus! {

/// How a file differs between a commit's tree and the tree of the next, older, commit.
#[derive(Clone, Copy, Debug, PartialEq, Eq, Structural)]
pub enum ChangeKind {
    /// Present in the newer tree only.
    Added,
    /// Present in both trees, with different contents.
    Modified,
    /// Present in the older tree only.
    Removed,
}

/// One path that differs between two adjacent commits of the walk.
#[derive(Clone, Debug)]
pub struct FileChange {
    pub path: String,
    pub kind: ChangeKind,
}

/// One commit of the walk: its time, in seconds since the epoch, and the paths that differ
/// between its tree and the tree of the next commit of the walk.
#[derive(Clone, Debug)]
pub struct CommitRecord {
    pub time: i64,
    pub changes: Vec<FileChange>,
}

/// A change counts as touching its path unless the path left the tree.
pub open spec fn records(c: FileChange) -> bool {
    !(c.kind is Removed)
}

/// The commit touches `p`: one of its recorded changes is on `p`.
pub open spec fn touches(c: CommitRecord, p: Seq<char>) -> bool {
    exists|j: int| 0 <= j < c.changes@.len() && records(#[trigger] c.changes@[j]) && c.changes@[j].path@ == p
}

/// Some change among the first `n` changes of `c` is recorded and on `p`.
pub open spec fn touches_within(c: CommitRecord, p: Seq<char>, n: int) -> bool {
    exists|j: int| 0 <= j < n && records(#[trigger] c.changes@[j]) && c.changes@[j].path@ == p
}

/// The time of the newest commit among the first `k` of the walk that touches `p`, if any.
pub open spec fn newest_touch(walk: Seq<CommitRecord>, p: Seq<char>, k: int) -> Option<i64>
    decreases k,
{
    if k <= 0 {
        None
    } else {
        match newest_touch(walk, p, k - 1) {
            Some(t) => Some(t),
            None => if touches(walk[k - 1], p) {
                Some(walk[k - 1].time)
            } else {
                None
            },
        }
    }
}

/// The number of commits of the walk whose changes are looked at: all but the oldest, which
/// has no older commit to be compared with.
pub open spec fn paired(walk: Seq<CommitRecord>) -> int {
    walk.len() - 1
}

/// The time of the oldest commit of the walk, given to every file that no commit touches.
pub open spec fn fallback_time(walk: Seq<CommitRecord>) -> i64 {
    walk.last().time
}

/// The last-modified time of `p` over a non-empty walk.
pub open spec fn last_modified(walk: Seq<CommitRecord>, p: Seq<char>) -> i64 {
    match newest_touch(walk, p, paired(walk)) {
        Some(t) => t,
        None => fallback_time(walk),
    }
}

/// The time bound to `p` in a list of (path, time) pairs: the first pair whose path is `p`.
pub open spec fn lookup(m: Seq<(String, i64)>, p: Seq<char>) -> Option<i64>
    decreases m.len(),
{
    if m.len() == 0 {
        None
    } else if m[0].0@ == p {
        Some(m[0].1)
    } else {
        lookup(m.drop_first(), p)
    }
}

proof fn lemma_lookup_push(m: Seq<(String, i64)>, e: (String, i64), p: Seq<char>)
    ensures
        lookup(m.push(e), p) == match lookup(m, p) {
            Some(t) => Some(t),
            None => if e.0@ == p {
                Some(e.1)
            } else {
                None
            },
        },
    decreases m.len(),
{
    let pushed = m.push(e);
    if m.len() > 0 {
        assert(pushed[0] == m[0]);
        assert(pushed.drop_first() =~= m.drop_first().push(e));
        lemma_lookup_push(m.drop_first(), e, p);
    } else {
        assert(pushed[0] == e);
        assert(pushed.drop_first() =~= Seq::<(String, i64)>::empty());
        assert(lookup(pushed.drop_first(), p) is None);
    }
}

/// A time formatted by chrono, in UTC, with a strftime-style pattern; `None` where the
/// instant is out of chrono's range or the pattern cannot be rendered.
pub uninterp spec fn utc_formatted(secs: i64, pattern: Seq<char>) -> Option<Seq<char>>;

/// Relies on `chrono::DateTime::from_timestamp` (UTC; `None` out of range) and on
/// `DateTime::format`, written into a string so that a bad pattern is an error, not a panic.
#[verifier::external_body]
fn format_utc(secs: i64, pattern: &str) -> (r: Option<String>)
    ensures
        r matches Some(s) ==> utc_formatted(secs, pattern@) == Some(s@),
        r is None ==> utc_formatted(secs, pattern@) is None,
{
    let dt = chrono::DateTime::from_timestamp(secs, 0)?;
    let mut out = String::new();
    match write!(out, "{}", dt.format(pattern)) {
        Ok(()) => Some(out),
        Err(_) => None,
    }
}

/// The pattern in which last-modified times are shown.
pub const TIME_PATTERN: &'static str = "%Y-%m-%d %H:%M:%S";

/// The last-modified time of every file touched by the walk, and the fallback for the rest.
pub struct GitInfo {
    mtimes: Vec<(String, i64)>,
    default_time: i64,
}

impl GitInfo {
    /// The time that `get_last_modified` returns for `p`.
    pub closed spec fn spec_last_modified(&self, p: Seq<char>) -> i64 {
        match lookup(self.mtimes@, p) {
            Some(t) => t,
            None => self.default_time,
        }
    }

    /// The time given to files that no commit touches.
    pub closed spec fn spec_fallback(&self) -> i64 {
        self.default_time
    }

    /// Scans a walk, newest commit first. `None` when the walk holds no commit.
    pub fn new(walk: Vec<CommitRecord>) -> (r: Option<GitInfo>)
        ensures
            r is None <==> walk@.len() == 0,
            r matches Some(g) ==> g.spec_fallback() == fallback_time(walk@),
            r matches Some(g) ==> forall|p: Seq<char>| #[trigger]
                g.spec_last_modified(p) == last_modified(walk@, p),
    {
        if walk.len() == 0 {
            return None;
        }
        let n = walk.len() - 1;
        let mut mtimes: Vec<(String, i64)> = Vec::new();
        let mut k: usize = 0;
        while k < n
            invariant
                n == walk@.len() - 1,
                k <= n,
                forall|p: Seq<char>| #[trigger] lookup(mtimes@, p) == newest_touch(walk@, p, k as int),
            decreases n - k,
        {
            let commit = &walk[k];
            let mut j: usize = 0;
            while j < commit.changes.len()
                invariant
                    n == walk@.len() - 1,
                    k < n,
                    *commit == walk@[k as int],
                    j <= commit.changes@.len(),
                    forall|p: Seq<char>| #[trigger] lookup(mtimes@, p) == match newest_touch(walk@, p, k as int) {
                        Some(t) => Some(t),
                        None => if touches_within(*commit, p, j as int) {
                            Some(commit.time)
                        } else {
                            None
                        },
                    },
                decreases commit.changes@.len() - j,
            {
                let change = &commit.changes[j];
                let ghost before = mtimes@;
                let ghost mut added = false;
                if !(change.kind == ChangeKind::Removed) {
                    let found = find_time(&mtimes, change.path.as_str());
                    if found.is_none() {
                        mtimes.push((change.path.clone(), commit.time));
                        proof {
                            added = true;
                        }
                    }
                }
                proof {
                    let e = (change.path, commit.time);
                    assert(added ==> mtimes@ == before.push(e));
                    assert(!added ==> mtimes@ == before);
                    assert forall|p: Seq<char>| #[trigger] lookup(mtimes@, p) == match newest_touch(walk@, p, k as int) {
                        Some(t) => Some(t),
                        None => if touches_within(*commit, p, j + 1) {
                            Some(commit.time)
                        } else {
                            None
                        },
                    } by {
                        if added {
                            lemma_lookup_push(before, e, p);
                        }
                        if records(*change) && change.path@ == p {
                            assert(touches_within(*commit, p, j + 1));
                        }
                        if touches_within(*commit, p, j as int) {
                            let jj = choose|jj: int| 0 <= jj < j && records(#[trigger] commit.changes@[jj]) && commit.changes@[jj].path@ == p;
                            assert(touches_within(*commit, p, j + 1));
                        }
                        if touches_within(*commit, p, j + 1) && !(records(*change) && change.path@ == p) {
                            let jj = choose|jj: int| 0 <= jj < j + 1 && records(#[trigger] commit.changes@[jj]) && commit.changes@[jj].path@ == p;
                            assert(touches_within(*commit, p, j as int));
                        }
                    }
                }
                j = j + 1;
            }
            proof {
                assert forall|p: Seq<char>| #[trigger] touches_within(*commit, p, commit.changes@.len() as int) == touches(*commit, p) by {}
            }
            k = k + 1;
        }
        Some(GitInfo { mtimes, default_time: walk[n].time })
    }

    /// The last-modified time of `path`, in seconds since the epoch.
    pub fn get_last_modified(&self, path: &str) -> (t: i64)
        ensures
            t == self.spec_last_modified(path@),
    {
        match find_time(&self.mtimes, path) {
            Some(t) => t,
            None => self.default_time,
        }
    }

    /// The last-modified time of `file_name`, shown as a UTC date and time; `None` where the
    /// time cannot be shown.
    pub fn get_last_commit_time_of_file(&self, file_name: &str) -> (r: Option<String>)
        ensures
            r matches Some(s) ==> utc_formatted(self.spec_last_modified(file_name@), TIME_PATTERN@) == Some(s@),
            r is None ==> utc_formatted(self.spec_last_modified(file_name@), TIME_PATTERN@) is None,
    {
        format_utc(self.get_last_modified(file_name), TIME_PATTERN)
    }
}

/// The time bound to `p` in `m`, searching from the front.
fn find_time(m: &Vec<(String, i64)>, p: &str) -> (r: Option<i64>)
    ensures
        r == lookup(m@, p@),
{
    let key = p.to_owned();
    let mut i: usize = 0;
    assert(m@.subrange(0, m@.len() as int) =~= m@);
    while i < m.len()
        invariant
            i <= m@.len(),
            key@ == p@,
            lookup(m@, p@) == lookup(m@.subrange(i as int, m@.len() as int), p@),
        decreases m@.len() - i,
    {
        let ghost rest = m@.subrange(i as int, m@.len() as int);
        assert(rest.drop_first() =~= m@.subrange(i + 1, m@.len() as int));
        if m[i].0 == key {
            return Some(m[i].1);
        }
        i = i + 1;
    }
    None
}

/// A file that no commit of the walk touches gets the fallback time, the time of the oldest
/// commit; so all such files get the same time.
pub proof fn lemma_untouched_gets_fallback(walk: Seq<CommitRecord>, p: Seq<char>, q: Seq<char>)
    requires
        walk.len() > 0,
        forall|i: int| 0 <= i < paired(walk) ==> !touches(#[trigger] walk[i], p),
        forall|i: int| 0 <= i < paired(walk) ==> !touches(#[trigger] walk[i], q),
    ensures
        last_modified(walk, p) == fallback_time(walk),
        last_modified(walk, p) == last_modified(walk, q),
{
    lemma_newest_touch_none(walk, p, paired(walk));
    lemma_newest_touch_none(walk, q, paired(walk));
}

/// A file touched by several commits gets the time of the newest of them.
pub proof fn lemma_newest_touch_wins(walk: Seq<CommitRecord>, p: Seq<char>, i: int)
    requires
        0 <= i < paired(walk),
        touches(walk[i], p),
        forall|j: int| 0 <= j < i ==> !touches(#[trigger] walk[j], p),
    ensures
        last_modified(walk, p) == walk[i].time,
{
    lemma_newest_touch_none(walk, p, i);
    lemma_newest_touch_keeps(walk, p, i + 1, paired(walk));
}

proof fn lemma_newest_touch_none(walk: Seq<CommitRecord>, p: Seq<char>, k: int)
    requires
        k <= walk.len(),
        forall|i: int| 0 <= i < k ==> !touches(#[trigger] walk[i], p),
    ensures
        newest_touch(walk, p, k) is None,
    decreases k,
{
    if k > 0 {
        lemma_newest_touch_none(walk, p, k - 1);
    }
}

proof fn lemma_newest_touch_keeps(walk: Seq<CommitRecord>, p: Seq<char>, k: int, m: int)
    requires
        0 < k <= m,
        newest_touch(walk, p, k) is Some,
    ensures
        newest_touch(walk, p, m) == newest_touch(walk, p, k),
    decreases m - k,
{
    if k < m {
        lemma_newest_touch_keeps(walk, p, k, m - 1);
    }
}

} // verus!
