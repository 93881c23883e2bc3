//! The search index of a build: one record per page, kept in an embedded redb table.
//!
//! The table is cleared when a build starts, gets one record per page, and is listed whole
//! at the end. A record maps the page's key to its text, its title and its last-modified
//! time.
use crate::filetree::name_le;
use crate::generator::{opt_view, IndexEntry};
use redb::{ReadableDatabase, ReadableTable};
use vstd::prelude::*;

verus! {

/// `redb::Database`, the open database file; what its tables hold is named by
/// `table_contents`.
#[verifier::external_type_specification]
#[verifier::external_body]
pub struct ExDatabase(redb::Database);

/// A record as the index holds it: text, title, and last-modified time.
pub type EntryView = (Seq<char>, Seq<char>, Option<Seq<char>>);

/// An index with no record.
pub open spec fn no_records() -> Map<Seq<char>, EntryView> {
    Map::empty()
}

/// The records of table `table` of the database, by key.
pub uninterp spec fn table_contents(db: redb::Database, table: Seq<char>) -> Map<Seq<char>, EntryView>;

/// Relies on `redb::Database::create`: opens the database file at `path`, or makes it. An
/// error comes back as its message.
#[verifier::external_body]
fn open_database(path: &str) -> (r: Result<redb::Database, String>) {
    redb::Database::create(path).map_err(|e| e.to_string())
}

/// Relies on one write transaction of redb (`begin_write`, `open_table`, `delete_table`,
/// `open_table` again, `commit`): once committed, the table exists and is empty. An error
/// comes back as its message; a transaction that is dropped uncommitted is aborted, and a
/// commit applies fully or not at all, so after an error the table is as before or empty.
#[verifier::external_body]
fn clear_table(db: &mut redb::Database, table: &str) -> (r: Result<(), String>)
    ensures
        r is Ok ==> table_contents(*final(db), table@) == no_records(),
        r is Err ==> table_contents(*final(db), table@) == table_contents(*old(db), table@)
            || table_contents(*final(db), table@) == no_records(),
{
    let def: redb::TableDefinition<String, (String, String, Option<String>)> = redb::TableDefinition::new(table);
    let txn = db.begin_write().map_err(|e| e.to_string())?;
    {
        let t = txn.open_table(def).map_err(|e| e.to_string())?;
        txn.delete_table(t).map_err(|e| e.to_string())?;
        txn.open_table(def).map_err(|e| e.to_string())?;
    }
    txn.commit().map_err(|e| e.to_string())
}

/// Relies on one write transaction of redb (`begin_write`, `open_table`, `Table::insert`,
/// `commit`): once committed, `key` maps to the record, replacing any record it had. After an
/// error the transaction was aborted or applied whole: the table is as before or holds the
/// record.
#[verifier::external_body]
fn insert_record(db: &mut redb::Database, table: &str, key: String, record: (String, String, Option<String>)) -> (r: Result<(), String>)
    ensures
        r is Ok ==> table_contents(*final(db), table@) == table_contents(*old(db), table@).insert(key@, (record.0@, record.1@, opt_view(record.2))),
        r is Err ==> table_contents(*final(db), table@) == table_contents(*old(db), table@)
            || table_contents(*final(db), table@) == table_contents(*old(db), table@).insert(key@, (record.0@, record.1@, opt_view(record.2))),
{
    let def: redb::TableDefinition<String, (String, String, Option<String>)> = redb::TableDefinition::new(table);
    let txn = db.begin_write().map_err(|e| e.to_string())?;
    {
        let mut t = txn.open_table(def).map_err(|e| e.to_string())?;
        t.insert(key, record).map_err(|e| e.to_string())?;
    }
    txn.commit().map_err(|e| e.to_string())
}

/// Relies on one read transaction of redb (`begin_read`, `open_table`, `ReadableTable::iter`):
/// every record of the table, each key once, in the order of the key type, which for `String`
/// is `str`'s order.
#[verifier::external_body]
fn list_records(db: &redb::Database, table: &str) -> (r: Result<Vec<(String, (String, String, Option<String>))>, String>)
    ensures
        r matches Ok(v) ==> distinct_records(v@) && record_map(v@) == table_contents(*db, table@) && records_ascending(v@),
{
    let def: redb::TableDefinition<String, (String, String, Option<String>)> = redb::TableDefinition::new(table);
    let txn = db.begin_read().map_err(|e| e.to_string())?;
    let t = txn.open_table(def).map_err(|e| e.to_string())?;
    let mut out = Vec::new();
    for item in t.iter().map_err(|e| e.to_string())? {
        let (k, v) = item.map_err(|e| e.to_string())?;
        out.push((k.value(), v.value()));
    }
    Ok(out)
}

/// Keys of listed records are pairwise distinct.
pub open spec fn distinct_records(v: Seq<(String, (String, String, Option<String>))>) -> bool {
    forall|i: int, j: int| 0 <= i < v.len() && 0 <= j < v.len() && i != j ==> #[trigger] v[i].0@ != #[trigger] v[j].0@
}

/// `a` comes strictly before `b` in `str`'s order.
pub open spec fn key_before(a: Seq<char>, b: Seq<char>) -> bool {
    name_le(a, b) && a != b
}

/// Listed keys go up strictly.
pub open spec fn records_ascending(v: Seq<(String, (String, String, Option<String>))>) -> bool {
    forall|i: int, j: int| 0 <= i < j < v.len() ==> #[trigger] key_before(v[i].0@, v[j].0@) && key_before(v[i].0@, v[j].0@)
}

/// Listed keys go up strictly.
pub open spec fn listed_ascending(v: Seq<(String, IndexEntry)>) -> bool {
    forall|i: int, j: int| 0 <= i < j < v.len() ==> #[trigger] key_before(v[i].0@, v[j].0@) && key_before(v[i].0@, v[j].0@)
}

/// The view of one listed record.
pub open spec fn record_view(r: (String, String, Option<String>)) -> EntryView {
    (r.0@, r.1@, opt_view(r.2))
}

/// Listed records as a map by key; where a key comes twice the later record wins.
pub open spec fn record_map(v: Seq<(String, (String, String, Option<String>))>) -> Map<Seq<char>, EntryView>
    decreases v.len(),
{
    if v.len() == 0 {
        Map::empty()
    } else {
        record_map(v.drop_last()).insert(v.last().0@, record_view(v.last().1))
    }
}

/// The table name of the search index.
pub const TABLE_NAME: &'static str = "INDEX";

/// A failure of the index store, with the store's message.
#[derive(Debug, Clone)]
pub enum IndexError {
    Storage(String),
}

/// The search index of one build, kept in an embedded database.
pub struct IndexStore {
    db: redb::Database,
}

impl IndexStore {
    /// The records of the index, by key.
    pub closed spec fn contents(&self) -> Map<Seq<char>, EntryView> {
        table_contents(self.db, TABLE_NAME@)
    }

    /// Opens, or makes, the index database file at `path`.
    pub fn open(path: &str) -> (r: Result<IndexStore, IndexError>) {
        match open_database(path) {
            Ok(db) => Ok(IndexStore { db }),
            Err(e) => Err(IndexError::Storage(e)),
        }
    }
}

/// Empties the index.
pub fn index_clear(store: &mut IndexStore) -> (r: Result<(), IndexError>)
    ensures
        r is Ok ==> final(store).contents() == no_records(),
        r is Err ==> final(store).contents() == old(store).contents() || final(store).contents() == no_records(),
{
    match clear_table(&mut store.db, TABLE_NAME) {
        Ok(()) => Ok(()),
        Err(e) => Err(IndexError::Storage(e)),
    }
}

/// Records the page with key `k`, replacing any record it had.
pub fn index_insert(store: &mut IndexStore, k: String, v: IndexEntry) -> (r: Result<(), IndexError>)
    ensures
        r is Ok ==> final(store).contents() == old(store).contents().insert(k@, (v.text@, v.title@, opt_view(v.last_modified))),
        r is Err ==> final(store).contents() == old(store).contents()
            || final(store).contents() == old(store).contents().insert(k@, (v.text@, v.title@, opt_view(v.last_modified))),
{
    match insert_record(&mut store.db, TABLE_NAME, k, (v.text, v.title, v.last_modified)) {
        Ok(()) => Ok(()),
        Err(e) => Err(IndexError::Storage(e)),
    }
}

/// The view of a listed record with its key.
pub open spec fn listed_view(p: (String, IndexEntry)) -> (Seq<char>, EntryView) {
    (p.0@, (p.1.text@, p.1.title@, opt_view(p.1.last_modified)))
}

/// Listed records as a map by key.
#[verifier::opaque]
pub open spec fn listed_map(v: Seq<(String, IndexEntry)>) -> Map<Seq<char>, EntryView>
    decreases v.len(),
{
    if v.len() == 0 {
        Map::empty()
    } else {
        listed_map(v.drop_last()).insert(listed_view(v.last()).0, listed_view(v.last()).1)
    }
}

/// Keys of listed records are pairwise distinct.
pub open spec fn distinct_listed(v: Seq<(String, IndexEntry)>) -> bool {
    forall|i: int, j: int| 0 <= i < v.len() && 0 <= j < v.len() && i != j ==> #[trigger] v[i].0@ != #[trigger] v[j].0@
}

/// Every record of the index, each key once.
pub fn index_list(store: &IndexStore) -> (r: Result<Vec<(String, IndexEntry)>, IndexError>)
    ensures
        r matches Ok(v) ==> distinct_listed(v@) && listed_map(v@) == store.contents() && listed_ascending(v@),
{
    let records = match list_records(&store.db, TABLE_NAME) {
        Ok(v) => v,
        Err(e) => return Err(IndexError::Storage(e)),
    };
    let mut out: Vec<(String, IndexEntry)> = Vec::new();
    let mut i: usize = 0;
    while i < records.len()
        invariant
            i <= records@.len(),
            out@.len() == i,
            forall|j: int| 0 <= j < i ==> #[trigger] listed_view(out@[j]) == (records@[j].0@, record_view(records@[j].1)),
        decreases records@.len() - i,
    {
        let (k, (text, title, last_modified)) = (records[i].0.clone(), (records[i].1.0.clone(), records[i].1.1.clone(), clone_opt(&records[i].1.2)));
        out.push((k, IndexEntry { text, title, last_modified }));
        assert(listed_view(out@[i as int]) == (records@[i as int].0@, record_view(records@[i as int].1)));
        i = i + 1;
    }
    proof {
        lemma_listed_matches(out@, records@);
    }
    Ok(out)
}

fn clone_opt(o: &Option<String>) -> (r: Option<String>)
    ensures
        opt_view(r) == opt_view(*o),
{
    match o {
        Some(s) => Some(s.clone()),
        None => None,
    }
}

proof fn lemma_listed_matches(out: Seq<(String, IndexEntry)>, recs: Seq<(String, (String, String, Option<String>))>)
    requires
        out.len() == recs.len(),
        forall|j: int| 0 <= j < out.len() ==> #[trigger] listed_view(out[j]) == (recs[j].0@, record_view(recs[j].1)),
    ensures
        listed_map(out) == record_map(recs),
        distinct_records(recs) ==> distinct_listed(out),
        records_ascending(recs) ==> listed_ascending(out),
    decreases out.len(),
{
    reveal(listed_map);
    if out.len() > 0 {
        lemma_listed_matches(out.drop_last(), recs.drop_last());
        assert(listed_view(out[out.len() - 1]) == (recs[recs.len() - 1].0@, record_view(recs[recs.len() - 1].1)));
    }
    if records_ascending(recs) {
        assert forall|i: int, j: int| 0 <= i < j < out.len() implies #[trigger] key_before(out[i].0@, out[j].0@) && key_before(out[i].0@, out[j].0@) by {
            assert(listed_view(out[i]) == (recs[i].0@, record_view(recs[i].1)));
            assert(listed_view(out[j]) == (recs[j].0@, record_view(recs[j].1)));
            assert(key_before(recs[i].0@, recs[j].0@));
        }
    }
    if distinct_records(recs) {
        assert forall|i: int, j: int| 0 <= i < out.len() && 0 <= j < out.len() && i != j implies #[trigger] out[i].0@ != #[trigger] out[j].0@ by {
            assert(listed_view(out[i]) == (recs[i].0@, record_view(recs[i].1)));
            assert(listed_view(out[j]) == (recs[j].0@, record_view(recs[j].1)));
        }
    }
}

/// The listed record `p` is the record `e`.
pub open spec fn lists(p: (String, IndexEntry), e: (Seq<char>, EntryView)) -> bool {
    listed_view(p) == e
}

/// Some listed record is `e`.
pub open spec fn has_record(listed: Seq<(String, IndexEntry)>, e: (Seq<char>, EntryView)) -> bool {
    exists|j: int| 0 <= j < listed.len() && #[trigger] lists(listed[j], e)
}

/// The listed record `p` is one of `entries`.
pub open spec fn was_inserted(entries: Seq<(Seq<char>, EntryView)>, p: (String, IndexEntry)) -> bool {
    exists|i: int| 0 <= i < entries.len() && #[trigger] lists(p, entries[i])
}

/// The index after inserting `entries` in order into `m`.
#[verifier::opaque]
pub open spec fn after_inserts(m: Map<Seq<char>, EntryView>, entries: Seq<(Seq<char>, EntryView)>) -> Map<Seq<char>, EntryView>
    decreases entries.len(),
{
    if entries.len() == 0 {
        m
    } else {
        after_inserts(m, entries.drop_last()).insert(entries.last().0, entries.last().1)
    }
}

/// Inserting records with distinct keys into an empty index and then listing it gives back
/// exactly those records: as many, with the same keys and the same fields.
pub proof fn lemma_insert_then_list(entries: Seq<(Seq<char>, EntryView)>, listed: Seq<(String, IndexEntry)>)
    requires
        forall|i: int, j: int| 0 <= i < entries.len() && 0 <= j < entries.len() && i != j ==> #[trigger] entries[i].0 != #[trigger] entries[j].0,
        distinct_listed(listed),
        listed_map(listed) == after_inserts(Map::empty(), entries),
    ensures
        listed.len() == entries.len(),
        forall|i: int| 0 <= i < entries.len() ==> #[trigger] has_record(listed, entries[i]),
        forall|j: int| 0 <= j < listed.len() ==> #[trigger] was_inserted(entries, listed[j]),
{
    lemma_round_trip_len(entries, listed);
    lemma_round_trip_members(entries, listed);
}

proof fn lemma_round_trip_len(entries: Seq<(Seq<char>, EntryView)>, listed: Seq<(String, IndexEntry)>)
    requires
        forall|i: int, j: int| 0 <= i < entries.len() && 0 <= j < entries.len() && i != j ==> #[trigger] entries[i].0 != #[trigger] entries[j].0,
        distinct_listed(listed),
        listed_map(listed) == after_inserts(Map::empty(), entries),
    ensures
        listed.len() == entries.len(),
{
    let m = listed_map(listed);
    let keys_l = Set::new(|k: Seq<char>| exists|j: int| 0 <= j < listed.len() && listed[j].0@ == k);
    lemma_listed_map(listed);
    assert(m.dom() =~= keys_l) by {
        assert forall|k: Seq<char>| m.dom().contains(k) <==> keys_l.contains(k) by {
            if keys_l.contains(k) {
                let j = choose|j: int| 0 <= j < listed.len() && listed[j].0@ == k;
                assert(m.contains_key(listed[j].0@));
            }
        }
    }
    lemma_distinct_len(listed);
    lemma_entry_keys_len(entries);
}

proof fn lemma_round_trip_members(entries: Seq<(Seq<char>, EntryView)>, listed: Seq<(String, IndexEntry)>)
    requires
        forall|i: int, j: int| 0 <= i < entries.len() && 0 <= j < entries.len() && i != j ==> #[trigger] entries[i].0 != #[trigger] entries[j].0,
        distinct_listed(listed),
        listed_map(listed) == after_inserts(Map::empty(), entries),
    ensures
        forall|i: int| 0 <= i < entries.len() ==> #[trigger] has_record(listed, entries[i]),
        forall|j: int| 0 <= j < listed.len() ==> #[trigger] was_inserted(entries, listed[j]),
{
    let m = listed_map(listed);
    lemma_after_inserts(entries);
    lemma_listed_map(listed);
    assert forall|i: int| 0 <= i < entries.len() implies #[trigger] has_record(listed, entries[i]) by {
        assert(m.contains_key(entries[i].0));
        let j = choose|j: int| 0 <= j < listed.len() && listed[j].0@ == entries[i].0;
        assert(m.contains_key(listed[j].0@));
        assert(lists(listed[j], entries[i]));
    }
    assert forall|j: int| 0 <= j < listed.len() implies #[trigger] was_inserted(entries, listed[j]) by {
        assert(m.contains_key(listed[j].0@));
        let i = choose|i: int| 0 <= i < entries.len() && entries[i].0 == listed[j].0@;
        assert(m.contains_key(entries[i].0));
        assert(lists(listed[j], entries[i]));
    }
}

proof fn lemma_after_inserts(entries: Seq<(Seq<char>, EntryView)>)
    requires
        forall|i: int, j: int| 0 <= i < entries.len() && 0 <= j < entries.len() && i != j ==> #[trigger] entries[i].0 != #[trigger] entries[j].0,
    ensures
        forall|i: int| 0 <= i < entries.len() ==> #[trigger] after_inserts(Map::empty(), entries).contains_key(entries[i].0) && after_inserts(Map::empty(), entries)[entries[i].0] == entries[i].1,
        forall|k: Seq<char>| #[trigger] after_inserts(Map::empty(), entries).contains_key(k) ==> exists|i: int| 0 <= i < entries.len() && entries[i].0 == k,
    decreases entries.len(),
{
    reveal(after_inserts);
    if entries.len() > 0 {
        let t = entries.drop_last();
        assert forall|i: int, j: int| 0 <= i < t.len() && 0 <= j < t.len() && i != j implies #[trigger] t[i].0 != #[trigger] t[j].0 by {
            assert(t[i] == entries[i] && t[j] == entries[j]);
        }
        lemma_after_inserts(t);
        assert forall|i: int| 0 <= i < entries.len() implies #[trigger] after_inserts(Map::empty(), entries).contains_key(entries[i].0) && after_inserts(Map::empty(), entries)[entries[i].0] == entries[i].1 by {
            if i < entries.len() - 1 {
                assert(t[i] == entries[i]);
                assert(after_inserts(Map::empty(), t).contains_key(t[i].0));
            }
        }
        assert forall|k: Seq<char>| #[trigger] after_inserts(Map::empty(), entries).contains_key(k) implies exists|i: int| 0 <= i < entries.len() && entries[i].0 == k by {
            if k != entries.last().0 {
                assert(after_inserts(Map::empty(), t).contains_key(k));
                let i = choose|i: int| 0 <= i < t.len() && t[i].0 == k;
                assert(entries[i] == t[i]);
            } else {
                assert(entries[entries.len() - 1].0 == k);
            }
        }
    }
}

proof fn lemma_listed_map(v: Seq<(String, IndexEntry)>)
    requires
        distinct_listed(v),
    ensures
        forall|j: int| 0 <= j < v.len() ==> #[trigger] listed_map(v).contains_key(v[j].0@) && listed_map(v)[v[j].0@] == listed_view(v[j]).1,
        forall|k: Seq<char>| #[trigger] listed_map(v).contains_key(k) ==> exists|j: int| 0 <= j < v.len() && v[j].0@ == k,
    decreases v.len(),
{
    reveal(listed_map);
    if v.len() > 0 {
        let t = v.drop_last();
        assert forall|i: int, j: int| 0 <= i < t.len() && 0 <= j < t.len() && i != j implies #[trigger] t[i].0@ != #[trigger] t[j].0@ by {
            assert(t[i] == v[i] && t[j] == v[j]);
        }
        lemma_listed_map(t);
        assert forall|j: int| 0 <= j < v.len() implies #[trigger] listed_map(v).contains_key(v[j].0@) && listed_map(v)[v[j].0@] == listed_view(v[j]).1 by {
            if j < v.len() - 1 {
                assert(t[j] == v[j]);
                assert(listed_map(t).contains_key(t[j].0@));
            }
        }
        assert forall|k: Seq<char>| #[trigger] listed_map(v).contains_key(k) implies exists|j: int| 0 <= j < v.len() && v[j].0@ == k by {
            if k != v.last().0@ {
                assert(listed_map(t).contains_key(k));
                let j = choose|j: int| 0 <= j < t.len() && t[j].0@ == k;
                assert(v[j] == t[j]);
            } else {
                assert(v[v.len() - 1].0@ == k);
            }
        }
    }
}

proof fn lemma_distinct_len(v: Seq<(String, IndexEntry)>)
    requires
        distinct_listed(v),
    ensures
        Set::new(|k: Seq<char>| exists|j: int| 0 <= j < v.len() && v[j].0@ == k).finite(),
        Set::new(|k: Seq<char>| exists|j: int| 0 <= j < v.len() && v[j].0@ == k).len() == v.len(),
{
    let keys = v.map_values(|p: (String, IndexEntry)| p.0@);
    assert(keys.no_duplicates()) by {
        assert forall|i: int, j: int| 0 <= i < keys.len() && 0 <= j < keys.len() && i != j implies keys[i] != keys[j] by {
            assert(keys[i] == v[i].0@ && keys[j] == v[j].0@);
        }
    }
    keys.unique_seq_to_set();
    assert(keys.to_set() =~= Set::new(|k: Seq<char>| exists|j: int| 0 <= j < v.len() && v[j].0@ == k)) by {
        assert forall|k: Seq<char>| keys.to_set().contains(k) <==> exists|j: int| 0 <= j < v.len() && v[j].0@ == k by {
            if keys.to_set().contains(k) {
                let j = choose|j: int| 0 <= j < keys.len() && keys[j] == k;
                assert(v[j].0@ == k);
            }
            if exists|j: int| 0 <= j < v.len() && v[j].0@ == k {
                let j = choose|j: int| 0 <= j < v.len() && v[j].0@ == k;
                assert(keys[j] == k);
            }
        }
    }
}

proof fn lemma_entry_keys_len(entries: Seq<(Seq<char>, EntryView)>)
    requires
        forall|i: int, j: int| 0 <= i < entries.len() && 0 <= j < entries.len() && i != j ==> #[trigger] entries[i].0 != #[trigger] entries[j].0,
    ensures
        after_inserts(Map::empty(), entries).dom().finite(),
        after_inserts(Map::empty(), entries).dom().len() == entries.len(),
{
    lemma_after_inserts(entries);
    let keys = entries.map_values(|e: (Seq<char>, EntryView)| e.0);
    assert(keys.no_duplicates()) by {
        assert forall|i: int, j: int| 0 <= i < keys.len() && 0 <= j < keys.len() && i != j implies keys[i] != keys[j] by {
            assert(keys[i] == entries[i].0 && keys[j] == entries[j].0);
        }
    }
    keys.unique_seq_to_set();
    assert(keys.to_set() =~= after_inserts(Map::empty(), entries).dom()) by {
        assert forall|k: Seq<char>| keys.to_set().contains(k) <==> #[trigger] after_inserts(Map::empty(), entries).dom().contains(k) by {
            if keys.to_set().contains(k) {
                let j = choose|j: int| 0 <= j < keys.len() && keys[j] == k;
                assert(entries[j].0 == k);
            }
            if after_inserts(Map::empty(), entries).contains_key(k) {
                let j = choose|j: int| 0 <= j < entries.len() && entries[j].0 == k;
                assert(keys[j] == k);
            }
        }
    }
}

} // verus!
