use asphinx::generator::IndexEntry;
use asphinx::index::{index_clear, index_insert, index_list, IndexStore};

fn entry(text: &str, title: &str, time: Option<&str>) -> IndexEntry {
    IndexEntry { text: text.to_string(), title: title.to_string(), last_modified: time.map(|t| t.to_string()) }
}

#[test]
fn insert_then_list_round_trip() {
    let mut store = IndexStore::open("/tmp/asphinx_index_round_trip.redb").unwrap();
    index_clear(&mut store).unwrap();
    let records = vec![
        ("b.html".to_string(), entry("bee", "B", Some("2015-05-15 00:00:00"))),
        ("a.html".to_string(), entry("ay", "A", None)),
        ("c/d.html".to_string(), entry("", "D", Some("1970-01-01 00:00:00"))),
    ];
    for (k, v) in records.iter() {
        index_insert(&mut store, k.clone(), v.clone()).unwrap();
    }
    let mut listed = index_list(&store).unwrap();
    listed.sort_by(|x, y| x.0.cmp(&y.0));
    let mut expected = records.clone();
    expected.sort_by(|x, y| x.0.cmp(&y.0));
    assert_eq!(listed, expected);
}

#[test]
fn clear_empties_and_insert_replaces() {
    let mut store = IndexStore::open("/tmp/asphinx_index_clear.redb").unwrap();
    index_clear(&mut store).unwrap();
    index_insert(&mut store, "a.html".to_string(), entry("one", "A", None)).unwrap();
    index_insert(&mut store, "a.html".to_string(), entry("two", "A2", None)).unwrap();
    assert_eq!(index_list(&store).unwrap(), vec![("a.html".to_string(), entry("two", "A2", None))]);
    index_clear(&mut store).unwrap();
    assert_eq!(index_list(&store).unwrap(), vec![]);
}

#[test]
fn listing_is_in_key_order() {
    let mut store = IndexStore::open("/tmp/asphinx_index_order.redb").unwrap();
    index_clear(&mut store).unwrap();
    for k in ["m.html", "a/b.html", "z.html", "B.html"] {
        index_insert(&mut store, k.to_string(), entry(k, k, None)).unwrap();
    }
    let keys: Vec<String> = index_list(&store).unwrap().into_iter().map(|(k, _)| k).collect();
    assert_eq!(keys, vec!["B.html", "a/b.html", "m.html", "z.html"]);
}
