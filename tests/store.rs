use shortener::{
    failure_status, finish_resolve, permanent_redirect, Link, LinkStore, StoreError,
    INTERNAL_SERVER_ERROR, MOVED_PERMANENTLY, NOT_FOUND,
};

fn store_with(urls: &[&str]) -> (LinkStore, Vec<Link>) {
    let mut s = LinkStore::new();
    let mut made = Vec::new();
    for u in urls {
        made.push(s.insert(u.to_string()).unwrap());
    }
    (s, made)
}

fn same(a: &Link, b: &Link) -> bool {
    a.id == b.id && a.link == b.link && a.count == b.count
}

#[test]
fn create_then_list_holds_the_record() {
    let mut s = LinkStore::new();
    let l = s.insert("https://example.com".to_string()).unwrap();
    assert_eq!(l.count, 0);
    assert_eq!(l.id, 1);
    assert_eq!(l.link, "https://example.com");
    let all = s.list_all();
    assert_eq!(all.len(), 1);
    assert!(same(&all[0], &l));
}

#[test]
fn ids_are_fresh_and_sequential() {
    let (s, made) = store_with(&["a", "b", "c"]);
    let ids: Vec<i32> = made.iter().map(|l| l.id).collect();
    assert_eq!(ids, vec![1, 2, 3]);
    let all = s.list_all();
    assert_eq!(all.len(), 3);
    for l in &made {
        assert!(all.iter().any(|r| same(r, l)));
    }
}

#[test]
fn empty_table_lists_nothing() {
    let s = LinkStore::new();
    assert!(s.list_all().is_empty());
}

#[test]
fn resolving_n_times_counts_n() {
    let (mut s, made) = store_with(&["https://example.com/x"]);
    let id = made[0].id;
    for n in 1..=5 {
        let d = s.resolve(id).unwrap();
        assert_eq!(d.status, 301);
        assert_eq!(d.location, "https://example.com/x");
        assert_eq!(s.find(id).unwrap().count, n);
    }
}

#[test]
fn delete_returns_prior_record_and_then_not_found() {
    let (mut s, made) = store_with(&["https://a.example", "https://b.example"]);
    s.resolve(1).unwrap();
    s.resolve(1).unwrap();
    let gone = s.delete(1).unwrap();
    assert_eq!(gone.id, 1);
    assert_eq!(gone.link, "https://a.example");
    assert_eq!(gone.count, 2);
    assert_eq!(s.find(1).err(), Some(StoreError::NotFound));
    assert_eq!(s.resolve(1).err(), Some(StoreError::NotFound));
    assert_eq!(s.delete(1).err(), Some(StoreError::NotFound));
    let all = s.list_all();
    assert_eq!(all.len(), 1);
    assert!(same(&all[0], &made[1]));
}

#[test]
fn resolving_unknown_id_is_not_found_and_changes_nothing() {
    let (mut s, _) = store_with(&["https://a.example"]);
    assert_eq!(s.resolve(7).err(), Some(StoreError::NotFound));
    assert_eq!(s.resolve(0).err(), Some(StoreError::NotFound));
    assert_eq!(s.resolve(-3).err(), Some(StoreError::NotFound));
    assert_eq!(s.find(1).unwrap().count, 0);
}

#[test]
fn ids_are_not_reused_after_delete() {
    let (mut s, _) = store_with(&["a", "b"]);
    s.delete(2).unwrap();
    let c = s.insert("c".to_string()).unwrap();
    assert_eq!(c.id, 3);
}

#[test]
fn round_trip_keeps_url_byte_for_byte() {
    let urls = [
        "https://example.com/path?q=1&r=two#frag",
        "HTTP://Example.COM/../a/./b",
        "not a url at all",
        "/relative/only",
        "mailto:someone@example.com",
        "https://example.com/caf\u{e9}?x=%20",
        "",
    ];
    let mut s = LinkStore::new();
    for u in urls {
        let l = s.insert(u.to_string()).unwrap();
        let d = s.resolve(l.id).unwrap();
        assert_eq!(d.location, u);
        assert_eq!(d.status, MOVED_PERMANENTLY);
    }
}

#[test]
fn interleaved_resolutions_count_two() {
    let (mut s, _) = store_with(&["https://example.com"]);
    let first = s.find(1).unwrap();
    let second = s.find(1).unwrap();
    let a = finish_resolve(&first, s.increment(1)).unwrap();
    let b = finish_resolve(&second, s.increment(1)).unwrap();
    assert_eq!(a.location, "https://example.com");
    assert_eq!(b.location, "https://example.com");
    assert_eq!(s.find(1).unwrap().count, 2);
}

#[test]
fn delete_between_read_and_increment_loses_the_count() {
    let (mut s, _) = store_with(&["https://example.com"]);
    let read = s.find(1).unwrap();
    let deleted = s.delete(1).unwrap();
    assert_eq!(deleted.count, 0);
    let d = finish_resolve(&read, s.increment(1)).unwrap();
    assert_eq!(d.location, "https://example.com");
    assert_eq!(s.find(1).err(), Some(StoreError::NotFound));
    assert!(s.list_all().is_empty());
}

#[test]
fn increment_of_missing_record_is_a_no_op() {
    let (mut s, _) = store_with(&["x"]);
    assert_eq!(s.increment(9), Ok(()));
    assert_eq!(s.find(1).unwrap().count, 0);
}

#[test]
fn counter_at_column_maximum_is_out_of_range() {
    let rows = vec![Link::new(4, "https://m.example".to_string(), i32::MAX)];
    let mut s = LinkStore::from_rows(rows, 5).unwrap();
    assert_eq!(s.increment(4), Err(StoreError::CountOutOfRange));
    assert_eq!(s.resolve(4).err(), Some(StoreError::CountOutOfRange));
    assert_eq!(s.find(4).unwrap().count, i32::MAX);
}

#[test]
fn identifiers_exhausted_at_column_maximum() {
    let rows = vec![Link::new(i32::MAX, "last".to_string(), 0)];
    let mut s = LinkStore::from_rows(rows, i32::MAX as i64 + 1).unwrap();
    assert_eq!(s.insert("more".to_string()).err(), Some(StoreError::IdsExhausted));
    assert_eq!(s.list_all().len(), 1);
}

#[test]
fn last_identifier_can_be_assigned() {
    let mut s = LinkStore::from_rows(Vec::new(), i32::MAX as i64).unwrap();
    let l = s.insert("edge".to_string()).unwrap();
    assert_eq!(l.id, i32::MAX);
}

#[test]
fn from_rows_rejects_what_is_no_table() {
    let dup = vec![Link::new(1, "a".to_string(), 0), Link::new(1, "b".to_string(), 0)];
    assert!(LinkStore::from_rows(dup, 3).is_none());
    let high = vec![Link::new(3, "a".to_string(), 0)];
    assert!(LinkStore::from_rows(high, 3).is_none());
    let zero = vec![Link::new(0, "a".to_string(), 0)];
    assert!(LinkStore::from_rows(zero, 3).is_none());
    let negative = vec![Link::new(1, "a".to_string(), -1)];
    assert!(LinkStore::from_rows(negative, 3).is_none());
    assert!(LinkStore::from_rows(Vec::new(), 0).is_none());
    assert!(LinkStore::from_rows(Vec::new(), i32::MAX as i64 + 2).is_none());
}

#[test]
fn from_rows_keeps_the_rows() {
    let rows = vec![Link::new(2, "b".to_string(), 5), Link::new(1, "a".to_string(), 0)];
    let mut s = LinkStore::from_rows(rows, 3).unwrap();
    let b = s.find(2).unwrap();
    assert_eq!((b.link.as_str(), b.count), ("b", 5));
    assert_eq!(s.insert("c".to_string()).unwrap().id, 3);
}

#[test]
fn redirect_is_moved_permanently_to_the_url() {
    let d = permanent_redirect(&"https://example.com/?a=b".to_string());
    assert_eq!(d.status, 301);
    assert_eq!(d.location, "https://example.com/?a=b");
}

#[test]
fn finish_resolve_passes_the_increment_error_on() {
    let l = Link::new(1, "u".to_string(), 0);
    assert_eq!(
        finish_resolve(&l, Err(StoreError::Unavailable)).err(),
        Some(StoreError::Unavailable)
    );
}

#[test]
fn failure_statuses() {
    assert_eq!(failure_status(StoreError::NotFound), NOT_FOUND);
    assert_eq!(NOT_FOUND, 404);
    assert_eq!(failure_status(StoreError::Unavailable), INTERNAL_SERVER_ERROR);
    assert_eq!(failure_status(StoreError::CountOutOfRange), 500);
    assert_eq!(failure_status(StoreError::IdsExhausted), 500);
}

#[test]
fn duplicate_copies_every_field() {
    let l = Link::new(8, "https://d.example".to_string(), 3);
    let c = l.duplicate();
    assert!(same(&l, &c));
}
