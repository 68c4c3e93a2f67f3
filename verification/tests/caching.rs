use bindle_store::cache::{InvoiceCache, CACHE_SIZE};
use bindle_store::invoice::{BindleSpec, Id, Invoice};

fn id(n: usize) -> Id {
    Id { name: format!("bindle/{}", n), sha: format!("sha{}", n) }
}

fn invoice(n: usize, rest: &str) -> Invoice {
    Invoice {
        bindle: BindleSpec { id: id(n), rest: String::new() },
        yanked: None,
        parcel: None,
        rest: rest.to_owned(),
    }
}

fn rest_of(cache: &mut InvoiceCache, n: usize) -> Option<String> {
    cache.get(&id(n)).map(|inv| inv.rest)
}

#[test]
fn what_was_put_in_is_found() {
    let mut cache = InvoiceCache::new();
    assert_eq!(None, rest_of(&mut cache, 1));
    cache.put(&id(1), invoice(1, "one"));
    assert_eq!(Some("one".to_owned()), rest_of(&mut cache, 1));
    assert_eq!(None, rest_of(&mut cache, 2));
    cache.put(&id(1), invoice(1, "uno"));
    assert_eq!(Some("uno".to_owned()), rest_of(&mut cache, 1));
}

#[test]
fn entries_go_by_the_name_of_the_bindle() {
    let mut cache = InvoiceCache::new();
    cache.put(&id(1), invoice(1, "one"));
    let other = Id { name: "bindle/1".to_owned(), sha: "another".to_owned() };
    assert!(cache.get(&other).is_some());
}

#[test]
fn the_cache_holds_fifty() {
    assert_eq!(50, CACHE_SIZE);
    let mut cache = InvoiceCache::new();
    for n in 0..50 {
        cache.put(&id(n), invoice(n, "kept"));
    }
    for n in 0..50 {
        assert!(cache.get(&id(n)).is_some());
    }
}

#[test]
fn the_one_used_longest_ago_leaves() {
    let mut cache = InvoiceCache::new();
    for n in 0..50 {
        cache.put(&id(n), invoice(n, "kept"));
    }
    // Being read and being put again both count as a use
    assert!(cache.get(&id(0)).is_some());
    cache.put(&id(1), invoice(1, "again"));
    cache.put(&id(50), invoice(50, "new"));
    cache.put(&id(51), invoice(51, "new"));
    assert!(cache.get(&id(2)).is_none());
    assert!(cache.get(&id(3)).is_none());
    assert_eq!(Some("kept".to_owned()), rest_of(&mut cache, 0));
    assert_eq!(Some("again".to_owned()), rest_of(&mut cache, 1));
    for n in 4..52 {
        assert!(cache.get(&id(n)).is_some(), "{}", n);
    }
}

#[test]
fn what_was_taken_out_is_gone_and_leaves_room() {
    let mut cache = InvoiceCache::new();
    for n in 0..50 {
        cache.put(&id(n), invoice(n, "kept"));
    }
    cache.pop(&id(7));
    cache.pop(&id(1000));
    assert!(cache.get(&id(7)).is_none());
    cache.put(&id(50), invoice(50, "new"));
    assert!(cache.get(&id(0)).is_some());
    assert!(cache.get(&id(50)).is_some());
}
