//! The invoices that were read last, kept in memory.

use crate::invoice::{Id, Invoice, InvoiceView};
use lru::LruCache;
use vstd::prelude::*;

verus! {

/// The number of invoices that are kept.
pub const CACHE_SIZE: usize = 50;

/// The `lru` crate's cache.
#[verifier::external_type_specification]
#[verifier::external_body]
#[verifier::reject_recursive_types(K)]
#[verifier::reject_recursive_types(V)]
#[verifier::reject_recursive_types(S)]
pub struct ExLruCache<K, V, S>(LruCache<K, V, S>);

/// What a cache holds, from the entry used last to the one used longest ago.
pub uninterp spec fn cache_entries(cache: LruCache<String, Invoice>) -> Seq<
    (Seq<char>, InvoiceView),
>;

/// The number of entries that a cache was made for.
pub uninterp spec fn cache_limit(cache: LruCache<String, Invoice>) -> nat;

/// What a cache of invoices holds, by the names of their bindles.
pub type Entries = Seq<(Seq<char>, InvoiceView)>;

/// Whether there is an entry for `key`.
pub open spec fn holds(entries: Seq<(Seq<char>, InvoiceView)>, key: Seq<char>) -> bool {
    exists|i: int| 0 <= i < entries.len() && (#[trigger] entries[i]).0 == key
}

/// Where the entry for `key` is.
pub open spec fn slot(entries: Seq<(Seq<char>, InvoiceView)>, key: Seq<char>) -> int {
    choose|i: int| 0 <= i < entries.len() && (#[trigger] entries[i]).0 == key
}

/// The invoice kept for `key`.
pub open spec fn lookup(entries: Seq<(Seq<char>, InvoiceView)>, key: Seq<char>) -> Option<
    InvoiceView,
> {
    if holds(entries, key) {
        Some(entries[slot(entries, key)].1)
    } else {
        None
    }
}

/// The entries other than the one for `key`, in their order.
pub open spec fn without(entries: Seq<(Seq<char>, InvoiceView)>, key: Seq<char>) -> Seq<
    (Seq<char>, InvoiceView),
> {
    if holds(entries, key) {
        entries.remove(slot(entries, key))
    } else {
        entries
    }
}

/// The entries after the one for `key`, if there is one, was used.
pub open spec fn touched(entries: Seq<(Seq<char>, InvoiceView)>, key: Seq<char>) -> Seq<
    (Seq<char>, InvoiceView),
> {
    if holds(entries, key) {
        seq![entries[slot(entries, key)]] + without(entries, key)
    } else {
        entries
    }
}

/// The entries after `invoice` was put under `key` into a cache for `limit` entries: where
/// there is no room for one more, the entry used longest ago leaves.
pub open spec fn with_entry(
    entries: Seq<(Seq<char>, InvoiceView)>,
    limit: nat,
    key: Seq<char>,
    invoice: InvoiceView,
) -> Seq<(Seq<char>, InvoiceView)> {
    if holds(entries, key) {
        seq![(key, invoice)] + without(entries, key)
    } else if limit == 0 {
        entries
    } else if entries.len() == limit {
        seq![(key, invoice)] + entries.drop_last()
    } else {
        seq![(key, invoice)] + entries
    }
}

/// `lru::LruCache::new`: an empty cache that holds at most `cap` entries. It allocates for all
/// of them at once, so `cap` is kept small.
#[verifier::external_body]
fn lru_new(cap: usize) -> (cache: LruCache<String, Invoice>)
    requires
        cap <= CACHE_SIZE,
    ensures
        cache_entries(cache) == Seq::<(Seq<char>, InvoiceView)>::empty(),
        cache_limit(cache) == cap,
{
    LruCache::new(cap)
}

/// `lru::LruCache::get`: the value kept for `key`, whose entry becomes the one used last.
#[verifier::external_body]
fn lru_get<'a>(cache: &'a mut LruCache<String, Invoice>, key: &String) -> (res: Option<
    &'a Invoice,
>)
    ensures
        cache_entries(*final(cache)) == touched(cache_entries(*old(cache)), key@),
        cache_limit(*final(cache)) == cache_limit(*old(cache)),
        match res {
            Some(invoice) => lookup(cache_entries(*old(cache)), key@) == Some(invoice@),
            None => lookup(cache_entries(*old(cache)), key@) is None,
        },
{
    cache.get(key)
}

/// `lru::LruCache::put`: keeps `invoice` for `key` as the entry used last, in the place of an
/// earlier one for `key`, whose value is returned, or else, where the cache is full, of the one
/// used longest ago.
#[verifier::external_body]
fn lru_put(cache: &mut LruCache<String, Invoice>, key: String, invoice: Invoice) -> (res: Option<
    Invoice,
>)
    ensures
        cache_entries(*final(cache)) == with_entry(
            cache_entries(*old(cache)),
            cache_limit(*old(cache)),
            key@,
            invoice@,
        ),
        cache_limit(*final(cache)) == cache_limit(*old(cache)),
        match res {
            Some(earlier) => lookup(cache_entries(*old(cache)), key@) == Some(earlier@),
            None => lookup(cache_entries(*old(cache)), key@) is None,
        },
{
    cache.put(key, invoice)
}

/// `lru::LruCache::pop`: takes the entry for `key` out and returns its value.
#[verifier::external_body]
fn lru_pop(cache: &mut LruCache<String, Invoice>, key: &String) -> (res: Option<Invoice>)
    ensures
        cache_entries(*final(cache)) == without(cache_entries(*old(cache)), key@),
        cache_limit(*final(cache)) == cache_limit(*old(cache)),
        match res {
            Some(invoice) => lookup(cache_entries(*old(cache)), key@) == Some(invoice@),
            None => lookup(cache_entries(*old(cache)), key@) is None,
        },
{
    cache.pop(key)
}

/// No two entries are for the same key.
pub open spec fn distinct_keys(entries: Seq<(Seq<char>, InvoiceView)>) -> bool {
    forall|i: int, j: int|
        0 <= i < entries.len() && 0 <= j < entries.len() && (#[trigger] entries[i]).0 == (
        #[trigger] entries[j]).0 ==> i == j
}

/// At most `CACHE_SIZE` entries, each for a key of its own.
pub open spec fn in_order(entries: Entries) -> bool {
    distinct_keys(entries) && entries.len() <= CACHE_SIZE
}

/// Taking an entry out leaves distinct keys distinct and the other invoices where they were.
pub proof fn lemma_without(entries: Seq<(Seq<char>, InvoiceView)>, key: Seq<char>)
    requires
        distinct_keys(entries),
    ensures
        distinct_keys(without(entries, key)),
        without(entries, key).len() <= entries.len(),
        holds(entries, key) ==> without(entries, key).len() == entries.len() - 1,
        lookup(without(entries, key), key) is None,
        forall|other: Seq<char>|
            other != key ==> #[trigger] lookup(without(entries, key), other) == lookup(
                entries,
                other,
            ),
{
    let left = without(entries, key);
    if holds(entries, key) {
        let s = slot(entries, key);
        assert(forall|i: int| 0 <= i < s ==> left[i] == entries[i]);
        assert(forall|i: int| s <= i < left.len() ==> left[i] == entries[i + 1]);
        if holds(left, key) {
            let i = slot(left, key);
            assert(entries[if i < s { i } else { i + 1 }].0 == key);
        }
        assert forall|other: Seq<char>| other != key implies #[trigger] lookup(left, other)
            == lookup(entries, other) by {
            if holds(entries, other) {
                let i = slot(entries, other);
                let j = if i < s { i } else { i - 1 };
                assert(left[j] == entries[i]);
                assert(holds(left, other));
                let k = slot(left, other);
                assert(left[k].0 == other);
                assert(entries[if k < s { k } else { k + 1 }].0 == other);
            }
            if holds(left, other) {
                let k = slot(left, other);
                assert(entries[if k < s { k } else { k + 1 }].0 == other);
            }
        }
    }
}

/// Using an entry loses nothing and changes no invoice.
pub proof fn lemma_touched(entries: Seq<(Seq<char>, InvoiceView)>, key: Seq<char>)
    requires
        distinct_keys(entries),
    ensures
        distinct_keys(touched(entries, key)),
        touched(entries, key).len() == entries.len(),
        holds(entries, key) ==> touched(entries, key)[0] == (key, lookup(entries, key)->0),
        forall|other: Seq<char>| #[trigger]
            lookup(touched(entries, key), other) == lookup(entries, other),
{
    if holds(entries, key) {
        lemma_without(entries, key);
        let rest = without(entries, key);
        let after = touched(entries, key);
        assert(forall|i: int| 0 <= i < rest.len() ==> after[i + 1] == rest[i]);
        lemma_put_first(rest, key, entries[slot(entries, key)].1);
        assert(after =~= seq![(key, entries[slot(entries, key)].1)] + rest);
    }
}

/// A new first entry is found, and hides no other.
proof fn lemma_put_first(
    rest: Seq<(Seq<char>, InvoiceView)>,
    key: Seq<char>,
    invoice: InvoiceView,
)
    requires
        distinct_keys(rest),
        !holds(rest, key),
    ensures
        ({
            let after = seq![(key, invoice)] + rest;
            &&& distinct_keys(after)
            &&& lookup(after, key) == Some(invoice)
            &&& forall|other: Seq<char>|
                other != key ==> #[trigger] lookup(after, other) == lookup(rest, other)
        }),
{
    let after = seq![(key, invoice)] + rest;
    assert(after[0] == (key, invoice));
    assert(forall|i: int| 1 <= i < after.len() ==> after[i] == rest[i - 1]);
    assert forall|i: int, j: int|
        0 <= i < after.len() && 0 <= j < after.len() && (#[trigger] after[i]).0 == (
        #[trigger] after[j]).0 implies i == j by {
        if i == 0 && j > 0 {
            assert(rest[j - 1].0 == key);
        } else if j == 0 && i > 0 {
            assert(rest[i - 1].0 == key);
        } else if i > 0 && j > 0 {
            assert(rest[i - 1].0 == rest[j - 1].0);
        }
    }
    assert(holds(after, key));
    assert(slot(after, key) == 0);
    assert forall|other: Seq<char>| other != key implies #[trigger] lookup(after, other)
        == lookup(rest, other) by {
        if holds(rest, other) {
            let i = slot(rest, other);
            assert(after[i + 1].0 == other);
            let k = slot(after, other);
            assert(after[k].0 == other);
        }
        if holds(after, other) {
            let k = slot(after, other);
            assert(rest[k - 1].0 == other);
        }
    }
}

/// What was put in is found again, the cache stays within its limit, and of the other invoices
/// none changes and at most the one used longest ago is lost.
pub proof fn lemma_with_entry(
    entries: Seq<(Seq<char>, InvoiceView)>,
    limit: nat,
    key: Seq<char>,
    invoice: InvoiceView,
)
    requires
        distinct_keys(entries),
        0 < limit,
        entries.len() <= limit,
    ensures
        ({
            let after = with_entry(entries, limit, key, invoice);
            &&& distinct_keys(after)
            &&& after.len() <= limit
            &&& lookup(after, key) == Some(invoice)
            &&& forall|other: Seq<char>|
                other != key ==> #[trigger] lookup(after, other) == lookup(entries, other)
                    || lookup(after, other) is None
            &&& forall|other: Seq<char>|
                other != key && !(entries.len() == limit && !holds(entries, key)
                    && entries.last().0 == other) ==> #[trigger] lookup(after, other) == lookup(
                    entries,
                    other,
                )
        }),
{
    lemma_without(entries, key);
    if holds(entries, key) {
        lemma_put_first(without(entries, key), key, invoice);
    } else if entries.len() == limit {
        let rest = entries.drop_last();
        assert(forall|i: int| 0 <= i < rest.len() ==> rest[i] == entries[i]);
        if holds(rest, key) {
            assert(entries[slot(rest, key)].0 == key);
        }
        lemma_put_first(rest, key, invoice);
        let after = with_entry(entries, limit, key, invoice);
        assert forall|other: Seq<char>| other != key && holds(after, other) implies #[trigger] lookup(
            after,
            other,
        ) == lookup(entries, other) by {
            assert(lookup(after, other) == lookup(rest, other));
            assert(holds(rest, other));
            let k = slot(rest, other);
            assert(entries[k].0 == other);
        }
        assert forall|other: Seq<char>| other != key && entries.last().0 != other implies
            #[trigger] lookup(after, other) == lookup(entries, other) by {
            assert(lookup(after, other) == lookup(rest, other));
            if holds(entries, other) {
                let i = slot(entries, other);
                assert(rest[i].0 == other);
                let k = slot(rest, other);
                assert(entries[k].0 == other);
            }
            if holds(rest, other) {
                let k = slot(rest, other);
                assert(entries[k].0 == other);
            }
        }
    } else {
        lemma_put_first(entries, key, invoice);
    }
}

/// A cache of invoices by the name of their bindle. Its view lists them from the one used last
/// to the one used longest ago.
pub struct InvoiceCache {
    entries: LruCache<String, Invoice>,
}

impl View for InvoiceCache {
    type V = Seq<(Seq<char>, InvoiceView)>;

    closed spec fn view(&self) -> Seq<(Seq<char>, InvoiceView)> {
        cache_entries(self.entries)
    }
}

impl InvoiceCache {
    /// At most `CACHE_SIZE` invoices are kept, each under a name of its own.
    pub closed spec fn wf(&self) -> bool {
        cache_limit(self.entries) == CACHE_SIZE && in_order(self@)
    }

    /// What a cache in order holds is in order.
    pub proof fn lemma_in_order(&self)
        requires
            self.wf(),
        ensures
            in_order(self@),
    {
    }

    /// An empty cache.
    pub fn new() -> (res: Self)
        ensures
            res.wf(),
            res@ == Seq::<(Seq<char>, InvoiceView)>::empty(),
    {
        InvoiceCache { entries: lru_new(CACHE_SIZE) }
    }

    /// The invoice kept for `id`, which counts as a use of it.
    pub fn get(&mut self, id: &Id) -> (res: Option<Invoice>)
        requires
            old(self).wf(),
        ensures
            final(self).wf(),
            final(self)@ == touched(old(self)@, id.name@),
            match res {
                Some(invoice) => lookup(old(self)@, id.name@) == Some(invoice@),
                None => lookup(old(self)@, id.name@) is None,
            },
    {
        proof {
            lemma_touched(self@, id.name@);
        }
        match lru_get(&mut self.entries, &id.name) {
            Some(invoice) => Some(invoice.clone()),
            None => None,
        }
    }

    /// Keeps `invoice` for `id`.
    pub fn put(&mut self, id: &Id, invoice: Invoice)
        requires
            old(self).wf(),
        ensures
            final(self).wf(),
            final(self)@ == with_entry(old(self)@, CACHE_SIZE as nat, id.name@, invoice@),
    {
        proof {
            lemma_with_entry(self@, CACHE_SIZE as nat, id.name@, invoice@);
        }
        let _ = lru_put(&mut self.entries, id.name.clone(), invoice);
    }

    /// Forgets the invoice kept for `id`.
    pub fn pop(&mut self, id: &Id)
        requires
            old(self).wf(),
        ensures
            final(self).wf(),
            final(self)@ == without(old(self)@, id.name@),
    {
        proof {
            lemma_without(self@, id.name@);
        }
        let _ = lru_pop(&mut self.entries, &id.name);
    }
}

} // verus!
