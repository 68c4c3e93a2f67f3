//! How long an invoice that was read is served from the cache.

use crate::cache::{distinct_keys, holds, in_order, lemma_touched, lemma_with_entry, lemma_without, lookup, slot, touched, with_entry, without, Entries, CACHE_SIZE};
use crate::create_invoice::spec_start_create;
use crate::create_invoice_laws::create_invoice_is_atomic;
use crate::create_parcel_laws::{create_parcel_is_atomic, parcel_starts};
use crate::effect::{EventView, Progress};
use crate::fetch_invoice::{spec_start_fetch, FetchInvoiceView, FetchResultView};
use crate::history_laws::Deed;
use crate::invoice::{Id, InvoiceView};
use crate::world::{is_run, steps, Moment};
use crate::yank_invoice::{spec_start_yank, YankInvoiceView};
use crate::yank_invoice_laws::YankMoment;
use vstd::prelude::*;
use vstd::set_lib::lemma_len_subset;

verus! {

/// The cache has `invoice` for `key`, and whatever was used since is one of `others`.
pub open spec fn recent(
    entries: Entries,
    key: Seq<char>,
    invoice: InvoiceView,
    others: Set<Seq<char>>,
) -> bool {
    &&& in_order(entries)
    &&& exists|s: int|
        0 <= s < entries.len() && #[trigger] entries[s] == (key, invoice) && forall|i: int|
            0 <= i < s ==> others.contains((#[trigger] entries[i]).0)
}

/// The place of the entry for `key`.
proof fn lemma_slot(entries: Entries, key: Seq<char>, s: int)
    requires
        distinct_keys(entries),
        0 <= s < entries.len(),
        entries[s].0 == key,
    ensures
        holds(entries, key),
        slot(entries, key) == s,
        lookup(entries, key) == Some(entries[s].1),
{
    assert(entries[slot(entries, key)].0 == key);
}

/// Putting an entry of `others` in front leaves `key` behind entries of `others` only.
proof fn lemma_in_front(
    rest: Entries,
    name: Seq<char>,
    kept: InvoiceView,
    key: Seq<char>,
    invoice: InvoiceView,
    others: Set<Seq<char>>,
)
    requires
        recent(rest, key, invoice, others),
        others.contains(name),
        in_order(seq![(name, kept)] + rest),
    ensures
        recent(seq![(name, kept)] + rest, key, invoice, others),
{
    let after = seq![(name, kept)] + rest;
    let s = choose|s: int|
        0 <= s < rest.len() && #[trigger] rest[s] == (key, invoice) && forall|i: int|
            0 <= i < s ==> others.contains((#[trigger] rest[i]).0);
    assert(after[s + 1] == (key, invoice));
    assert forall|i: int| 0 <= i < s + 1 implies others.contains((#[trigger] after[i]).0) by {
        if i > 0 {
            assert(after[i] == rest[i - 1]);
        }
    }
}

/// Taking the entry of another name out keeps an invoice recent.
proof fn lemma_recent_without(
    entries: Entries,
    name: Seq<char>,
    key: Seq<char>,
    invoice: InvoiceView,
    others: Set<Seq<char>>,
)
    requires
        recent(entries, key, invoice, others),
        name != key,
    ensures
        recent(without(entries, name), key, invoice, others),
{
    lemma_without(entries, name);
    let left = without(entries, name);
    let s = choose|s: int|
        0 <= s < entries.len() && #[trigger] entries[s] == (key, invoice) && forall|i: int|
            0 <= i < s ==> others.contains((#[trigger] entries[i]).0);
    if holds(entries, name) {
        let t = slot(entries, name);
        let s2 = if t < s {
            s - 1
        } else {
            s
        };
        assert(left[s2] == entries[s]);
        assert forall|i: int| 0 <= i < s2 implies others.contains((#[trigger] left[i]).0) by {
            assert(left[i] == entries[if i < t {
                i
            } else {
                i + 1
            }]);
        }
    }
}

/// A look at the cache keeps an invoice recent.
proof fn lemma_recent_touched(
    entries: Entries,
    name: Seq<char>,
    key: Seq<char>,
    invoice: InvoiceView,
    others: Set<Seq<char>>,
)
    requires
        recent(entries, key, invoice, others),
        name == key || others.contains(name),
    ensures
        recent(touched(entries, name), key, invoice, others),
{
    lemma_touched(entries, name);
    let s = choose|s: int|
        0 <= s < entries.len() && #[trigger] entries[s] == (key, invoice) && forall|i: int|
            0 <= i < s ==> others.contains((#[trigger] entries[i]).0);
    if name == key {
        lemma_slot(entries, key, s);
        assert(touched(entries, name)[0] == (key, invoice));
    } else if holds(entries, name) {
        lemma_recent_without(entries, name, key, invoice, others);
        let kept = entries[slot(entries, name)].1;
        assert(seq![(name, kept)] + without(entries, name) =~= touched(entries, name));
        lemma_in_front(without(entries, name), name, kept, key, invoice, others);
    }
}

/// Keeping the invoice of another bindle keeps an invoice recent, as long as the bindles other
/// than its own are fewer than the cache has room for.
proof fn lemma_recent_with_entry(
    entries: Entries,
    name: Seq<char>,
    kept: InvoiceView,
    key: Seq<char>,
    invoice: InvoiceView,
    others: Set<Seq<char>>,
)
    requires
        recent(entries, key, invoice, others),
        name != key,
        others.contains(name),
        others.finite(),
        others.len() < CACHE_SIZE,
    ensures
        recent(with_entry(entries, CACHE_SIZE as nat, name, kept), key, invoice, others),
{
    lemma_with_entry(entries, CACHE_SIZE as nat, name, kept);
    let s = choose|s: int|
        0 <= s < entries.len() && #[trigger] entries[s] == (key, invoice) && forall|i: int|
            0 <= i < s ==> others.contains((#[trigger] entries[i]).0);
    if holds(entries, name) {
        lemma_recent_without(entries, name, key, invoice, others);
        lemma_in_front(without(entries, name), name, kept, key, invoice, others);
    } else if entries.len() == CACHE_SIZE {
        if s == CACHE_SIZE - 1 {
            let before = Seq::new(s as nat, |i: int| entries[i].0);
            assert(before.no_duplicates()) by {
                assert forall|i: int, j: int|
                    0 <= i < before.len() && 0 <= j < before.len() && i != j implies before[i]
                    != before[j] by {
                    assert(entries[i].0 == before[i] && entries[j].0 == before[j]);
                }
            }
            before.unique_seq_to_set();
            assert forall|n: Seq<char>| #[trigger] before.to_set().contains(n) implies others.remove(
                name,
            ).contains(n) by {
                let i = choose|i: int| 0 <= i < before.len() && before[i] == n;
                assert(entries[i].0 == n);
            }
            lemma_len_subset(before.to_set(), others.remove(name));
        }
        let rest = entries.drop_last();
        assert(rest[s] == (key, invoice));
        assert forall|i: int| 0 <= i < s implies others.contains((#[trigger] rest[i]).0) by {
            assert(rest[i] == entries[i]);
        }
        assert(distinct_keys(rest)) by {
            assert forall|i: int, j: int|
                0 <= i < rest.len() && 0 <= j < rest.len() && (#[trigger] rest[i]).0 == (
                #[trigger] rest[j]).0 implies i == j by {
                assert(entries[i] == rest[i] && entries[j] == rest[j]);
            }
        }
        lemma_in_front(rest, name, kept, key, invoice, others);
    } else {
        lemma_in_front(entries, name, kept, key, invoice, others);
    }
}

/// A recent invoice is served from the cache, without a look at the file system.
pub proof fn recent_invoice_is_served(
    root: Seq<char>,
    cache: Entries,
    id: Id,
    invoice: InvoiceView,
    others: Set<Seq<char>>,
)
    requires
        recent(cache, id.name@, invoice, others),
    ensures
        spec_start_fetch(root, cache, id) == Progress::<FetchInvoiceView, FetchResultView>::Done(
            Ok(invoice),
        ),
{
    let s = choose|s: int|
        0 <= s < cache.len() && #[trigger] cache[s] == (id.name@, invoice) && forall|i: int|
            0 <= i < s ==> others.contains((#[trigger] cache[i]).0);
    lemma_slot(cache, id.name@, s);
}

/// An invoice that was just read is recent, whether it was read from a file or from the cache.
pub proof fn read_invoice_is_recent(
    root: Seq<char>,
    cache: Entries,
    id: Id,
    run: Seq<Moment<FetchInvoiceView, FetchResultView>>,
    events: Seq<EventView>,
    others: Set<Seq<char>>,
)
    requires
        in_order(cache),
        is_run(run, events),
        run[0].cache == touched(cache, id.name@),
        run[0].op == spec_start_fetch(root, cache, id),
        run.last().op matches Progress::Done(Ok(_)),
    ensures
        run.last().op matches Progress::Done(Ok(invoice)) && recent(
            run.last().cache,
            id.name@,
            invoice,
            others,
        ),
{
    lemma_touched(cache, id.name@);
    let invoice = run.last().op->Done_0->Ok_0;
    if events.len() == 0 {
        assert(run.last().cache[0] == (id.name@, invoice));
    } else {
        assert(steps(run[0], events[0], run[1]));
        assert(events.len() > 1);
        assert(steps(run[1], events[1], run[2]));
        if events.len() > 2 {
            assert(steps(run[2], events[2], run[3]));
        }
        lemma_with_entry(run[1].cache, CACHE_SIZE as nat, id.name@, invoice);
        assert(run.last().cache[0] == (id.name@, invoice));
    }
}

/// What the reading of another bindle's invoice leaves of the cache.
proof fn lemma_recent_fetch(
    root: Seq<char>,
    before: Entries,
    id: Id,
    run: Seq<Moment<FetchInvoiceView, FetchResultView>>,
    events: Seq<EventView>,
    i: int,
    key: Seq<char>,
    invoice: InvoiceView,
    others: Set<Seq<char>>,
)
    requires
        is_run(run, events),
        run[0].op == spec_start_fetch(root, before, id),
        run[0].cache == touched(before, id.name@),
        recent(before, key, invoice, others),
        id.name@ == key || others.contains(id.name@),
        !others.contains(key),
        others.finite(),
        others.len() < CACHE_SIZE,
        0 <= i < run.len(),
    ensures
        recent(run[i].cache, key, invoice, others),
        run[i].op matches Progress::Pending(op) ==> id.name@ != key && match op {
            FetchInvoiceView::Reading { root: r, id: i2 } => i2 == id,
            FetchInvoiceView::Decoding { id: i2, text } => i2 == id,
        },
    decreases i,
{
    if i == 0 {
        lemma_recent_touched(before, id.name@, key, invoice, others);
        if id.name@ == key {
            recent_invoice_is_served(root, before, id, invoice, others);
        }
    } else {
        lemma_recent_fetch(root, before, id, run, events, i - 1, key, invoice, others);
        let m = run[i - 1];
        assert(steps(m, events[i - 1], run[i]));
        if let EventView::Decoded(Ok(read)) = events[i - 1] {
            lemma_recent_with_entry(m.cache, id.name@, read, key, invoice, others);
        }
    }
}

/// What the yanking of another bindle's invoice leaves of the cache.
proof fn lemma_recent_yank(
    root: Seq<char>,
    before: Entries,
    id: Id,
    run: Seq<YankMoment>,
    events: Seq<EventView>,
    i: int,
    key: Seq<char>,
    invoice: InvoiceView,
    others: Set<Seq<char>>,
)
    requires
        is_run(run, events),
        run[0].op == spec_start_yank(root, before, id),
        run[0].cache == touched(before, id.name@),
        recent(before, key, invoice, others),
        others.contains(id.name@),
        !others.contains(key),
        others.finite(),
        others.len() < CACHE_SIZE,
        0 <= i < run.len(),
    ensures
        recent(run[i].cache, key, invoice, others),
        run[i].op matches Progress::Pending(op) ==> match op {
            YankInvoiceView::Fetching { root: r, id: i2, fetch } => i2 == id && match fetch {
                FetchInvoiceView::Reading { root: r3, id: i3 } => i3 == id,
                FetchInvoiceView::Decoding { id: i3, text } => i3 == id,
            },
            YankInvoiceView::Indexing { root: r, id: i2, invoice: v } => i2 == id,
            YankInvoiceView::Encoding { root: r, id: i2, invoice: v } => i2 == id,
            YankInvoiceView::Writing { root: r, id: i2, invoice: v, data } => i2 == id,
        },
    decreases i,
{
    if i == 0 {
        lemma_recent_touched(before, id.name@, key, invoice, others);
    } else {
        lemma_recent_yank(root, before, id, run, events, i - 1, key, invoice, others);
        let m = run[i - 1];
        assert(steps(m, events[i - 1], run[i]));
        if let EventView::Decoded(Ok(read)) = events[i - 1] {
            lemma_recent_with_entry(m.cache, id.name@, read, key, invoice, others);
        }
        lemma_recent_without(m.cache, id.name@, key, invoice, others);
    }
}

/// The cache that a deed found and the one that it left, however it ended.
pub open spec fn cache_went(root: Seq<char>, before: Entries, deed: Deed, after: Entries) -> bool {
    match deed {
        Deed::Create { invoice, run, events } => {
            &&& is_run(run, events)
            &&& run[0].op == spec_start_create(root, invoice)
            &&& run[0].cache == before
            &&& after == run.last().cache
        },
        Deed::Yank { id, run, events } => {
            &&& is_run(run, events)
            &&& run[0].op == spec_start_yank(root, before, id)
            &&& run[0].cache == touched(before, id.name@)
            &&& after == run.last().cache
        },
        Deed::Read { id, run, events } => {
            &&& is_run(run, events)
            &&& run[0].op == spec_start_fetch(root, before, id)
            &&& run[0].cache == touched(before, id.name@)
            &&& after == run.last().cache
        },
        Deed::Store { bindle_id, parcel_id, run, events } => {
            &&& is_run(run, events)
            &&& parcel_starts(root, bindle_id, parcel_id, run[0])
            &&& run[0].cache == before
            &&& after == run.last().cache
        },
    }
}

/// Whether the deed looks up `key` or one of `others`, if any, and does not yank `key`.
pub open spec fn spares(deed: Deed, key: Seq<char>, others: Set<Seq<char>>) -> bool {
    match deed {
        Deed::Read { id, run, events } => id.name@ == key || others.contains(id.name@),
        Deed::Yank { id, run, events } => others.contains(id.name@),
        _ => true,
    }
}

/// An invoice once read is served from the cache, as it was read, for as long as it is not yanked
/// and fewer other bindles are looked up than the cache has room for, however often and with
/// whatever result.
pub proof fn invoice_once_read_stays_cached(
    root: Seq<char>,
    id: Id,
    invoice: InvoiceView,
    others: Set<Seq<char>>,
    deeds: Seq<Deed>,
    caches: Seq<Entries>,
)
    requires
        others.finite(),
        others.len() < CACHE_SIZE,
        !others.contains(id.name@),
        caches.len() == deeds.len() + 1,
        recent(caches[0], id.name@, invoice, others),
        forall|i: int|
            0 <= i < deeds.len() ==> cache_went(root, caches[i], #[trigger] deeds[i], caches[i + 1])
                && spares(deeds[i], id.name@, others),
    ensures
        recent(caches.last(), id.name@, invoice, others),
        spec_start_fetch(root, caches.last(), id) == Progress::<
            FetchInvoiceView,
            FetchResultView,
        >::Done(Ok(invoice)),
    decreases deeds.len(),
{
    if deeds.len() > 0 {
        let n = deeds.len() - 1;
        let earlier = deeds.drop_last();
        let shorter = caches.drop_last();
        assert forall|i: int| 0 <= i < earlier.len() implies cache_went(
            root,
            shorter[i],
            #[trigger] earlier[i],
            shorter[i + 1],
        ) && spares(earlier[i], id.name@, others) by {
            assert(earlier[i] == deeds[i]);
        }
        invoice_once_read_stays_cached(root, id, invoice, others, earlier, shorter);
        let before = caches[n];
        assert(shorter.last() == before);
        assert(cache_went(root, before, deeds[n], caches[n + 1]));
        match deeds[n] {
            Deed::Create { invoice: created, run, events } => {
                create_invoice_is_atomic(root, created, run, events, run.len() - 1);
            },
            Deed::Yank { id: other, run, events } => {
                lemma_recent_yank(
                    root,
                    before,
                    other,
                    run,
                    events,
                    run.len() - 1,
                    id.name@,
                    invoice,
                    others,
                );
            },
            Deed::Read { id: other, run, events } => {
                lemma_recent_fetch(
                    root,
                    before,
                    other,
                    run,
                    events,
                    run.len() - 1,
                    id.name@,
                    invoice,
                    others,
                );
            },
            Deed::Store { bindle_id, parcel_id, run, events } => {
                create_parcel_is_atomic(root, bindle_id, parcel_id, run, events, run.len() - 1);
            },
        }
    }
    recent_invoice_is_served(root, caches.last(), id, invoice, others);
}

} // verus!
