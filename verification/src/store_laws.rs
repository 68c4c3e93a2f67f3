//! What every operation keeps of the store as a whole.

use crate::cache::{in_order, lemma_with_entry, lookup, Entries, CACHE_SIZE};
use crate::create_invoice::{spec_start_create, CreateInvoiceView};
use crate::create_invoice_laws::{create_invoice_is_atomic, create_invoice_outcome, create_invoice_result_tells, stores, CreateMoment};
use crate::create_parcel::{is_parcel_data, CreateParcelView};
use crate::create_parcel_laws::{create_parcel_is_atomic, create_parcel_is_decided_by, create_parcel_is_refused_at_once, parcel_starts, ParcelMoment};
use crate::digest::{sha256, spec_lower_hex};
use crate::effect::{EventView, Progress};
use crate::fetch_invoice::{spec_start_fetch, FetchInvoiceView, FetchResultView};
use crate::invoice::{Id, InvoiceView};
use crate::layout::{files_do_not_mix, invoice_paths_are_distinct, is_component, lemma_invoice_files, lemma_parcel_files, parcel_paths_are_distinct, spec_invoice_toml_path, spec_parcel_data_path, spec_parcel_path};
use crate::path::spec_part_path;
use crate::meaning_laws::listed_is_what_is_in_the_list;
use crate::reading_laws::{fetch_only_reads, validates};
use crate::world::{all_went_well, has_data, has_file, is_run, lemma_format_stays, place, same_at, steps, Moment, Nodes, World};
use crate::yank_invoice::{spec_start_yank, YankInvoiceView};
use crate::yank_invoice_laws::{known_invoice, yank_marks_the_invoice, yank_of_the_unknown_changes_nothing, yank_outcome, yank_touches_only_its_invoice, YankMoment};
use vstd::prelude::*;
use vstd::utf8::encode_utf8;

verus! {

/// Every parcel in the store has the digest it is stored under.
pub open spec fn parcels_sound(root: Seq<char>, nodes: Nodes) -> bool {
    forall|id: Seq<char>|
        is_component(id) && has_file(nodes, #[trigger] spec_parcel_data_path(root, id))
            ==> is_parcel_data(nodes[spec_parcel_data_path(root, id)]->data, id)
}

/// Storing a parcel keeps every parcel in the store true to its digest, at every moment.
pub proof fn create_parcel_keeps_parcels_sound(
    root: Seq<char>,
    bindle_id: Id,
    parcel_id: Seq<char>,
    run: Seq<ParcelMoment>,
    events: Seq<EventView>,
    i: int,
)
    requires
        is_component(parcel_id),
        is_run(run, events),
        parcel_starts(root, bindle_id, parcel_id, run[0]),
        parcels_sound(root, run[0].world.nodes),
        0 <= i < run.len(),
    ensures
        parcels_sound(root, run[i].world.nodes),
{
    create_parcel_is_atomic(root, bindle_id, parcel_id, run, events, i);
    let before = run[0].world.nodes;
    let after = run[i].world.nodes;
    assert forall|id: Seq<char>|
        is_component(id) && has_file(
            after,
            #[trigger] spec_parcel_data_path(root, id),
        ) implies is_parcel_data(after[spec_parcel_data_path(root, id)]->data, id) by {
        let path = spec_parcel_data_path(root, id);
        lemma_parcel_files(root, id);
        lemma_parcel_files(root, parcel_id);
        if id != parcel_id {
            parcel_paths_are_distinct(root, id, parcel_id);
            assert(path != spec_part_path(spec_parcel_data_path(root, parcel_id)));
            assert(before.contains_key(path));
        }
    }
}

/// Storing an invoice leaves every parcel in the store true to its digest, at every moment.
pub proof fn create_invoice_keeps_parcels_sound(
    root: Seq<char>,
    invoice: InvoiceView,
    run: Seq<CreateMoment>,
    events: Seq<EventView>,
    i: int,
)
    requires
        is_run(run, events),
        run[0].op == spec_start_create(root, invoice),
        parcels_sound(root, run[0].world.nodes),
        0 <= i < run.len(),
    ensures
        parcels_sound(root, run[i].world.nodes),
{
    create_invoice_is_atomic(root, invoice, run, events, i);
    let before = run[0].world.nodes;
    let after = run[i].world.nodes;
    assert forall|id: Seq<char>|
        is_component(id) && has_file(
            after,
            #[trigger] spec_parcel_data_path(root, id),
        ) implies is_parcel_data(after[spec_parcel_data_path(root, id)]->data, id) by {
        let path = spec_parcel_data_path(root, id);
        files_do_not_mix(root, invoice.canonical_name(), id);
        assert(before.contains_key(path));
    }
}

/// Yanking an invoice leaves every parcel in the store true to its digest, at every moment.
pub proof fn yank_keeps_parcels_sound(
    root: Seq<char>,
    id: Id,
    run: Seq<YankMoment>,
    events: Seq<EventView>,
    i: int,
)
    requires
        is_run(run, events),
        in_order(run[0].cache),
        run[0].op == spec_start_yank(root, run[0].cache, id),
        parcels_sound(root, run[0].world.nodes),
        0 <= i < run.len(),
    ensures
        parcels_sound(root, run[i].world.nodes),
{
    yank_touches_only_its_invoice(root, id, run, events, i);
    let known = known_invoice(root, run[0].world, run[0].cache, id);
    let before = run[0].world.nodes;
    let after = run[i].world.nodes;
    assert forall|p: Seq<char>|
        is_component(p) && has_file(
            after,
            #[trigger] spec_parcel_data_path(root, p),
        ) implies is_parcel_data(after[spec_parcel_data_path(root, p)]->data, p) by {
        if known is Some {
            files_do_not_mix(root, known->0.canonical_name(), p);
        }
        assert(same_at(before, after, spec_parcel_data_path(root, p)));
    }
}

/// The invoice that the cache has for `id`, if any, is what the document under the bindle's
/// digest stands for.
pub open spec fn cache_agrees(root: Seq<char>, world: World, cache: Entries, id: Id) -> bool {
    lookup(cache, id.name@) matches Some(invoice) ==> stores(
        world,
        spec_invoice_toml_path(root, id.sha@),
        invoice,
    )
}

/// Two identifiers have the same digest exactly if they are the same.
pub open spec fn told_apart(a: Id, b: Id) -> bool {
    a.name@ == b.name@ <==> a.sha@ == b.sha@
}

/// Reading an invoice keeps the cache in agreement with the file system.
pub proof fn fetch_keeps_cache_agreeing(
    root: Seq<char>,
    id: Id,
    run: Seq<Moment<FetchInvoiceView, FetchResultView>>,
    events: Seq<EventView>,
    i: int,
    other: Id,
)
    requires
        is_run(run, events),
        in_order(run[0].cache),
        run[0].op == spec_start_fetch(root, run[0].cache, id),
        told_apart(id, other),
        cache_agrees(root, run[0].world, run[0].cache, other),
        0 <= i < run.len(),
    ensures
        cache_agrees(root, run[i].world, run[i].cache, other),
        in_order(run[i].cache),
{
    fetch_only_reads(run, events, i);
    lemma_fetch_cache(root, id, run, events, i, other);
}

proof fn lemma_fetch_cache(
    root: Seq<char>,
    id: Id,
    run: Seq<Moment<FetchInvoiceView, FetchResultView>>,
    events: Seq<EventView>,
    i: int,
    other: Id,
)
    requires
        is_run(run, events),
        in_order(run[0].cache),
        run[0].op == spec_start_fetch(root, run[0].cache, id),
        told_apart(id, other),
        cache_agrees(root, run[0].world, run[0].cache, other),
        0 <= i < run.len(),
    ensures
        cache_agrees(root, run[0].world, run[i].cache, other),
        in_order(run[i].cache),
        run[i].op matches Progress::Pending(op) ==> match op {
            FetchInvoiceView::Reading { root: r, id: i2 } => r == root && i2 == id,
            FetchInvoiceView::Decoding { id: i2, text } => i2 == id && has_data(
                run[0].world.nodes,
                spec_invoice_toml_path(root, id.sha@),
                encode_utf8(text),
            ),
        },
    decreases i,
{
    if i > 0 {
        lemma_fetch_cache(root, id, run, events, i - 1, other);
        fetch_only_reads(run, events, i - 1);
        let m = run[i - 1];
        let event = events[i - 1];
        assert(steps(m, event, run[i]));
        if let FetchInvoiceView::Decoding { id: i2, text } = m.op->Pending_0 {
            if let EventView::Decoded(Ok(invoice)) = event {
                lemma_with_entry(m.cache, CACHE_SIZE as nat, id.name@, invoice);
                assert(stores(run[0].world, spec_invoice_toml_path(root, id.sha@), invoice));
            }
        }
    }
}

/// Yanking an invoice that is stored under its own name keeps the cache in agreement with the
/// file system, where nothing goes wrong.
pub proof fn yank_keeps_cache_agreeing(
    root: Seq<char>,
    id: Id,
    run: Seq<YankMoment>,
    events: Seq<EventView>,
    other: Id,
)
    requires
        is_run(run, events),
        all_went_well(events),
        in_order(run[0].cache),
        run[0].op == spec_start_yank(root, run[0].cache, id),
        known_invoice(root, run[0].world, run[0].cache, id) matches Some(known)
            ==> known.canonical_name() == id.sha@,
        is_component(id.sha@),
        is_component(other.sha@),
        told_apart(id, other),
        cache_agrees(root, run[0].world, run[0].cache, other),
        run.last().op is Done,
    ensures
        cache_agrees(root, run.last().world, run.last().cache, other),
{
    let last = run.len() - 1;
    yank_outcome(root, id, run, events);
    yank_touches_only_its_invoice(root, id, run, events, last);
    let path = spec_invoice_toml_path(root, other.sha@);
    if other.name@ == id.name@ {
        if run.last().op->Done_0 is Ok {
            yank_marks_the_invoice(root, id, run, events);
        } else {
            yank_of_the_unknown_changes_nothing(root, id, run, events, last);
        }
    } else {
        invoice_paths_are_distinct(root, id.sha@, other.sha@);
        assert(same_at(run[0].world.nodes, run.last().world.nodes, path));
        lemma_format_stays::<YankInvoiceView>(run, events, last);
    }
}

/// Storing an invoice keeps the cache in agreement with the file system, where nothing goes
/// wrong.
pub proof fn create_invoice_keeps_cache_agreeing(
    root: Seq<char>,
    invoice: InvoiceView,
    run: Seq<CreateMoment>,
    events: Seq<EventView>,
    other: Id,
)
    requires
        is_run(run, events),
        all_went_well(events),
        run[0].op == spec_start_create(root, invoice),
        cache_agrees(root, run[0].world, run[0].cache, other),
        run.last().op is Done,
    ensures
        cache_agrees(root, run.last().world, run.last().cache, other),
{
    let last = run.len() - 1;
    create_invoice_is_atomic(root, invoice, run, events, last);
    create_invoice_outcome(root, invoice, run, events);
    create_invoice_result_tells(root, invoice, run, events);
    lemma_format_stays::<CreateInvoiceView>(run, events, last);
    lemma_invoice_files(root, other.sha@);
    lemma_invoice_files(root, invoice.canonical_name());
}

/// Storing a parcel keeps the cache in agreement with the file system, at every moment.
pub proof fn create_parcel_keeps_cache_agreeing(
    root: Seq<char>,
    bindle_id: Id,
    parcel_id: Seq<char>,
    run: Seq<ParcelMoment>,
    events: Seq<EventView>,
    i: int,
    other: Id,
)
    requires
        is_run(run, events),
        parcel_starts(root, bindle_id, parcel_id, run[0]),
        cache_agrees(root, run[0].world, run[0].cache, other),
        0 <= i < run.len(),
    ensures
        cache_agrees(root, run[i].world, run[i].cache, other),
{
    create_parcel_is_atomic(root, bindle_id, parcel_id, run, events, i);
    lemma_format_stays::<CreateParcelView>(run, events, i);
    files_do_not_mix(root, other.sha@, parcel_id);
}

/// The invoice that the cache has for `id`, if any, is what the document under the bindle's
/// digest stands for, except that only one of the two may be marked as yanked.
pub open spec fn agrees_but_for_the_mark(
    root: Seq<char>,
    world: World,
    cache: Entries,
    id: Id,
) -> bool {
    let path = spec_invoice_toml_path(root, id.sha@);
    lookup(cache, id.name@) matches Some(kept) ==> {
        &&& has_file(world.nodes, path)
        &&& (world.parse)(world.nodes[path]->data) matches Some(stored)
        &&& stored.yank() == kept.yank()
    }
}

/// Yanking a yanked invoice is no error, and changes nothing in the store: where nothing goes
/// wrong, a second yank succeeds and leaves every file with the same bytes. What the cache has
/// for the bindle must be what is stored for it, but for the mark, or, at the first yank, the
/// invoice must be stored under the digest it is asked for under.
pub proof fn yanking_again_changes_nothing_stored(
    root: Seq<char>,
    id: Id,
    run: Seq<YankMoment>,
    events: Seq<EventView>,
    rerun: Seq<YankMoment>,
    reevents: Seq<EventView>,
)
    requires
        is_run(run, events),
        in_order(run[0].cache),
        run[0].op == spec_start_yank(root, run[0].cache, id),
        run.last().op matches Progress::Done(Ok(_)),
        agrees_but_for_the_mark(root, run[0].world, run[0].cache, id) || known_invoice(
            root,
            run[0].world,
            run[0].cache,
            id,
        )->0.canonical_name() == id.sha@,
        is_run(rerun, reevents),
        all_went_well(reevents),
        in_order(rerun[0].cache),
        rerun[0].op == spec_start_yank(root, rerun[0].cache, id),
        rerun[0].world.nodes == run.last().world.nodes,
        rerun[0].world.parse == run.last().world.parse,
        rerun[0].world.print == run.last().world.print,
        agrees_but_for_the_mark(root, rerun[0].world, rerun[0].cache, id),
        rerun.last().op is Done,
    ensures
        rerun.last().op matches Progress::Done(Ok(_)),
        rerun.last().world.nodes == run.last().world.nodes,
{
    let first = known_invoice(root, run[0].world, run[0].cache, id);
    let again = known_invoice(root, rerun[0].world, rerun[0].cache, id);
    let path = spec_invoice_toml_path(root, id.sha@);
    yank_marks_the_invoice(root, id, run, events);
    yank_touches_only_its_invoice(root, id, run, events, run.len() - 1);
    lemma_format_stays::<YankInvoiceView>(run, events, run.len() - 1);
    assert(path != spec_invoice_toml_path(root, first->0.canonical_name()) ==> same_at(
        run[0].world.nodes,
        run.last().world.nodes,
        path,
    ));
    assert(again is Some && again->0.yank() == first->0.yank());
    assert(again->0.canonical_name() == again->0.yank().canonical_name());
    assert(first->0.canonical_name() == first->0.yank().canonical_name());
    yank_outcome(root, id, rerun, reevents);
    yank_marks_the_invoice(root, id, rerun, reevents);
    yank_touches_only_its_invoice(root, id, rerun, reevents, rerun.len() - 1);
    let before = rerun[0].world.nodes;
    let after = rerun.last().world.nodes;
    assert forall|p: Seq<char>| #[trigger] after.contains_key(p) == before.contains_key(p) && (
    before.contains_key(p) ==> after[p] == before[p]) by {
        assert(same_at(before, after, p));
    }
    assert(after =~= before);
}

/// Where nothing goes wrong, a parcel is stored only for a bindle whose invoice has it in its list.
/// For any other bindle it is not found, whatever data comes in, and nothing is done to the store.
/// A parcel in the list whose place is free is stored exactly if its data has its digest.
pub proof fn parcels_are_stored_for_bindles_that_list_them(
    root: Seq<char>,
    bindle_id: Id,
    parcel_id: Seq<char>,
    known: InvoiceView,
    run: Seq<ParcelMoment>,
    events: Seq<EventView>,
)
    requires
        is_run(run, events),
        all_went_well(events),
        parcel_starts(root, bindle_id, parcel_id, run[0]),
        run.last().op is Done,
        validates(Some(known), parcel_id, events[0]),
    ensures
        ({
            let before = run[0].world.nodes;
            let dir = place(spec_parcel_path(root, parcel_id));
            let part = spec_parcel_data_path(root, parcel_id) + ".part"@;
            let result = run.last().op->Done_0;
            if known.parcel matches Some(ps) && (exists|i: int|
                0 <= i < ps.len() && (#[trigger] ps[i]).label.sha256@ == parcel_id) {
                !(before.contains_key(dir) && before[dir] is Dir) && !before.contains_key(part) ==> (
                result is Ok <==> spec_lower_hex(sha256(run[0].world.incoming)) == parcel_id)
            } else {
                &&& result matches Err(e) && e is NotFound
                &&& run.last().world == run[0].world
            }
        }),
{
    listed_is_what_is_in_the_list(known, parcel_id);
    assert(events.len() > 0);
    if known.lists_parcel(parcel_id) {
        create_parcel_is_decided_by(root, bindle_id, parcel_id, run, events);
    } else {
        let e = events[0]->Validated_0->Err_0;
        create_parcel_is_refused_at_once(root, bindle_id, parcel_id, run, events, e);
    }
}

} // verus!
