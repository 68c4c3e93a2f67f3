//! What a store holds after a history of deeds, and what a new provider for it tells its index.

use crate::cache::{in_order, lemma_touched, lookup, touched, Entries};
use crate::create_invoice::{spec_start_create, CreateInvoiceView};
use crate::create_invoice_laws::{create_invoice_is_atomic, create_invoice_result_tells, stores, CreateMoment};
use crate::create_parcel::CreateParcelView;
use crate::create_parcel_laws::{create_parcel_is_atomic, parcel_starts, ParcelMoment};
use crate::effect::EventView;
use crate::fetch_invoice::{spec_start_fetch, FetchInvoiceView, FetchResultView};
use crate::invoice::{Id, InvoiceView};
use crate::layout::{invoice_paths_are_distinct, is_component, lemma_invoice_files, lemma_parcel_files, spec_invoice_path, spec_invoice_toml_path, spec_parcel_data_path, spec_parcel_path, INVOICE_DIRECTORY, INVOICE_TOML, PARCEL_DIRECTORY};
use crate::path::{spec_join, spec_part_path};
use crate::reading_laws::fetch_only_reads;
use crate::store_laws::{cache_agrees, create_parcel_keeps_cache_agreeing, fetch_keeps_cache_agreeing, told_apart};
use crate::warm_index_laws::{each_entry_is_told_once, invoices_dir, lemma_invoices_dir, names_differ, records_sound, tells_of, told, warm_index_outcome, warm_starts, WarmMoment};
use crate::world::{all_went_well, has_dir, is_entry_name, is_run, lemma_format_stays, names_in, on_the_way, place, same_at, starts_with, steps, Moment, World};
use crate::yank_invoice::{spec_start_yank, YankInvoiceView};
use crate::yank_invoice_laws::{known_invoice, yank_marks_the_invoice, yank_touches_only_its_invoice, YankMoment};
use vstd::prelude::*;

verus! {

/// How things are between two deeds.
pub struct Situation {
    pub world: World,
    pub cache: Entries,
}

/// Something that was done through a provider, from its beginning to its end.
#[allow(inconsistent_fields)]
pub enum Deed {
    /// An invoice was created.
    Create { invoice: InvoiceView, run: Seq<CreateMoment>, events: Seq<EventView> },
    /// An invoice was yanked.
    Yank { id: Id, run: Seq<YankMoment>, events: Seq<EventView> },
    /// An invoice was asked for.
    Read {
        id: Id,
        run: Seq<Moment<FetchInvoiceView, FetchResultView>>,
        events: Seq<EventView>,
    },
    /// The data of a parcel was stored.
    Store {
        bindle_id: Id,
        parcel_id: Seq<char>,
        run: Seq<ParcelMoment>,
        events: Seq<EventView>,
    },
}

impl Deed {
    /// The bindle that the deed was about.
    pub open spec fn id(self) -> Id {
        match self {
            Deed::Create { invoice, run, events } => invoice.bindle.id,
            Deed::Yank { id, run, events } => id,
            Deed::Read { id, run, events } => id,
            Deed::Store { bindle_id, parcel_id, run, events } => bindle_id,
        }
    }

    /// Whether the invoice called `name` was created.
    pub open spec fn creates(self, name: Seq<char>) -> bool {
        self is Create && self.id().sha@ == name
    }

    /// Whether the invoice called `name` was yanked.
    pub open spec fn yanks(self, name: Seq<char>) -> bool {
        self is Yank && self.id().sha@ == name
    }
}

/// A run that starts in `world` goes on from the situation `before`.
pub open spec fn goes_on(before: Situation, world: World) -> bool {
    &&& world.nodes == before.world.nodes
    &&& world.parse == before.world.parse
    &&& world.print == before.world.print
}

/// The deed led from the situation `before` to the situation `after`. What was created, yanked or
/// stored was so with success. Asking for an invoice may have ended in any way.
pub open spec fn was_done(root: Seq<char>, before: Situation, deed: Deed, after: Situation) -> bool {
    match deed {
        Deed::Create { invoice, run, events } => {
            &&& is_run(run, events)
            &&& run[0].op == spec_start_create(root, invoice)
            &&& goes_on(before, run[0].world)
            &&& run[0].cache == before.cache
            &&& run.last().op is Done
            &&& run.last().op->Done_0 is Ok
            &&& after == (Situation { world: run.last().world, cache: run.last().cache })
        },
        Deed::Yank { id, run, events } => {
            &&& is_run(run, events)
            &&& run[0].op == spec_start_yank(root, before.cache, id)
            &&& goes_on(before, run[0].world)
            &&& run[0].cache == touched(before.cache, id.name@)
            &&& run.last().op is Done
            &&& run.last().op->Done_0 is Ok
            &&& after == (Situation { world: run.last().world, cache: run.last().cache })
        },
        Deed::Read { id, run, events } => {
            &&& is_run(run, events)
            &&& run[0].op == spec_start_fetch(root, before.cache, id)
            &&& goes_on(before, run[0].world)
            &&& run[0].cache == touched(before.cache, id.name@)
            &&& run.last().op is Done
            &&& after == (Situation { world: run.last().world, cache: run.last().cache })
        },
        Deed::Store { bindle_id, parcel_id, run, events } => {
            &&& is_run(run, events)
            &&& parcel_starts(root, bindle_id, parcel_id, run[0])
            &&& goes_on(before, run[0].world)
            &&& run[0].cache == before.cache
            &&& run.last().op is Done
            &&& run.last().op->Done_0 is Ok
            &&& after == (Situation { world: run.last().world, cache: run.last().cache })
        },
    }
}

/// Whether `name` was created in the course of `deeds`.
pub open spec fn was_created(deeds: Seq<Deed>, name: Seq<char>) -> bool {
    exists|k: int| 0 <= k < deeds.len() && (#[trigger] deeds[k]).creates(name)
}

/// Whether `name` was yanked in the course of `deeds`.
pub open spec fn was_yanked(deeds: Seq<Deed>, name: Seq<char>) -> bool {
    exists|k: int| 0 <= k < deeds.len() && (#[trigger] deeds[k]).yanks(name)
}

/// A history of a store under `root`: `deeds`, and the situations between them. No two invoices
/// with the same name are created. The names of invoices and parcels are names of directories,
/// and different bindles have different digests.
pub open spec fn is_history(root: Seq<char>, deeds: Seq<Deed>, situations: Seq<Situation>) -> bool {
    &&& situations.len() == deeds.len() + 1
    &&& forall|i: int|
        0 <= i < deeds.len() ==> was_done(root, situations[i], #[trigger] deeds[i], situations[i + 1])
    &&& forall|i: int| 0 <= i < deeds.len() ==> is_entry_name((#[trigger] deeds[i]).id().sha@)
    &&& forall|i: int|
        0 <= i < deeds.len() && (#[trigger] deeds[i]) is Store ==> is_component(
            deeds[i]->parcel_id,
        )
    &&& forall|i: int, j: int|
        0 <= i < deeds.len() && 0 <= j < deeds.len() ==> told_apart(
            (#[trigger] deeds[i]).id(),
            (#[trigger] deeds[j]).id(),
        )
    &&& forall|i: int, j: int|
        0 <= i < j < deeds.len() && (#[trigger] deeds[i]) is Create && (
        #[trigger] deeds[j]) is Create ==> deeds[i].id().sha@ != deeds[j].id().sha@
}

/// A store that holds no invoices, and a provider that has read none.
pub open spec fn is_new(root: Seq<char>, s: Situation) -> bool {
    &&& forall|p: Seq<char>| #[trigger]
        s.world.nodes.contains_key(p) ==> !starts_with(p, invoices_dir(root).push('/'))
    &&& s.cache == Seq::<(Seq<char>, InvoiceView)>::empty()
}

/// The invoices in a store that was new, by their names, after `deeds`: those that were created,
/// the yanked ones marked as such.
pub open spec fn contents(deeds: Seq<Deed>) -> Map<Seq<char>, InvoiceView>
    decreases deeds.len(),
{
    if deeds.len() == 0 {
        Map::empty()
    } else {
        let earlier = contents(deeds.drop_last());
        let name = deeds.last().id().sha@;
        match deeds.last() {
            Deed::Create { invoice, run, events } => earlier.insert(name, invoice),
            Deed::Yank { id, run, events } => earlier.insert(name, earlier[name].yank()),
            _ => earlier,
        }
    }
}

/// Whether `p` is the directory or the file of one of `held`.
pub open spec fn is_record(
    root: Seq<char>,
    held: Map<Seq<char>, InvoiceView>,
    p: Seq<char>,
) -> bool {
    exists|n: Seq<char>| #[trigger]
        held.contains_key(n) && (p == spec_invoice_path(root, n) || p == spec_invoice_toml_path(
            root,
            n,
        ))
}

/// The store holds exactly the invoices `held`: each is stored under its name in a directory of
/// its own, and there is nothing else in the directory of invoices.
pub open spec fn keeps(root: Seq<char>, world: World, held: Map<Seq<char>, InvoiceView>) -> bool {
    &&& forall|n: Seq<char>| #[trigger]
        held.contains_key(n) ==> {
            &&& is_entry_name(n)
            &&& held[n].canonical_name() == n
            &&& has_dir(world.nodes, invoices_dir(root))
            &&& has_dir(world.nodes, spec_invoice_path(root, n))
            &&& stores(world, spec_invoice_toml_path(root, n), held[n])
        }
    &&& forall|p: Seq<char>| #[trigger]
        world.nodes.contains_key(p) && starts_with(p, invoices_dir(root).push('/')) ==> is_record(
            root,
            held,
            p,
        )
}

/// What holds in every situation of a history.
spec fn well_kept(
    root: Seq<char>,
    deeds: Seq<Deed>,
    s: Situation,
    held: Map<Seq<char>, InvoiceView>,
) -> bool {
    &&& keeps(root, s.world, held)
    &&& in_order(s.cache)
    &&& forall|k: int|
        0 <= k < deeds.len() ==> cache_agrees(root, s.world, s.cache, (#[trigger] deeds[k]).id())
}

/// Where the records of two invoices are.
proof fn lemma_records(root: Seq<char>, n: Seq<char>, m: Seq<char>)
    requires
        is_component(n),
        is_component(m),
    ensures
        ({
            let below = invoices_dir(root).push('/');
            let dest = spec_invoice_toml_path(root, m);
            let part = spec_part_path(dest);
            &&& spec_invoice_path(root, n) == below + n
            &&& dest == (below + m).push('/') + INVOICE_TOML@
            &&& starts_with(spec_invoice_path(root, n), below)
            &&& starts_with(dest, below)
            &&& starts_with(part, below)
            &&& spec_invoice_path(root, n) != dest
            &&& spec_invoice_path(root, n) != part
            &&& spec_invoice_toml_path(root, n) != part
            &&& invoices_dir(root).len() < dest.len() < part.len()
            &&& n != m ==> spec_invoice_path(root, n) != spec_invoice_path(root, m)
            &&& n != m ==> spec_invoice_toml_path(root, n) != dest
        }),
{
    lemma_invoices_dir(root);
    lemma_invoice_files(root, n);
    lemma_invoice_files(root, m);
    reveal_strlit("invoice.toml");
    let below = invoices_dir(root).push('/');
    assert(n.contains(n[0]) && n.contains(n.last()) && m.contains(m[0]) && m.contains(m.last()));
    let dir = spec_invoice_path(root, n);
    let dest = spec_invoice_toml_path(root, m);
    let part = spec_part_path(dest);
    assert(dir =~= below + n);
    assert(spec_invoice_path(root, m) =~= below + m);
    assert(dest =~= (below + m).push('/') + INVOICE_TOML@);
    assert(dir.take(below.len() as int) =~= below);
    assert(dest.take(below.len() as int) =~= below);
    assert(part.take(below.len() as int) =~= below);
    let end = (below.len() + m.len()) as int;
    assert(dest[end] == '/' && part[end] == '/');
    if dir == dest || dir == part {
        assert(n[m.len() as int] == '/');
        assert(n.contains('/'));
    }
    if n != m {
        invoice_paths_are_distinct(root, n, m);
    }
}

/// A document under the name of an invoice is that of an invoice in the store.
proof fn lemma_document_is_held(
    root: Seq<char>,
    world: World,
    held: Map<Seq<char>, InvoiceView>,
    name: Seq<char>,
)
    requires
        keeps(root, world, held),
        is_component(name),
        world.nodes.contains_key(spec_invoice_toml_path(root, name)),
    ensures
        held.contains_key(name),
{
    let path = spec_invoice_toml_path(root, name);
    lemma_records(root, name, name);
    assert(is_record(root, held, path));
    let n = choose|n: Seq<char>| #[trigger]
        held.contains_key(n) && (path == spec_invoice_path(root, n) || path
            == spec_invoice_toml_path(root, n));
    lemma_records(root, n, name);
}

/// A directory in the place of an invoice's is that of an invoice in the store.
proof fn lemma_directory_is_held(
    root: Seq<char>,
    world: World,
    held: Map<Seq<char>, InvoiceView>,
    name: Seq<char>,
)
    requires
        keeps(root, world, held),
        is_component(name),
        world.nodes.contains_key(spec_invoice_path(root, name)),
    ensures
        held.contains_key(name),
{
    let path = spec_invoice_path(root, name);
    lemma_records(root, name, name);
    assert(is_record(root, held, path));
    let n = choose|n: Seq<char>| #[trigger]
        held.contains_key(n) && (path == spec_invoice_path(root, n) || path
            == spec_invoice_toml_path(root, n));
    lemma_records(root, name, n);
}

/// Creating an invoice adds it to what the store holds.
proof fn lemma_create(
    root: Seq<char>,
    deeds: Seq<Deed>,
    before: Situation,
    deed: Deed,
    after: Situation,
    held: Map<Seq<char>, InvoiceView>,
)
    requires
        deed is Create,
        was_done(root, before, deed, after),
        well_kept(root, deeds, before, held),
        is_entry_name(deed.id().sha@),
        !held.contains_key(deed.id().sha@),
        forall|k: int| 0 <= k < deeds.len() ==> is_entry_name((#[trigger] deeds[k]).id().sha@),
    ensures
        well_kept(root, deeds, after, held.insert(deed.id().sha@, deed->invoice)),
        !deed->invoice.is_yanked(),
{
    if let Deed::Create { invoice, run, events } = deed {
        let name = invoice.canonical_name();
        let base = invoices_dir(root);
        let below = base.push('/');
        let dir = spec_invoice_path(root, name);
        let dest = spec_invoice_toml_path(root, name);
        let part = spec_part_path(dest);
        let now = held.insert(name, invoice);
        let nodes = before.world.nodes;
        if invoice.is_yanked() && events.len() > 0 {
            assert(steps(run[0], events[0], run[1]));
        }
        create_invoice_result_tells(root, invoice, run, events);
        create_invoice_is_atomic(root, invoice, run, events, run.len() - 1);
        lemma_format_stays::<CreateInvoiceView>(run, events, run.len() - 1);
        lemma_invoices_dir(root);
        lemma_records(root, name, name);
        assert(name.contains(name.last()));
        assert(place(dir) == dir);
        if nodes.contains_key(dir) {
            lemma_directory_is_held(root, before.world, held, name);
        }
        assert(dir.take(base.len() as int) =~= base);
        assert(on_the_way(dir, base));
        assert forall|n: Seq<char>| #[trigger] now.contains_key(n) implies {
            &&& is_entry_name(n)
            &&& now[n].canonical_name() == n
            &&& has_dir(after.world.nodes, base)
            &&& has_dir(after.world.nodes, spec_invoice_path(root, n))
            &&& stores(after.world, spec_invoice_toml_path(root, n), now[n])
        } by {
            if n != name {
                assert(held.contains_key(n));
                lemma_records(root, n, name);
            }
        }
        assert forall|p: Seq<char>| #[trigger]
            after.world.nodes.contains_key(p) && starts_with(p, below) implies is_record(
            root,
            now,
            p,
        ) by {
            if p == dest {
                assert(now.contains_key(name));
            } else if nodes.contains_key(p) {
                assert(is_record(root, held, p));
                let n = choose|n: Seq<char>| #[trigger]
                    held.contains_key(n) && (p == spec_invoice_path(root, n) || p
                        == spec_invoice_toml_path(root, n));
                assert(now.contains_key(n));
            } else {
                if p.len() < dir.len() {
                    assert(name[p.len() - below.len()] == '/');
                    assert(name.contains('/'));
                }
                assert(p =~= dir);
                assert(now.contains_key(name));
            }
        }
        assert forall|k: int| 0 <= k < deeds.len() implies cache_agrees(
            root,
            after.world,
            after.cache,
            (#[trigger] deeds[k]).id(),
        ) by {
            let other = deeds[k].id();
            assert(cache_agrees(root, before.world, before.cache, other));
            if lookup(before.cache, other.name@) is Some {
                lemma_document_is_held(root, before.world, held, other.sha@);
                lemma_records(root, other.sha@, name);
            }
        }
    }
}

/// Yanking an invoice marks it in what the store holds.
proof fn lemma_yank(
    root: Seq<char>,
    deeds: Seq<Deed>,
    before: Situation,
    k: int,
    after: Situation,
    held: Map<Seq<char>, InvoiceView>,
)
    requires
        0 <= k < deeds.len(),
        deeds[k] is Yank,
        was_done(root, before, deeds[k], after),
        well_kept(root, deeds, before, held),
        forall|j: int| 0 <= j < deeds.len() ==> is_entry_name((#[trigger] deeds[j]).id().sha@),
        forall|j: int| 0 <= j < deeds.len() ==> told_apart(deeds[k].id(), (#[trigger] deeds[j]).id()),
    ensures
        held.contains_key(deeds[k].id().sha@),
        well_kept(
            root,
            deeds,
            after,
            held.insert(deeds[k].id().sha@, held[deeds[k].id().sha@].yank()),
        ),
{
    if let Deed::Yank { id, run, events } = deeds[k] {
        let name = id.sha@;
        let path = spec_invoice_toml_path(root, name);
        let last = run.len() - 1;
        let base = invoices_dir(root);
        let nodes = before.world.nodes;
        lemma_touched(before.cache, id.name@);
        assert(lookup(run[0].cache, id.name@) == lookup(before.cache, id.name@));
        yank_marks_the_invoice(root, id, run, events);
        yank_touches_only_its_invoice(root, id, run, events, last);
        lemma_format_stays::<YankInvoiceView>(run, events, last);
        let known = known_invoice(root, run[0].world, run[0].cache, id);
        assert(cache_agrees(root, before.world, before.cache, deeds[k].id()));
        lemma_document_is_held(root, before.world, held, name);
        assert(known->0 == held[name]);
        let now = held.insert(name, held[name].yank());
        lemma_records(root, name, name);
        assert(same_at(nodes, after.world.nodes, base));
        assert forall|n: Seq<char>| #[trigger] now.contains_key(n) implies {
            &&& is_entry_name(n)
            &&& now[n].canonical_name() == n
            &&& has_dir(after.world.nodes, base)
            &&& has_dir(after.world.nodes, spec_invoice_path(root, n))
            &&& stores(after.world, spec_invoice_toml_path(root, n), now[n])
        } by {
            assert(held.contains_key(n));
            lemma_records(root, n, name);
            assert(same_at(nodes, after.world.nodes, spec_invoice_path(root, n)));
            if n != name {
                assert(same_at(nodes, after.world.nodes, spec_invoice_toml_path(root, n)));
            }
        }
        assert forall|p: Seq<char>| #[trigger]
            after.world.nodes.contains_key(p) && starts_with(p, base.push('/')) implies is_record(
            root,
            now,
            p,
        ) by {
            if p == path {
                assert(now.contains_key(name));
            } else {
                assert(same_at(nodes, after.world.nodes, p));
                assert(is_record(root, held, p));
                let n = choose|n: Seq<char>| #[trigger]
                    held.contains_key(n) && (p == spec_invoice_path(root, n) || p
                        == spec_invoice_toml_path(root, n));
                assert(now.contains_key(n));
            }
        }
        assert forall|j: int| 0 <= j < deeds.len() implies cache_agrees(
            root,
            after.world,
            after.cache,
            (#[trigger] deeds[j]).id(),
        ) by {
            let other = deeds[j].id();
            assert(told_apart(id, other));
            if other.name@ != id.name@ {
                assert(cache_agrees(root, before.world, before.cache, other));
                assert(lookup(run[0].cache, other.name@) == lookup(before.cache, other.name@));
                lemma_records(root, other.sha@, name);
                assert(same_at(
                    nodes,
                    after.world.nodes,
                    spec_invoice_toml_path(root, other.sha@),
                ));
            }
        }
    }
}

/// Asking for an invoice changes nothing in what the store holds.
proof fn lemma_read(
    root: Seq<char>,
    deeds: Seq<Deed>,
    before: Situation,
    k: int,
    after: Situation,
    held: Map<Seq<char>, InvoiceView>,
)
    requires
        0 <= k < deeds.len(),
        deeds[k] is Read,
        was_done(root, before, deeds[k], after),
        well_kept(root, deeds, before, held),
        forall|j: int| 0 <= j < deeds.len() ==> told_apart(deeds[k].id(), (#[trigger] deeds[j]).id()),
    ensures
        well_kept(root, deeds, after, held),
{
    if let Deed::Read { id, run, events } = deeds[k] {
        let last = run.len() - 1;
        lemma_touched(before.cache, id.name@);
        assert(lookup(run[0].cache, id.name@) == lookup(before.cache, id.name@));
        fetch_only_reads(run, events, last);
        assert forall|j: int| 0 <= j < deeds.len() implies cache_agrees(
            root,
            after.world,
            after.cache,
            (#[trigger] deeds[j]).id(),
        ) by {
            let other = deeds[j].id();
            assert(told_apart(id, other));
            assert(cache_agrees(root, before.world, before.cache, other));
            assert(lookup(run[0].cache, other.name@) == lookup(before.cache, other.name@));
            fetch_keeps_cache_agreeing(root, id, run, events, last, other);
        }
        assert(cache_agrees(root, before.world, before.cache, deeds[k].id()));
        fetch_keeps_cache_agreeing(root, id, run, events, last, id);
    }
}

/// What is in the directory of invoices is not on the way to a parcel.
proof fn lemma_parcels_are_elsewhere(root: Seq<char>, parcel_id: Seq<char>, p: Seq<char>)
    requires
        is_component(parcel_id),
        starts_with(p, invoices_dir(root)),
    ensures
        !on_the_way(spec_parcel_path(root, parcel_id), p),
        p != spec_parcel_data_path(root, parcel_id),
        p != spec_part_path(spec_parcel_data_path(root, parcel_id)),
{
    reveal_strlit("invoices");
    reveal_strlit("parcels");
    lemma_parcel_files(root, parcel_id);
    let base = invoices_dir(root);
    let dir = spec_parcel_path(root, parcel_id);
    let dest = spec_parcel_data_path(root, parcel_id);
    let fork = base.len() - INVOICE_DIRECTORY@.len();
    assert(parcel_id.contains(parcel_id[0]));
    assert(base[fork] == 'i');
    assert(spec_join(root, PARCEL_DIRECTORY@)[fork] == 'p');
    assert(dir[fork] == 'p');
    assert(dest.take(dir.len() as int)[fork] == 'p');
    assert(p.take(base.len() as int)[fork] == 'i');
    if on_the_way(dir, p) {
        assert(dir.take(p.len() as int)[fork] == 'p');
    }
}

/// Storing a parcel changes nothing in which invoices the store holds.
proof fn lemma_store(
    root: Seq<char>,
    deeds: Seq<Deed>,
    before: Situation,
    deed: Deed,
    after: Situation,
    held: Map<Seq<char>, InvoiceView>,
)
    requires
        deed is Store,
        is_component(deed->parcel_id),
        was_done(root, before, deed, after),
        well_kept(root, deeds, before, held),
    ensures
        well_kept(root, deeds, after, held),
{
    if let Deed::Store { bindle_id, parcel_id, run, events } = deed {
        let last = run.len() - 1;
        let base = invoices_dir(root);
        let nodes = before.world.nodes;
        create_parcel_is_atomic(root, bindle_id, parcel_id, run, events, last);
        lemma_format_stays::<CreateParcelView>(run, events, last);
        assert(base.take(base.len() as int) =~= base);
        lemma_parcels_are_elsewhere(root, parcel_id, base);
        assert forall|p: Seq<char>| starts_with(p, base.push('/')) implies #[trigger] same_at(
            nodes,
            after.world.nodes,
            p,
        ) by {
            assert(p.take(base.len() as int) =~= p.take((base.len() + 1) as int).take(base.len() as int));
            assert(base.push('/').take(base.len() as int) =~= base);
            lemma_parcels_are_elsewhere(root, parcel_id, p);
        }
        assert forall|n: Seq<char>| #[trigger] held.contains_key(n) implies {
            &&& has_dir(after.world.nodes, base)
            &&& has_dir(after.world.nodes, spec_invoice_path(root, n))
            &&& stores(after.world, spec_invoice_toml_path(root, n), held[n])
        } by {
            lemma_records(root, n, n);
            assert(same_at(nodes, after.world.nodes, spec_invoice_path(root, n)));
            assert(same_at(nodes, after.world.nodes, spec_invoice_toml_path(root, n)));
        }
        assert forall|p: Seq<char>| #[trigger]
            after.world.nodes.contains_key(p) && starts_with(p, base.push('/')) implies is_record(
            root,
            held,
            p,
        ) by {
            assert(same_at(nodes, after.world.nodes, p));
        }
        assert forall|j: int| 0 <= j < deeds.len() implies cache_agrees(
            root,
            after.world,
            after.cache,
            (#[trigger] deeds[j]).id(),
        ) by {
            let other = deeds[j].id();
            assert(cache_agrees(root, before.world, before.cache, other));
            create_parcel_keeps_cache_agreeing(
                root,
                bindle_id,
                parcel_id,
                run,
                events,
                last,
                other,
            );
        }
    }
}

/// The names in the contents are those that were created, and the yanked invoices are those that
/// were yanked.
spec fn contents_tell(deeds: Seq<Deed>) -> bool {
    let held = contents(deeds);
    &&& forall|n: Seq<char>| #[trigger] held.contains_key(n) <==> was_created(deeds, n)
    &&& forall|n: Seq<char>| #[trigger] was_yanked(deeds, n) ==> held.contains_key(n)
    &&& forall|n: Seq<char>| #[trigger]
        held.contains_key(n) ==> (held[n].is_yanked() <==> was_yanked(deeds, n))
}

proof fn lemma_contents_tell(earlier: Seq<Deed>, deed: Deed)
    requires
        contents_tell(earlier),
        deed is Create ==> !contents(earlier).contains_key(deed.id().sha@)
            && !deed->invoice.is_yanked(),
        deed is Yank ==> contents(earlier).contains_key(deed.id().sha@),
    ensures
        contents_tell(earlier.push(deed)),
{
    let deeds = earlier.push(deed);
    let name = deed.id().sha@;
    assert(deeds.drop_last() =~= earlier);
    assert(deeds.last() == deed);
    assert forall|n: Seq<char>| #[trigger]
        was_created(deeds, n) <==> was_created(earlier, n) || deed.creates(n) by {
        if was_created(earlier, n) {
            let k = choose|k: int| 0 <= k < earlier.len() && (#[trigger] earlier[k]).creates(n);
            assert(deeds[k].creates(n));
        }
        if deed.creates(n) {
            assert(deeds[earlier.len() as int].creates(n));
        }
        if was_created(deeds, n) && !deed.creates(n) {
            let k = choose|k: int| 0 <= k < deeds.len() && (#[trigger] deeds[k]).creates(n);
            assert(earlier[k].creates(n));
        }
    }
    assert forall|n: Seq<char>| #[trigger]
        was_yanked(deeds, n) <==> was_yanked(earlier, n) || deed.yanks(n) by {
        if was_yanked(earlier, n) {
            let k = choose|k: int| 0 <= k < earlier.len() && (#[trigger] earlier[k]).yanks(n);
            assert(deeds[k].yanks(n));
        }
        if deed.yanks(n) {
            assert(deeds[earlier.len() as int].yanks(n));
        }
        if was_yanked(deeds, n) && !deed.yanks(n) {
            let k = choose|k: int| 0 <= k < deeds.len() && (#[trigger] deeds[k]).yanks(n);
            assert(earlier[k].yanks(n));
        }
    }
    let before = contents(earlier);
    let after = contents(deeds);
    assert forall|n: Seq<char>| #[trigger] after.contains_key(n) <==> was_created(deeds, n) by {
        assert(before.contains_key(n) <==> was_created(earlier, n));
    }
    assert forall|n: Seq<char>| #[trigger] was_yanked(deeds, n) implies after.contains_key(n) by {
        assert(was_yanked(earlier, n) ==> before.contains_key(n));
    }
    assert forall|n: Seq<char>| #[trigger] after.contains_key(n) implies (after[n].is_yanked()
        <==> was_yanked(deeds, n)) by {
        assert(was_yanked(earlier, n) ==> before.contains_key(n));
        assert(before.contains_key(n) ==> (before[n].is_yanked() <==> was_yanked(earlier, n)));
    }
}

proof fn lemma_history(root: Seq<char>, deeds: Seq<Deed>, situations: Seq<Situation>, i: int)
    requires
        is_history(root, deeds, situations),
        is_new(root, situations[0]),
        0 <= i <= deeds.len(),
    ensures
        well_kept(root, deeds, situations[i], contents(deeds.take(i))),
        contents_tell(deeds.take(i)),
    decreases i,
{
    if i == 0 {
        assert(deeds.take(0).len() == 0);
    } else {
        lemma_history(root, deeds, situations, i - 1);
        let earlier = deeds.take(i - 1);
        let deed = deeds[i - 1];
        let held = contents(earlier);
        let name = deed.id().sha@;
        assert(deeds.take(i) =~= earlier.push(deed));
        assert(deeds.take(i).drop_last() =~= earlier);
        let before = situations[i - 1];
        let after = situations[i];
        assert(was_done(root, before, deed, after));
        match deed {
            Deed::Create { .. } => {
                if held.contains_key(name) {
                    assert(was_created(earlier, name));
                    let k = choose|k: int|
                        0 <= k < earlier.len() && (#[trigger] earlier[k]).creates(name);
                    assert(deeds[k] is Create && deeds[k].id().sha@ == name);
                }
                lemma_create(root, deeds, before, deed, after, held);
            },
            Deed::Yank { .. } => lemma_yank(root, deeds, before, i - 1, after, held),
            Deed::Read { .. } => lemma_read(root, deeds, before, i - 1, after, held),
            Deed::Store { .. } => lemma_store(root, deeds, before, deed, after, held),
        }
        lemma_contents_tell(earlier, deed);
    }
}

/// After a history that began with a new store, the store holds exactly the invoices that were
/// created, and marked as yanked exactly those that were yanked. The cache has nothing else for
/// any of the bindles.
pub proof fn store_holds_what_was_created(
    root: Seq<char>,
    deeds: Seq<Deed>,
    situations: Seq<Situation>,
)
    requires
        is_history(root, deeds, situations),
        is_new(root, situations[0]),
    ensures
        keeps(root, situations.last().world, contents(deeds)),
        forall|n: Seq<char>| #[trigger]
            contents(deeds).contains_key(n) <==> was_created(deeds, n),
        forall|n: Seq<char>| #[trigger]
            contents(deeds).contains_key(n) ==> (contents(deeds)[n].is_yanked() <==> was_yanked(
                deeds,
                n,
            )),
        forall|k: int|
            0 <= k < deeds.len() ==> cache_agrees(
                root,
                situations.last().world,
                situations.last().cache,
                (#[trigger] deeds[k]).id(),
            ),
{
    lemma_history(root, deeds, situations, deeds.len() as int);
    assert(deeds.take(deeds.len() as int) =~= deeds);
}

/// A new provider for a store tells its index of exactly the invoices that were created there, of
/// each once, and as yanked of exactly those that were yanked: warming, where nothing goes wrong,
/// succeeds.
pub proof fn new_provider_tells_of_what_was_created(
    root: Seq<char>,
    deeds: Seq<Deed>,
    situations: Seq<Situation>,
    run: Seq<WarmMoment>,
    events: Seq<EventView>,
)
    requires
        is_history(root, deeds, situations),
        is_new(root, situations[0]),
        is_run(run, events),
        all_went_well(events),
        warm_starts(root, run[0]),
        goes_on(situations.last(), run[0].world),
        run.last().op is Done,
    ensures
        run.last().op->Done_0 is Ok,
        names_differ(told(run)),
        forall|n: Seq<char>| #[trigger] was_created(deeds, n) <==> tells_of(told(run), n),
        forall|k: int|
            0 <= k < told(run).len() ==> (#[trigger] told(run)[k]) == contents(
                deeds,
            )[told(run)[k].canonical_name()],
        forall|k: int|
            0 <= k < told(run).len() ==> ((#[trigger] told(run)[k]).is_yanked() <==> was_yanked(
                deeds,
                told(run)[k].canonical_name(),
            )),
{
    store_holds_what_was_created(root, deeds, situations);
    let held = contents(deeds);
    let world = run[0].world;
    let base = invoices_dir(root);
    let names = names_in(world.nodes, base);
    assert(keeps(root, world, held));
    lemma_invoices_dir(root);
    assert forall|n: Seq<char>| #[trigger] names.contains(n) <==> held.contains_key(n) by {
        if is_entry_name(n) && world.nodes.contains_key(spec_join(base, n)) {
            lemma_directory_is_held(root, world, held, n);
        }
    }
    assert(records_sound(root, world));
    warm_index_outcome(root, run, events);
    each_entry_is_told_once(root, run, events);
    let list = told(run);
    assert forall|k: int| 0 <= k < list.len() implies held.contains_key(
        (#[trigger] list[k]).canonical_name(),
    ) && list[k] == held[list[k].canonical_name()] by {
        let n = list[k].canonical_name();
        assert(names.contains(n));
        assert(held.contains_key(n));
    }
    assert forall|n: Seq<char>| #[trigger] was_created(deeds, n) <==> tells_of(list, n) by {
        assert(held.contains_key(n) <==> was_created(deeds, n));
        if held.contains_key(n) {
            assert(names.contains(n));
        }
    }
}

} // verus!
