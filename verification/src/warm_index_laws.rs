//! What holds of every warming of the index.

use crate::cache::Entries;
use crate::create_invoice_laws::stores;
use crate::effect::{ActionView, DirEntry, EventView, FileKind, Operation, Progress};
use crate::invoice::InvoiceView;
use crate::layout::{lemma_invoice_files, spec_invoice_path, spec_invoice_toml_path, INVOICE_DIRECTORY};
use crate::path::{lemma_join_relative, spec_join};
use crate::warm_index::{WarmError, WarmIndexView};
use crate::world::{all_went_well, asks_for, has_data, has_dir, has_file, is_entry_name, is_run, is_tree, lemma_extend, names_in, on_the_way, place, steps, went_well, Moment, World};
use vstd::prelude::*;
use vstd::utf8::encode_utf8;

verus! {

/// A moment in the warming of the index.
pub type WarmMoment = Moment<WarmIndexView, Result<(), WarmError>>;

/// The beginning of the warming of the index.
pub open spec fn warm_starts(root: Seq<char>, m: WarmMoment) -> bool {
    m.op == Progress::<WarmIndexView, Result<(), WarmError>>::Pending(
        WarmIndexView::Checking { root },
    )
}

/// What is true whenever the index is being warmed.
spec fn warm_inv(root: Seq<char>, first: World, m: WarmMoment) -> bool {
    &&& m.world.nodes == first.nodes
    &&& m.world.parse == first.parse
    &&& match m.op {
        Progress::Pending(op) => match op {
            WarmIndexView::Checking { root: r } => r == root,
            WarmIndexView::Opening { root: r } => r == root,
            WarmIndexView::Listing { root: r } => r == root,
            WarmIndexView::Reading { root: r, sha } => r == root,
            WarmIndexView::Decoding { root: r, sha, text } => r == root && has_data(
                first.nodes,
                spec_invoice_toml_path(root, sha@),
                encode_utf8(text),
            ),
            WarmIndexView::Indexing { root: r, invoice } => r == root && stores(
                first,
                spec_invoice_toml_path(root, invoice.canonical_name()),
                invoice,
            ),
        },
        Progress::Done(_) => true,
    }
}

proof fn lemma_warm_run(root: Seq<char>, run: Seq<WarmMoment>, events: Seq<EventView>, i: int)
    requires
        is_run(run, events),
        warm_starts(root, run[0]),
        0 <= i < run.len(),
    ensures
        warm_inv(root, run[0].world, run[i]),
    decreases i,
{
    if i > 0 {
        lemma_warm_run(root, run, events, i - 1);
        assert(steps(run[i - 1], events[i - 1], run[i]));
    }
}

/// The index is told only of invoices that are in the store, each under its own name.
pub proof fn only_stored_invoices_are_indexed(
    root: Seq<char>,
    run: Seq<WarmMoment>,
    events: Seq<EventView>,
    i: int,
)
    requires
        is_run(run, events),
        warm_starts(root, run[0]),
        0 <= i < run.len(),
    ensures
        run[i].op matches Progress::Pending(WarmIndexView::Indexing { root: _, invoice }) ==> stores(
            run[i].world,
            spec_invoice_toml_path(root, invoice.canonical_name()),
            invoice,
        ),
{
    lemma_warm_run(root, run, events, i);
}

/// Success means that the index was told of every entry that was listed: the entry's name is
/// that of the invoice that is stored there.
pub proof fn every_listed_invoice_is_indexed(
    root: Seq<char>,
    run: Seq<WarmMoment>,
    events: Seq<EventView>,
    i: int,
    sha: String,
)
    requires
        is_run(run, events),
        warm_starts(root, run[0]),
        run.last().op matches Progress::Done(Ok(_)),
        0 <= i < events.len(),
        run[i].op matches Progress::Pending(WarmIndexView::Listing { .. }),
        events[i] matches EventView::Entry(Ok(Some(entry))) && entry.file_name == Some(sha),
    ensures
        i + 3 < run.len(),
        run[i + 3].op matches Progress::Pending(WarmIndexView::Indexing { root: _, invoice })
            && invoice.canonical_name() == sha@ && stores(
            run[i + 3].world,
            spec_invoice_toml_path(root, sha@),
            invoice,
        ),
{
    assert(steps(run[i], events[i], run[i + 1]));
    assert(run[i + 1].op is Pending);
    assert(i + 1 < events.len());
    assert(steps(run[i + 1], events[i + 1], run[i + 2]));
    if i + 2 < events.len() {
        assert(steps(run[i + 2], events[i + 2], run[i + 3]));
        if i + 3 < events.len() {
            assert(steps(run[i + 3], events[i + 3], run[i + 4]));
        }
    }
    lemma_warm_run(root, run, events, i + 3);
}

/// A store without a directory of invoices has nothing to tell the index, and that is no error.
pub proof fn an_empty_store_warms(root: Seq<char>, run: Seq<WarmMoment>, events: Seq<EventView>)
    requires
        is_run(run, events),
        all_went_well(events),
        warm_starts(root, run[0]),
        !run[0].world.nodes.contains_key(invoices_dir(root)),
        run.last().op is Done,
    ensures
        events.len() == 1,
        run.last().op == Progress::<WarmIndexView, Result<(), WarmError>>::Done(Ok(())),
{
    lemma_invoices_dir(root);
    assert(steps(run[0], events[0], run[1]));
    assert(went_well(events[0]));
    if events.len() > 1 {
        assert(steps(run[1], events[1], run[2]));
    }
}

/// The directory of all invoices.
pub open spec fn invoices_dir(root: Seq<char>) -> Seq<char> {
    spec_join(root, INVOICE_DIRECTORY@)
}

/// The path that warming lists leads to the directory of all invoices, and its entries are the
/// directories of the invoices.
pub proof fn lemma_invoices_dir(root: Seq<char>)
    ensures
        invoices_dir(root).len() > 1,
        invoices_dir(root).last() != '/',
        spec_invoice_path(root, Seq::empty()) == invoices_dir(root).push('/'),
        place(spec_invoice_path(root, Seq::empty())) == invoices_dir(root),
        forall|name: Seq<char>| #[trigger]
            spec_join(spec_invoice_path(root, Seq::empty()), name) == spec_invoice_path(
                root,
                name,
            ),
{
    reveal_strlit("invoices");
    let base = invoices_dir(root);
    lemma_join_relative(root, INVOICE_DIRECTORY@);
    let path = spec_invoice_path(root, Seq::empty());
    assert(path =~= base.push('/'));
    assert(path.drop_last() =~= base);
    assert(place(base) == base);
    reveal_with_fuel(place, 2);
}

/// The invoices that the index is told of in a run, in their order.
pub open spec fn told(run: Seq<WarmMoment>) -> Seq<InvoiceView>
    decreases run.len(),
{
    if run.len() == 0 {
        Seq::empty()
    } else {
        let earlier = told(run.drop_last());
        match run.last().op {
            Progress::Pending(WarmIndexView::Indexing { root: _, invoice }) => earlier.push(invoice),
            _ => earlier,
        }
    }
}

/// Whether one of `invoices` goes by `name`.
pub open spec fn tells_of(invoices: Seq<InvoiceView>, name: Seq<char>) -> bool {
    exists|k: int| 0 <= k < invoices.len() && (#[trigger] invoices[k]).canonical_name() == name
}

/// No two of `invoices` go by the same name.
pub open spec fn names_differ(invoices: Seq<InvoiceView>) -> bool {
    forall|k: int, l: int|
        0 <= k < l < invoices.len() ==> (#[trigger] invoices[k]).canonical_name() != (
        #[trigger] invoices[l]).canonical_name()
}

/// Each of `invoices` is an entry of the directory of invoices, stored under its own name.
pub open spec fn all_stored(root: Seq<char>, world: World, invoices: Seq<InvoiceView>) -> bool {
    forall|k: int|
        0 <= k < invoices.len() ==> names_in(world.nodes, invoices_dir(root)).contains(
            (#[trigger] invoices[k]).canonical_name(),
        ) && stores(
            world,
            spec_invoice_toml_path(root, invoices[k].canonical_name()),
            invoices[k],
        )
}

/// How far the listing has come: every name is still to come, or being looked at, or told of.
spec fn warm_tally(
    root: Seq<char>,
    first: World,
    left: Set<Seq<char>>,
    current: Option<Seq<char>>,
    done: Seq<InvoiceView>,
) -> bool {
    let names = names_in(first.nodes, invoices_dir(root));
    &&& first.nodes.contains_key(invoices_dir(root))
    &&& names_differ(done)
    &&& all_stored(root, first, done)
    &&& forall|k: int|
        0 <= k < done.len() ==> !left.contains((#[trigger] done[k]).canonical_name()) && current
            != Some(done[k].canonical_name())
    &&& forall|n: Seq<char>| #[trigger] left.contains(n) ==> names.contains(n)
    &&& current matches Some(n) ==> names.contains(n) && !left.contains(n)
    &&& forall|n: Seq<char>| #[trigger]
        names.contains(n) ==> left.contains(n) || current == Some(n) || tells_of(done, n)
}

/// What has been told at each stage.
spec fn warm_told(root: Seq<char>, first: World, m: WarmMoment, done: Seq<InvoiceView>) -> bool {
    match m.op {
        Progress::Pending(WarmIndexView::Checking { .. }) => done.len() == 0,
        Progress::Pending(WarmIndexView::Opening { .. }) => done.len() == 0,
        Progress::Pending(WarmIndexView::Listing { .. }) => warm_tally(
            root,
            first,
            m.world.listing,
            None,
            done,
        ),
        Progress::Pending(WarmIndexView::Reading { root: _, sha }) => warm_tally(
            root,
            first,
            m.world.listing,
            Some(sha@),
            done,
        ),
        Progress::Pending(WarmIndexView::Decoding { root: _, sha, text: _ }) => warm_tally(
            root,
            first,
            m.world.listing,
            Some(sha@),
            done,
        ),
        Progress::Pending(WarmIndexView::Indexing { .. }) => warm_tally(
            root,
            first,
            m.world.listing,
            None,
            done,
        ),
        Progress::Done(Ok(_)) => if first.nodes.contains_key(invoices_dir(root)) {
            warm_tally(root, first, Set::empty(), None, done)
        } else {
            done.len() == 0
        },
        Progress::Done(Err(_)) => names_differ(done) && all_stored(root, first, done),
    }
}

proof fn lemma_push_told(
    root: Seq<char>,
    first: World,
    left: Set<Seq<char>>,
    done: Seq<InvoiceView>,
    invoice: InvoiceView,
)
    requires
        warm_tally(root, first, left, Some(invoice.canonical_name()), done),
        stores(first, spec_invoice_toml_path(root, invoice.canonical_name()), invoice),
    ensures
        warm_tally(root, first, left, None, done.push(invoice)),
{
    let more = done.push(invoice);
    let names = names_in(first.nodes, invoices_dir(root));
    assert(more.last() == invoice);
    assert forall|k: int, l: int| 0 <= k < l < more.len() implies (
    #[trigger] more[k]).canonical_name() != (#[trigger] more[l]).canonical_name() by {
        assert(more[k] == done[k]);
        if l < done.len() {
            assert(more[l] == done[l]);
        }
    }
    assert forall|n: Seq<char>| #[trigger] names.contains(n) implies left.contains(n) || tells_of(
        more,
        n,
    ) by {
        if tells_of(done, n) {
            let k = choose|k: int|
                0 <= k < done.len() && (#[trigger] done[k]).canonical_name() == n;
            assert(more[k].canonical_name() == n);
        }
        if n == invoice.canonical_name() {
            assert(more[done.len() as int].canonical_name() == n);
        }
    }
}

proof fn lemma_warm_told(root: Seq<char>, run: Seq<WarmMoment>, events: Seq<EventView>, i: int)
    requires
        is_run(run, events),
        warm_starts(root, run[0]),
        0 <= i < run.len(),
    ensures
        warm_told(root, run[0].world, run[i], told(run.take(i + 1))),
    decreases i,
{
    let first = run[0].world;
    assert(run.take(i + 1).drop_last() =~= run.take(i));
    assert(run.take(i + 1).last() == run[i]);
    let done = told(run.take(i + 1));
    if i == 0 {
        assert(run.take(0).len() == 0);
    } else {
        lemma_warm_told(root, run, events, i - 1);
        lemma_warm_run(root, run, events, i - 1);
        lemma_warm_run(root, run, events, i);
        lemma_invoices_dir(root);
        let m = run[i - 1];
        let event = events[i - 1];
        assert(steps(m, event, run[i]));
        let earlier = told(run.take(i));
        let names = names_in(first.nodes, invoices_dir(root));
        assert(names_in(first.nodes, spec_invoice_path(root, Seq::empty())) =~= names);
        match m.op->Pending_0 {
            WarmIndexView::Decoding { root: _, sha, text } => {
                if let EventView::Decoded(Ok(invoice)) = event {
                    if sha@ == invoice.canonical_name() {
                        lemma_push_told(root, first, m.world.listing, earlier, invoice);
                    }
                }
            },
            _ => {},
        }
    }
}

/// Success means that the index was told of every entry of the directory of invoices, of each
/// once, and that each entry is an invoice stored under its own name. Where there is no such
/// directory, the index was told of nothing.
pub proof fn each_entry_is_told_once(root: Seq<char>, run: Seq<WarmMoment>, events: Seq<EventView>)
    requires
        is_run(run, events),
        warm_starts(root, run[0]),
        run.last().op matches Progress::Done(Ok(_)),
    ensures
        names_differ(told(run)),
        all_stored(root, run[0].world, told(run)),
        run[0].world.nodes.contains_key(invoices_dir(root)) ==> forall|n: Seq<char>| #[trigger]
            names_in(run[0].world.nodes, invoices_dir(root)).contains(n) ==> tells_of(told(run), n),
        !run[0].world.nodes.contains_key(invoices_dir(root)) ==> told(run).len() == 0,
{
    lemma_warm_told(root, run, events, run.len() - 1);
    assert(run.take(run.len() as int) =~= run);
}

/// What was told was asked for.
proof fn lemma_told_was_asked(run: Seq<WarmMoment>, k: int) -> (j: int)
    requires
        0 <= k < told(run).len(),
    ensures
        0 <= j < run.len(),
        asks_for(run[j], ActionView::Index { invoice: told(run)[k] }),
    decreases run.len(),
{
    let earlier = told(run.drop_last());
    if k < earlier.len() {
        let j = lemma_told_was_asked(run.drop_last(), k);
        assert(run.drop_last()[j] == run[j]);
        j
    } else {
        run.len() - 1
    }
}

/// Success means that the index was told of every invoice in the store.
pub proof fn every_stored_invoice_is_indexed(
    root: Seq<char>,
    run: Seq<WarmMoment>,
    events: Seq<EventView>,
    sha: Seq<char>,
    invoice: InvoiceView,
)
    requires
        is_run(run, events),
        warm_starts(root, run[0]),
        run.last().op matches Progress::Done(Ok(_)),
        is_tree(run[0].world.nodes),
        is_entry_name(sha),
        stores(run[0].world, spec_invoice_toml_path(root, sha), invoice),
    ensures
        told(run).contains(invoice),
        exists|j: int|
            0 <= j < run.len() && asks_for(#[trigger] run[j], ActionView::Index { invoice }),
{
    each_entry_is_told_once(root, run, events);
    lemma_invoices_dir(root);
    lemma_invoice_files(root, sha);
    let base = invoices_dir(root);
    let dir = spec_invoice_path(root, sha);
    let dest = spec_invoice_toml_path(root, sha);
    let nodes = run[0].world.nodes;
    assert(sha.contains(sha[0]) && sha.contains(sha.last()));
    assert(dir == base.push('/') + sha);
    assert(dest[base.len() as int] == '/') by {
        assert(dest.take(dir.len() as int)[base.len() as int] == '/');
    }
    assert(dest.take(base.len() as int) =~= base) by {
        assert(dest.take(dir.len() as int).take(base.len() as int) =~= base);
    }
    assert(on_the_way(dest, base));
    reveal_strlit("invoice.toml");
    assert(dest[dir.len() as int] == '/');
    assert(on_the_way(dest, dir));
    assert(names_in(nodes, base).contains(sha));
    let k = choose|k: int|
        0 <= k < told(run).len() && (#[trigger] told(run)[k]).canonical_name() == sha;
    assert(told(run)[k] == invoice);
    let j = lemma_told_was_asked(run, k);
    assert(asks_for(run[j], ActionView::Index { invoice }));
}

/// Every entry of the directory of invoices is an invoice that is stored under its own name.
pub open spec fn records_sound(root: Seq<char>, world: World) -> bool {
    forall|n: Seq<char>| #[trigger]
        names_in(world.nodes, invoices_dir(root)).contains(n) ==> {
            let path = spec_invoice_toml_path(root, n);
            &&& has_file(world.nodes, path)
            &&& (world.parse)(world.nodes[path]->data) matches Some(invoice)
            &&& invoice.canonical_name() == n
        }
}

proof fn lemma_warm_goes_well(root: Seq<char>, run: Seq<WarmMoment>, events: Seq<EventView>, i: int)
    requires
        is_run(run, events),
        all_went_well(events),
        warm_starts(root, run[0]),
        records_sound(root, run[0].world),
        0 <= i < run.len(),
    ensures
        !(run[i].op matches Progress::Done(Err(_))),
    decreases i,
{
    if i > 0 {
        lemma_warm_goes_well(root, run, events, i - 1);
        lemma_warm_run(root, run, events, i - 1);
        lemma_warm_told(root, run, events, i - 1);
        assert(steps(run[i - 1], events[i - 1], run[i]));
        assert(went_well(events[i - 1]));
    }
}

/// Where nothing goes wrong and every record is sound, warming succeeds.
pub proof fn warm_index_outcome(root: Seq<char>, run: Seq<WarmMoment>, events: Seq<EventView>)
    requires
        is_run(run, events),
        all_went_well(events),
        warm_starts(root, run[0]),
        records_sound(root, run[0].world),
        run.last().op is Done,
    ensures
        run.last().op matches Progress::Done(Ok(_)),
{
    lemma_warm_goes_well(root, run, events, run.len() - 1);
}

/// How many steps are left at most, where the directory of invoices has `count` entries.
spec fn warm_rank(op: WarmIndexView, left: Set<Seq<char>>, count: nat) -> nat {
    match op {
        WarmIndexView::Checking { .. } => 4 * count + 3,
        WarmIndexView::Opening { .. } => 4 * count + 2,
        WarmIndexView::Listing { .. } => 4 * left.len() + 1,
        WarmIndexView::Reading { .. } => 4 * left.len() + 4,
        WarmIndexView::Decoding { .. } => 4 * left.len() + 3,
        WarmIndexView::Indexing { .. } => 4 * left.len() + 2,
    }
}

proof fn lemma_warm_rank(root: Seq<char>, run: Seq<WarmMoment>, events: Seq<EventView>, i: int)
    requires
        is_run(run, events),
        warm_starts(root, run[0]),
        names_in(run[0].world.nodes, invoices_dir(root)).finite(),
        0 <= i < run.len(),
    ensures
        ({
            let count = names_in(run[0].world.nodes, invoices_dir(root)).len();
            match run[i].op {
                Progress::Pending(op) => {
                    &&& op is Checking || op is Opening || run[i].world.listing.finite()
                    &&& warm_rank(op, run[i].world.listing, count) + i <= 4 * count + 3
                },
                Progress::Done(_) => i <= 4 * count + 3,
            }
        }),
    decreases i,
{
    if i > 0 {
        lemma_warm_rank(root, run, events, i - 1);
        lemma_warm_run(root, run, events, i - 1);
        lemma_invoices_dir(root);
        assert(steps(run[i - 1], events[i - 1], run[i]));
        let nodes = run[0].world.nodes;
        assert(names_in(nodes, spec_invoice_path(root, Seq::empty())) =~= names_in(
            nodes,
            invoices_dir(root),
        ));
    }
}

/// The warming of the index ends, as the directory of invoices does: four answers for each of its
/// entries and three more are enough.
pub proof fn warm_index_ends(root: Seq<char>, run: Seq<WarmMoment>, events: Seq<EventView>)
    requires
        is_run(run, events),
        warm_starts(root, run[0]),
        names_in(run[0].world.nodes, invoices_dir(root)).finite(),
    ensures
        ({
            let most = 4 * names_in(run[0].world.nodes, invoices_dir(root)).len() + 3;
            &&& events.len() <= most
            &&& events.len() == most ==> run.last().op is Done
        }),
{
    lemma_warm_rank(root, run, events, run.len() - 1);
}

/// The names of the first `n` of `shas` are no longer to come.
spec fn without_first(names: Set<Seq<char>>, shas: Seq<String>, n: int) -> Set<Seq<char>>
    decreases n,
{
    if n <= 0 {
        names
    } else {
        without_first(names, shas, n - 1).remove(shas[n - 1]@)
    }
}

proof fn lemma_without_first(names: Set<Seq<char>>, shas: Seq<String>, n: int, name: Seq<char>)
    requires
        0 <= n <= shas.len(),
    ensures
        without_first(names, shas, n).contains(name) <==> names.contains(name) && forall|k: int|
            0 <= k < n ==> (#[trigger] shas[k])@ != name,
    decreases n,
{
    if n > 0 {
        lemma_without_first(names, shas, n - 1, name);
    }
}

/// The entries `shas` of the directory of invoices, each once, and `texts`, what the documents of
/// the invoices read as.
pub open spec fn lists(
    root: Seq<char>,
    world: World,
    shas: Seq<String>,
    texts: Seq<Seq<char>>,
) -> bool {
    &&& texts.len() == shas.len()
    &&& forall|k: int, l: int|
        0 <= k < l < shas.len() ==> (#[trigger] shas[k])@ != (#[trigger] shas[l])@
    &&& forall|n: Seq<char>| #[trigger]
        names_in(world.nodes, invoices_dir(root)).contains(n) ==> exists|k: int|
            0 <= k < shas.len() && (#[trigger] shas[k])@ == n
    &&& forall|k: int|
        0 <= k < shas.len() ==> names_in(world.nodes, invoices_dir(root)).contains(
            (#[trigger] shas[k])@,
        ) && has_data(
            world.nodes,
            spec_invoice_toml_path(root, shas[k]@),
            encode_utf8(texts[k]),
        )
}

proof fn lemma_warm_entries(
    root: Seq<char>,
    world: World,
    cache: Entries,
    shas: Seq<String>,
    texts: Seq<Seq<char>>,
    n: int,
) -> (end: (Seq<WarmMoment>, Seq<EventView>))
    requires
        has_dir(world.nodes, invoices_dir(root)),
        records_sound(root, world),
        lists(root, world, shas, texts),
        0 <= n <= shas.len(),
    ensures
        is_run(end.0, end.1),
        all_went_well(end.1),
        warm_starts(root, end.0[0]),
        end.0[0].world == world,
        end.0.last().op == Progress::<WarmIndexView, Result<(), WarmError>>::Pending(
            WarmIndexView::Listing { root },
        ),
        end.0.last().world == (World {
            listing: without_first(names_in(world.nodes, invoices_dir(root)), shas, n),
            ..world
        }),
    decreases n,
{
    let names = names_in(world.nodes, invoices_dir(root));
    if n == 0 {
        let start = seq![
            Moment { op: Progress::Pending(WarmIndexView::Checking { root }), world, cache },
        ];
        let none: Seq<EventView> = seq![];
        lemma_invoices_dir(root);
        let path = spec_invoice_path(root, Seq::empty());
        let opened = World { listing: names, ..world };
        assert(names_in(world.nodes, path) =~= names);
        let (r, e) = lemma_extend::<WarmIndexView>(
            start,
            none,
            EventView::Stated(Ok(FileKind::Dir)),
            world,
        );
        lemma_extend::<WarmIndexView>(r, e, EventView::Finished(Ok(())), opened)
    } else {
        let (r, e) = lemma_warm_entries(root, world, cache, shas, texts, n - 1);
        let sha = shas[n - 1];
        let text = texts[n - 1];
        lemma_without_first(names, shas, n - 1, sha@);
        let left = World { listing: without_first(names, shas, n), ..world };
        let entry = DirEntry { file_name: Some(sha) };
        let (r, e) = lemma_extend::<WarmIndexView>(r, e, EventView::Entry(Ok(Some(entry))), left);
        let (r, e) = lemma_extend::<WarmIndexView>(r, e, EventView::Text(Ok(text)), left);
        assert(names.contains(sha@));
        let invoice = (world.parse)(encode_utf8(text))->0;
        let (r, e) = lemma_extend::<WarmIndexView>(r, e, EventView::Decoded(Ok(invoice)), left);
        lemma_extend::<WarmIndexView>(r, e, EventView::Indexed, left)
    }
}

/// Where every record is sound and reads as text, the index can be warmed: there is a run in
/// which nothing goes wrong and that ends well.
pub proof fn warm_index_can_succeed(
    root: Seq<char>,
    world: World,
    cache: Entries,
    shas: Seq<String>,
    texts: Seq<Seq<char>>,
) -> (end: (Seq<WarmMoment>, Seq<EventView>))
    requires
        has_dir(world.nodes, invoices_dir(root)),
        records_sound(root, world),
        lists(root, world, shas, texts),
    ensures
        is_run(end.0, end.1),
        all_went_well(end.1),
        warm_starts(root, end.0[0]),
        end.0[0].world == world,
        end.0.last().op matches Progress::Done(Ok(_)),
{
    let names = names_in(world.nodes, invoices_dir(root));
    let (r, e) = lemma_warm_entries(root, world, cache, shas, texts, shas.len() as int);
    let left = r.last().world;
    assert forall|n: Seq<char>| !(#[trigger] left.listing.contains(n)) by {
        lemma_without_first(names, shas, shas.len() as int, n);
    }
    assert(left.listing =~= Set::<Seq<char>>::empty());
    lemma_extend::<WarmIndexView>(r, e, EventView::Entry(Ok(None)), left)
}

/// A call that fails ends the warming right there with that very failure, except that there may be
/// no directory of invoices. A record that cannot be parsed ends it for the reason given, and so
/// does one whose invoice goes by another name than its entry, with both names.
pub proof fn warm_index_failure_ends_it(
    root: Seq<char>,
    run: Seq<WarmMoment>,
    events: Seq<EventView>,
    i: int,
)
    requires
        is_run(run, events),
        warm_starts(root, run[0]),
        0 <= i < events.len(),
    ensures
        events[i] matches EventView::Stated(Err(e)) ==> i == events.len() - 1 && run[i + 1].op
            == Progress::<WarmIndexView, Result<(), WarmError>>::Done(
            if e.kind is NotFound {
                Ok(())
            } else {
                Err(WarmError::Io(e))
            },
        ),
        events[i] matches EventView::Finished(Err(e)) ==> i == events.len() - 1 && run[i + 1].op
            == Progress::<WarmIndexView, Result<(), WarmError>>::Done(Err(WarmError::Io(e))),
        events[i] matches EventView::Entry(Err(e)) ==> i == events.len() - 1 && run[i + 1].op
            == Progress::<WarmIndexView, Result<(), WarmError>>::Done(Err(WarmError::Io(e))),
        events[i] matches EventView::Text(Err(e)) ==> i == events.len() - 1 && run[i + 1].op
            == Progress::<WarmIndexView, Result<(), WarmError>>::Done(Err(WarmError::Io(e))),
        events[i] matches EventView::Decoded(Err(m)) ==> i == events.len() - 1 && run[i + 1].op
            == Progress::<WarmIndexView, Result<(), WarmError>>::Done(Err(WarmError::Malformed(m))),
        events[i] matches EventView::Entry(Ok(None)) ==> i == events.len() - 1 && run[i + 1].op
            == Progress::<WarmIndexView, Result<(), WarmError>>::Done(Ok(())),
        events[i] is Indexed ==> asks_for(run[i + 1], ActionView::NextEntry),
        (events[i] matches EventView::Finished(Ok(_))) ==> asks_for(
            run[i + 1],
            ActionView::NextEntry,
        ),
{
    assert(steps(run[i], events[i], run[i + 1]));
    if i + 1 < events.len() {
        assert(steps(run[i + 1], events[i + 1], run[i + 2]));
    }
}

/// For every entry the file of the invoice of that name is read and parsed. If the invoice goes by
/// the entry's name, the index is told of just this invoice. If it goes by another, the warming
/// ends with both names.
pub proof fn each_entry_is_read_and_told(
    root: Seq<char>,
    run: Seq<WarmMoment>,
    events: Seq<EventView>,
    i: int,
    sha: String,
)
    requires
        is_run(run, events),
        warm_starts(root, run[0]),
        0 <= i < events.len(),
        events[i] matches EventView::Entry(Ok(Some(entry))) && entry.file_name == Some(sha),
    ensures
        asks_for(run[i + 1], ActionView::ReadText { path: spec_invoice_toml_path(root, sha@) }),
        i + 1 < events.len() ==> (events[i + 1] matches EventView::Text(Ok(text)) ==> asks_for(
            run[i + 2],
            ActionView::Decode { text },
        )),
        i + 2 < events.len() ==> (events[i + 2] matches EventView::Decoded(Ok(invoice)) ==> if sha@
            == invoice.bindle.id.sha@ {
            asks_for(run[i + 3], ActionView::Index { invoice })
        } else {
            &&& i + 3 == events.len()
            &&& run[i + 3].op == Progress::<WarmIndexView, Result<(), WarmError>>::Done(
                Err(WarmError::DigestMismatch { sha, digest: invoice.bindle.id.sha }),
            )
        }),
{
    lemma_warm_run(root, run, events, i);
    assert(steps(run[i], events[i], run[i + 1]));
    if i + 1 < events.len() {
        assert(steps(run[i + 1], events[i + 1], run[i + 2]));
        if i + 2 < events.len() {
            assert(steps(run[i + 2], events[i + 2], run[i + 3]));
            if i + 3 < events.len() {
                assert(steps(run[i + 3], events[i + 3], run[i + 4]));
            }
        }
    }
}

/// An error has its reason, and the last answer shows it.
pub proof fn warm_index_error_tells_why(root: Seq<char>, run: Seq<WarmMoment>, events: Seq<EventView>)
    requires
        is_run(run, events),
        warm_starts(root, run[0]),
        run.last().op is Done,
    ensures
        events.len() > 0,
        match run.last().op->Done_0 {
            Ok(_) => (events.last() matches EventView::Entry(Ok(None))) || (events.len() == 1 && (
            events[0] matches EventView::Stated(Err(e)) && e.kind is NotFound)),
            Err(WarmError::Io(e)) => events.last() == EventView::Stated(Err(e)) || events.last()
                == EventView::Finished(Err(e)) || events.last() == EventView::Entry(Err(e))
                || events.last() == EventView::Text(Err(e)),
            Err(WarmError::Malformed(m)) => events.last() == EventView::Decoded(Err(m)),
            Err(WarmError::DigestMismatch { sha, digest }) => {
                &&& events.last() matches EventView::Decoded(Ok(invoice))
                &&& digest == invoice.bindle.id.sha
                &&& sha@ != digest@
            },
        },
{
    let last = events.len() - 1;
    assert(events.len() > 0);
    assert(steps(run[last], events[last], run[last + 1]));
    if last > 0 {
        assert(steps(run[last - 1], events[last - 1], run[last]));
    }
}

/// An entry without a name is passed over.
pub proof fn entry_without_a_name_is_passed_over(root: Seq<char>, entry: DirEntry)
    requires
        entry.file_name is None,
    ensures
        (WarmIndexView::Listing { root }).next(EventView::Entry(Ok(Some(entry)))) == Progress::<
            WarmIndexView,
            Result<(), WarmError>,
        >::Pending(WarmIndexView::Listing { root }),
{
}

/// Warming starts with a look at the directory of all invoices, and lists that directory.
pub proof fn warming_lists_the_directory_of_invoices(
    root: Seq<char>,
    run: Seq<WarmMoment>,
    events: Seq<EventView>,
)
    requires
        is_run(run, events),
        warm_starts(root, run[0]),
    ensures
        asks_for(run[0], ActionView::Stat { path: invoices_dir(root).push('/') }),
        events.len() > 0 && (events[0] matches EventView::Stated(Ok(_))) ==> asks_for(
            run[1],
            ActionView::ReadDir { path: invoices_dir(root).push('/') },
        ),
        invoices_dir(root) == spec_join(root, "invoices"@),
{
    lemma_invoices_dir(root);
    if events.len() > 0 {
        assert(steps(run[0], events[0], run[1]));
    }
}

/// Warming the index leaves the cache alone.
pub proof fn warm_index_leaves_the_cache(run: Seq<WarmMoment>, events: Seq<EventView>, i: int)
    requires
        is_run(run, events),
        0 <= i < run.len(),
    ensures
        run[i].cache == run[0].cache,
    decreases i,
{
    if i > 0 {
        warm_index_leaves_the_cache(run, events, i - 1);
        assert(steps(run[i - 1], events[i - 1], run[i]));
    }
}

} // verus!
