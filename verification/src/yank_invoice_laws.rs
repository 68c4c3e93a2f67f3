//! What holds of every yanking of an invoice, and of reading the invoice afterwards.

use crate::cache::{holds, in_order, lemma_with_entry, lemma_without, lookup, with_entry, without, Entries, CACHE_SIZE};
use crate::create_invoice_laws::stores;
use crate::effect::{ActionView, EventView, Operation, Progress};
use crate::error::ProviderError;
use crate::fetch_invoice::{spec_start_fetch, FetchInvoiceView, FetchResultView};
use crate::invoice::{Id, InvoiceView};
use crate::layout::spec_invoice_toml_path;
use crate::meaning_laws::{only_a_missing_file_is_not_found, yanking_only_sets_the_mark};
use crate::reading_laws::fetch_outcome;
use crate::world::{all_went_well, asks_for, has_data, has_dir, has_file, is_run, lemma_extend, same_at, steps, tells_index, went_well, Moment, Node, World};
use crate::yank_invoice::{spec_start_yank, YankInvoiceView};
use vstd::prelude::*;
use vstd::utf8::encode_utf8;

verus! {

/// A moment in the yanking of an invoice.
pub type YankMoment = Moment<YankInvoiceView, Result<(), ProviderError>>;

/// The invoice known for `id`: the one in the cache, or else the one that the document under the
/// bindle's digest stands for.
pub open spec fn known_invoice(root: Seq<char>, world: World, cache: Entries, id: Id) -> Option<
    InvoiceView,
> {
    let path = spec_invoice_toml_path(root, id.sha@);
    match lookup(cache, id.name@) {
        Some(invoice) => Some(invoice),
        None => if has_file(world.nodes, path) {
            (world.parse)(world.nodes[path]->data)
        } else {
            None
        },
    }
}

/// What is true whenever an invoice is being yanked.
spec fn yank_inv(root: Seq<char>, id: Id, first: World, cache: Entries, m: YankMoment) -> bool {
    let known = known_invoice(root, first, cache, id);
    &&& m.world.parse == first.parse
    &&& m.world.print == first.print
    &&& in_order(m.cache)
    &&& match m.op {
        Progress::Pending(YankInvoiceView::Fetching { root: r, id: i, fetch }) => {
            &&& r == root
            &&& i == id
            &&& m.world.nodes == first.nodes
            &&& m.cache == cache
            &&& lookup(cache, id.name@) is None
            &&& match fetch {
                FetchInvoiceView::Reading { root: r2, id: i2 } => r2 == root && i2 == id,
                FetchInvoiceView::Decoding { id: i2, text } => i2 == id && has_data(
                    first.nodes,
                    spec_invoice_toml_path(root, id.sha@),
                    encode_utf8(text),
                ),
            }
        },
        Progress::Pending(YankInvoiceView::Indexing { root: r, id: i, invoice }) => {
            &&& r == root
            &&& i == id
            &&& m.world.nodes == first.nodes
            &&& known is Some && invoice == known->0.yank()
        },
        Progress::Pending(YankInvoiceView::Encoding { root: r, id: i, invoice }) => {
            &&& r == root
            &&& i == id
            &&& m.world.nodes == first.nodes
            &&& known is Some && invoice == known->0.yank()
        },
        Progress::Pending(YankInvoiceView::Writing { root: r, id: i, invoice, data }) => {
            &&& r == root
            &&& i == id
            &&& m.world.nodes == first.nodes
            &&& known is Some && invoice == known->0.yank()
            &&& data == (first.print)(invoice)
            &&& (first.parse)(data) == Some(invoice)
        },
        Progress::Done(Ok(_)) => {
            &&& known is Some
            &&& stores(
                m.world,
                spec_invoice_toml_path(root, known->0.canonical_name()),
                known->0.yank(),
            )
            &&& has_data(
                m.world.nodes,
                spec_invoice_toml_path(root, known->0.canonical_name()),
                (first.print)(known->0.yank()),
            )
            &&& lookup(m.cache, id.name@) is None
        },
        Progress::Done(Err(_)) => known is None ==> m.cache == cache,
    }
    &&& forall|p: Seq<char>|
        known is None || p != spec_invoice_toml_path(root, known->0.canonical_name())
            ==> #[trigger] same_at(first.nodes, m.world.nodes, p)
    &&& forall|other: Seq<char>|
        other != id.name@ ==> #[trigger] lookup(m.cache, other) == lookup(cache, other) || lookup(
            m.cache,
            other,
        ) is None
}

proof fn lemma_yank_step(
    root: Seq<char>,
    id: Id,
    first: World,
    cache: Entries,
    m: YankMoment,
    event: EventView,
    m2: YankMoment,
)
    requires
        yank_inv(root, id, first, cache, m),
        steps(m, event, m2),
    ensures
        yank_inv(root, id, first, cache, m2),
{
    match m.op->Pending_0 {
        YankInvoiceView::Fetching { root: r, id: i, fetch } => {
            if let FetchInvoiceView::Decoding { id: i2, text } = fetch {
                if let EventView::Decoded(Ok(invoice)) = event {
                    lemma_with_entry(m.cache, CACHE_SIZE as nat, id.name@, invoice);
                }
            }
        },
        YankInvoiceView::Writing { root: r, id: i, invoice, data } => {
            lemma_without(m.cache, id.name@);
        },
        _ => {},
    }
}

proof fn lemma_yank_run(
    root: Seq<char>,
    id: Id,
    run: Seq<YankMoment>,
    events: Seq<EventView>,
    i: int,
)
    requires
        is_run(run, events),
        in_order(run[0].cache),
        run[0].op == spec_start_yank(root, run[0].cache, id),
        0 <= i < run.len(),
    ensures
        yank_inv(root, id, run[0].world, run[0].cache, run[i]),
    decreases i,
{
    if i > 0 {
        lemma_yank_run(root, id, run, events, i - 1);
        assert(steps(run[i - 1], events[i - 1], run[i]));
        lemma_yank_step(
            root,
            id,
            run[0].world,
            run[0].cache,
            run[i - 1],
            events[i - 1],
            run[i],
        );
    }
}

/// Yanking an invoice touches no file but the invoice's own, and changes no other invoice in the
/// cache, though room may be made there.
pub proof fn yank_touches_only_its_invoice(
    root: Seq<char>,
    id: Id,
    run: Seq<YankMoment>,
    events: Seq<EventView>,
    i: int,
)
    requires
        is_run(run, events),
        in_order(run[0].cache),
        run[0].op == spec_start_yank(root, run[0].cache, id),
        0 <= i < run.len(),
    ensures
        ({
            let known = known_invoice(root, run[0].world, run[0].cache, id);
            &&& in_order(run[i].cache)
            &&& forall|p: Seq<char>|
                known is None || p != spec_invoice_toml_path(root, known->0.canonical_name())
                    ==> #[trigger] same_at(run[0].world.nodes, run[i].world.nodes, p)
            &&& forall|other: Seq<char>|
                other != id.name@ ==> #[trigger] lookup(run[i].cache, other) == lookup(
                    run[0].cache,
                    other,
                ) || lookup(run[i].cache, other) is None
        }),
{
    lemma_yank_run(root, id, run, events, i);
}

/// Where no invoice is known for `id`, yanking it changes neither the file system nor the cache.
pub proof fn yank_of_the_unknown_changes_nothing(
    root: Seq<char>,
    id: Id,
    run: Seq<YankMoment>,
    events: Seq<EventView>,
    i: int,
)
    requires
        is_run(run, events),
        in_order(run[0].cache),
        run[0].op == spec_start_yank(root, run[0].cache, id),
        known_invoice(root, run[0].world, run[0].cache, id) is None,
        0 <= i < run.len(),
    ensures
        forall|p: Seq<char>| #[trigger] same_at(run[0].world.nodes, run[i].world.nodes, p),
        run[i].cache == run[0].cache,
{
    lemma_yank_run(root, id, run, events, i);
}

/// Success means that the invoice known for `id` is stored under its name, marked as yanked and
/// otherwise the same, as the document that the format writes for it, and that it is no longer in
/// the cache.
pub proof fn yank_marks_the_invoice(
    root: Seq<char>,
    id: Id,
    run: Seq<YankMoment>,
    events: Seq<EventView>,
)
    requires
        is_run(run, events),
        in_order(run[0].cache),
        run[0].op == spec_start_yank(root, run[0].cache, id),
        run.last().op matches Progress::Done(Ok(_)),
    ensures
        ({
            let known = known_invoice(root, run[0].world, run[0].cache, id);
            &&& known is Some
            &&& stores(
                run.last().world,
                spec_invoice_toml_path(root, known->0.canonical_name()),
                known->0.yank(),
            )
            &&& has_data(
                run.last().world.nodes,
                spec_invoice_toml_path(root, known->0.canonical_name()),
                (run[0].world.print)(known->0.yank()),
            )
            &&& lookup(run.last().cache, id.name@) is None
        }),
{
    lemma_yank_run(root, id, run, events, run.len() - 1);
}

/// What has been found out, where nothing went wrong.
spec fn yank_findings(root: Seq<char>, id: Id, first: World, cache: Entries, m: YankMoment) -> bool {
    let path = spec_invoice_toml_path(root, id.sha@);
    match m.op {
        Progress::Pending(_) => true,
        Progress::Done(Ok(_)) => known_invoice(root, first, cache, id) is Some,
        Progress::Done(Err(e)) => {
            &&& known_invoice(root, first, cache, id) is None
            &&& if first.nodes.contains_key(path) {
                e is Malformed
            } else {
                e is NotFound
            }
        },
    }
}

proof fn lemma_yank_findings_run(
    root: Seq<char>,
    id: Id,
    run: Seq<YankMoment>,
    events: Seq<EventView>,
    i: int,
)
    requires
        is_run(run, events),
        all_went_well(events),
        in_order(run[0].cache),
        run[0].op == spec_start_yank(root, run[0].cache, id),
        0 <= i < run.len(),
    ensures
        yank_findings(root, id, run[0].world, run[0].cache, run[i]),
    decreases i,
{
    if i > 0 {
        lemma_yank_findings_run(root, id, run, events, i - 1);
        lemma_yank_run(root, id, run, events, i - 1);
        assert(steps(run[i - 1], events[i - 1], run[i]));
        assert(went_well(events[i - 1]));
    }
}

/// Where nothing goes wrong, yanking succeeds exactly if an invoice is known for `id`. Otherwise
/// the result is `NotFound` where there is no document, and `Malformed` where it stands for
/// nothing.
pub proof fn yank_outcome(root: Seq<char>, id: Id, run: Seq<YankMoment>, events: Seq<EventView>)
    requires
        is_run(run, events),
        all_went_well(events),
        in_order(run[0].cache),
        run[0].op == spec_start_yank(root, run[0].cache, id),
        run.last().op is Done,
    ensures
        match run.last().op->Done_0 {
            Ok(_) => known_invoice(root, run[0].world, run[0].cache, id) is Some,
            Err(e) => {
                &&& known_invoice(root, run[0].world, run[0].cache, id) is None
                &&& if run[0].world.nodes.contains_key(spec_invoice_toml_path(root, id.sha@)) {
                    e is Malformed
                } else {
                    e is NotFound
                }
            },
        },
{
    lemma_yank_findings_run(root, id, run, events, run.len() - 1);
}

/// An invoice that was yanked is read as yanked, and otherwise as it was. That the invoice is
/// for the bindle it was asked for under is part of the matter: it is stored under the digest of
/// its own bindle.
pub proof fn yanked_invoice_is_read_as_yanked(
    root: Seq<char>,
    id: Id,
    run: Seq<YankMoment>,
    events: Seq<EventView>,
    read: Seq<Moment<FetchInvoiceView, FetchResultView>>,
    read_events: Seq<EventView>,
)
    requires
        is_run(run, events),
        in_order(run[0].cache),
        run[0].op == spec_start_yank(root, run[0].cache, id),
        run.last().op matches Progress::Done(Ok(_)),
        known_invoice(root, run[0].world, run[0].cache, id)->0.canonical_name() == id.sha@,
        is_run(read, read_events),
        all_went_well(read_events),
        read[0].world.nodes == run.last().world.nodes,
        read[0].world.parse == run.last().world.parse,
        read[0].cache == run.last().cache,
        read[0].op == spec_start_fetch(root, read[0].cache, id),
        read.last().op is Done,
    ensures
        ({
            let known = known_invoice(root, run[0].world, run[0].cache, id)->0;
            &&& read.last().op == Progress::<FetchInvoiceView, FetchResultView>::Done(
                Ok(known.yank()),
            )
            &&& known.yank().is_yanked()
        }),
{
    yank_marks_the_invoice(root, id, run, events);
    fetch_outcome(root, id, read, read_events);
}

/// How many steps are left at most.
spec fn yank_rank(op: YankInvoiceView) -> int {
    match op {
        YankInvoiceView::Fetching { fetch: FetchInvoiceView::Reading { .. }, .. } => 5,
        YankInvoiceView::Fetching { fetch: FetchInvoiceView::Decoding { .. }, .. } => 4,
        YankInvoiceView::Indexing { .. } => 3,
        YankInvoiceView::Encoding { .. } => 2,
        YankInvoiceView::Writing { .. } => 1,
    }
}

proof fn lemma_yank_rank(run: Seq<YankMoment>, events: Seq<EventView>, i: int)
    requires
        is_run(run, events),
        0 <= i < run.len(),
    ensures
        i <= 5,
        run[i].op matches Progress::Pending(op) ==> yank_rank(op) <= 5 - i,
    decreases i,
{
    if i > 0 {
        lemma_yank_rank(run, events, i - 1);
        assert(steps(run[i - 1], events[i - 1], run[i]));
        let op = run[i - 1].op->Pending_0;
        assert(yank_rank(op) > 0);
        assert(run[i].op matches Progress::Pending(op2) ==> yank_rank(op2) < yank_rank(op));
    }
}

/// The yanking of an invoice ends, after no more than five answers.
pub proof fn yank_ends(root: Seq<char>, id: Id, run: Seq<YankMoment>, events: Seq<EventView>)
    requires
        is_run(run, events),
        run[0].op == spec_start_yank(root, run[0].cache, id),
    ensures
        events.len() <= 5,
        events.len() == 5 ==> run.last().op is Done,
{
    lemma_yank_rank(run, events, run.len() - 1);
}

proof fn lemma_yank_was_told(
    root: Seq<char>,
    id: Id,
    run: Seq<YankMoment>,
    events: Seq<EventView>,
    i: int,
) -> (j: int)
    requires
        is_run(run, events),
        run[0].op == spec_start_yank(root, run[0].cache, id),
        0 <= i < run.len(),
        match run[i].op {
            Progress::Done(result) => result is Ok,
            Progress::Pending(op) => op is Encoding || op is Writing,
        },
    ensures
        0 <= j < i,
        run[j].op matches Progress::Pending(op) && op is Indexing,
    decreases i,
{
    assert(steps(run[i - 1], events[i - 1], run[i]));
    let op = run[i - 1].op->Pending_0;
    if op is Indexing {
        i - 1
    } else {
        lemma_yank_was_told(root, id, run, events, i - 1)
    }
}

proof fn lemma_told_once(run: Seq<YankMoment>, events: Seq<EventView>, i: int, j: int)
    requires
        is_run(run, events),
        0 <= i < j < run.len(),
        tells_index(run[i]),
    ensures
        run[j].op matches Progress::Pending(op) ==> yank_rank(op) < 3,
        !tells_index(run[j]),
    decreases j,
{
    assert(steps(run[j - 1], events[j - 1], run[j]));
    if i < j - 1 {
        lemma_told_once(run, events, i, j - 1);
    }
}

/// In the yanking of an invoice the search index is told at most once.
pub proof fn yank_tells_index_at_most_once(
    run: Seq<YankMoment>,
    events: Seq<EventView>,
    i: int,
    j: int,
)
    requires
        is_run(run, events),
        0 <= i < run.len(),
        0 <= j < run.len(),
        tells_index(run[i]),
        tells_index(run[j]),
    ensures
        i == j,
{
    if i < j {
        lemma_told_once(run, events, i, j);
    } else if j < i {
        lemma_told_once(run, events, j, i);
    }
}

/// Success means that the search index was told of the yanked invoice, exactly once.
pub proof fn yanked_invoice_is_indexed(
    root: Seq<char>,
    id: Id,
    run: Seq<YankMoment>,
    events: Seq<EventView>,
) -> (j: int)
    requires
        is_run(run, events),
        in_order(run[0].cache),
        run[0].op == spec_start_yank(root, run[0].cache, id),
        run.last().op matches Progress::Done(Ok(_)),
    ensures
        0 <= j < events.len(),
        asks_for(
            run[j],
            ActionView::Index {
                invoice: known_invoice(root, run[0].world, run[0].cache, id)->0.yank(),
            },
        ),
        forall|k: int| 0 <= k < run.len() && tells_index(#[trigger] run[k]) ==> k == j,
{
    let j = lemma_yank_was_told(root, id, run, events, run.len() - 1);
    lemma_yank_run(root, id, run, events, j);
    assert(tells_index(run[j]));
    assert forall|k: int| 0 <= k < run.len() && tells_index(#[trigger] run[k]) implies k == j by {
        yank_tells_index_at_most_once(run, events, k, j);
    }
    j
}

/// Where an invoice is known and no directory is in the place of its file, it can be yanked:
/// there is a run in which nothing goes wrong and that ends well. `text` is what the stored
/// document reads as, where the cache does not have the invoice.
pub proof fn yank_can_succeed(
    root: Seq<char>,
    id: Id,
    world: World,
    cache: Entries,
    text: Seq<char>,
) -> (end: (Seq<YankMoment>, Seq<EventView>))
    requires
        known_invoice(root, world, cache, id) is Some,
        lookup(cache, id.name@) is None ==> has_data(
            world.nodes,
            spec_invoice_toml_path(root, id.sha@),
            encode_utf8(text),
        ),
        ({
            let yanked = known_invoice(root, world, cache, id)->0.yank();
            &&& (world.parse)((world.print)(yanked)) == Some(yanked)
            &&& !has_dir(world.nodes, spec_invoice_toml_path(root, yanked.canonical_name()))
        }),
    ensures
        is_run(end.0, end.1),
        all_went_well(end.1),
        end.0[0].op == spec_start_yank(root, cache, id),
        end.0[0].world == world,
        end.0[0].cache == cache,
        end.0.last().op matches Progress::Done(Ok(_)),
{
    let known = known_invoice(root, world, cache, id)->0;
    let data = (world.print)(known.yank());
    let start = seq![Moment { op: spec_start_yank(root, cache, id), world, cache }];
    let none: Seq<EventView> = seq![];
    let (r, e) = if lookup(cache, id.name@) is None {
        let (r, e) = lemma_extend::<YankInvoiceView>(start, none, EventView::Text(Ok(text)), world);
        lemma_extend::<YankInvoiceView>(r, e, EventView::Decoded(Ok(known)), world)
    } else {
        (start, none)
    };
    let (r, e) = lemma_extend::<YankInvoiceView>(r, e, EventView::Indexed, world);
    let (r, e) = lemma_extend::<YankInvoiceView>(r, e, EventView::Encoded(Ok(data)), world);
    let path = spec_invoice_toml_path(root, known.canonical_name());
    let written = World { nodes: world.nodes.insert(path, Node::File { data }), ..world };
    lemma_extend::<YankInvoiceView>(r, e, EventView::Finished(Ok(())), written)
}

/// A yank reads the invoice that is asked for, tells the index of it, writes it out and stores it,
/// in this order. A call that fails ends it right there with that very failure, except that a
/// missing file is `NotFound`. What cannot be parsed is `Malformed`, and what cannot be written
/// out `Unserializable`, for the reason given.
pub proof fn yank_failure_ends_it(
    root: Seq<char>,
    id: Id,
    run: Seq<YankMoment>,
    events: Seq<EventView>,
    i: int,
)
    requires
        is_run(run, events),
        in_order(run[0].cache),
        run[0].op == spec_start_yank(root, run[0].cache, id),
        0 <= i < events.len(),
    ensures
        events[i] matches EventView::Text(Err(e)) ==> i == events.len() - 1 && (if e.kind is NotFound {
            run[i + 1].op == Progress::<YankInvoiceView, Result<(), ProviderError>>::Done(
                Err(ProviderError::NotFound),
            )
        } else {
            run[i + 1].op == Progress::<YankInvoiceView, Result<(), ProviderError>>::Done(
                Err(ProviderError::Io(e)),
            )
        }),
        events[i] matches EventView::Decoded(Err(m)) ==> i == events.len() - 1 && run[i + 1].op
            == Progress::<YankInvoiceView, Result<(), ProviderError>>::Done(
            Err(ProviderError::Malformed(m)),
        ),
        events[i] matches EventView::Encoded(Err(m)) ==> i == events.len() - 1 && run[i + 1].op
            == Progress::<YankInvoiceView, Result<(), ProviderError>>::Done(
            Err(ProviderError::Unserializable(m)),
        ),
        events[i] matches EventView::Finished(Err(e)) ==> i == events.len() - 1 && run[i + 1].op
            == Progress::<YankInvoiceView, Result<(), ProviderError>>::Done(
            Err(ProviderError::Io(e)),
        ),
        events[i] matches EventView::Finished(Ok(_)) ==> i == events.len() - 1 && run[i + 1].op
            == Progress::<YankInvoiceView, Result<(), ProviderError>>::Done(Ok(())),
        (events[i] matches EventView::Text(Ok(_))) || (events[i] matches EventView::Decoded(Ok(_)))
            || events[i] is Indexed || (events[i] matches EventView::Encoded(Ok(_))) ==> run[i
            + 1].op is Pending,
{
    lemma_yank_run(root, id, run, events, i);
    assert(steps(run[i], events[i], run[i + 1]));
    if let EventView::Text(Err(e)) = events[i] {
        only_a_missing_file_is_not_found(e);
    }
    if i + 1 < events.len() {
        assert(steps(run[i + 1], events[i + 1], run[i + 2]));
    }
}

/// The cache before a yank is over is what it was, or what it was with the invoice that was read
/// added. Success takes the entry of the bindle out, and a failure leaves it.
pub proof fn yank_leaves_the_cache_until_it_succeeds(
    root: Seq<char>,
    id: Id,
    run: Seq<YankMoment>,
    events: Seq<EventView>,
    i: int,
)
    requires
        is_run(run, events),
        in_order(run[0].cache),
        run[0].op == spec_start_yank(root, run[0].cache, id),
        0 <= i < run.len(),
    ensures
        ({
            let known = known_invoice(root, run[0].world, run[0].cache, id);
            let read = with_entry(run[0].cache, 50, id.name@, known->0);
            if run[i].op matches Progress::Done(Ok(_)) {
                run[i].cache == without(run[0].cache, id.name@) || run[i].cache == without(
                    read,
                    id.name@,
                )
            } else {
                run[i].cache == run[0].cache || (known is Some && run[i].cache == read)
            }
        }),
    decreases i,
{
    if i > 0 {
        yank_leaves_the_cache_until_it_succeeds(root, id, run, events, i - 1);
        lemma_yank_run(root, id, run, events, i - 1);
        assert(steps(run[i - 1], events[i - 1], run[i]));
    }
}

/// A yank that succeeds stores the invoice that was known with the mark set and everything else as
/// it was: the bindle, the whole list of parcels, and the rest.
pub proof fn yanked_invoice_is_otherwise_the_same(
    root: Seq<char>,
    id: Id,
    run: Seq<YankMoment>,
    events: Seq<EventView>,
)
    requires
        is_run(run, events),
        in_order(run[0].cache),
        run[0].op == spec_start_yank(root, run[0].cache, id),
        run.last().op matches Progress::Done(Ok(_)),
    ensures
        ({
            let known = known_invoice(root, run[0].world, run[0].cache, id)->0;
            let path = spec_invoice_toml_path(root, known.bindle.id.sha@);
            let nodes = run.last().world.nodes;
            &&& nodes.contains_key(path)
            &&& nodes[path] is File
            &&& (run.last().world.parse)(nodes[path]->data) matches Some(stored)
            &&& stored.yanked == Some(true)
            &&& stored.bindle == known.bindle
            &&& stored.parcel == known.parcel
            &&& stored.rest == known.rest
        }),
{
    yank_marks_the_invoice(root, id, run, events);
    yanking_only_sets_the_mark(known_invoice(root, run[0].world, run[0].cache, id)->0);
}

/// What the index is told in a yank is the invoice that was known, with the mark set and everything
/// else as it was, and what is written out is the same.
pub proof fn yank_tells_and_writes_the_same(
    root: Seq<char>,
    id: Id,
    run: Seq<YankMoment>,
    events: Seq<EventView>,
    i: int,
    told: InvoiceView,
)
    requires
        is_run(run, events),
        in_order(run[0].cache),
        run[0].op == spec_start_yank(root, run[0].cache, id),
        0 <= i < run.len(),
        asks_for(run[i], ActionView::Index { invoice: told }) || asks_for(
            run[i],
            ActionView::Encode { invoice: told },
        ),
    ensures
        ({
            let known = known_invoice(root, run[0].world, run[0].cache, id)->0;
            &&& told.yanked == Some(true)
            &&& told.bindle == known.bindle
            &&& told.parcel == known.parcel
            &&& told.rest == known.rest
        }),
{
    lemma_yank_run(root, id, run, events, i);
    yanking_only_sets_the_mark(known_invoice(root, run[0].world, run[0].cache, id)->0);
}

/// An invoice that was yanked is read as it was before, with the mark set: with the same bindle,
/// the whole list of parcels, and the rest.
pub proof fn yanked_invoice_is_read_with_all_its_parcels(
    root: Seq<char>,
    id: Id,
    run: Seq<YankMoment>,
    events: Seq<EventView>,
    read: Seq<Moment<FetchInvoiceView, FetchResultView>>,
    read_events: Seq<EventView>,
)
    requires
        is_run(run, events),
        in_order(run[0].cache),
        run[0].op == spec_start_yank(root, run[0].cache, id),
        run.last().op matches Progress::Done(Ok(_)),
        known_invoice(root, run[0].world, run[0].cache, id)->0.bindle.id.sha@ == id.sha@,
        is_run(read, read_events),
        all_went_well(read_events),
        read[0].world.nodes == run.last().world.nodes,
        read[0].world.parse == run.last().world.parse,
        read[0].cache == run.last().cache,
        read[0].op == spec_start_fetch(root, read[0].cache, id),
        read.last().op is Done,
    ensures
        ({
            let known = known_invoice(root, run[0].world, run[0].cache, id)->0;
            &&& read.last().op matches Progress::Done(Ok(found))
            &&& found.yanked == Some(true)
            &&& found.bindle == known.bindle
            &&& found.parcel == known.parcel
            &&& found.rest == known.rest
        }),
{
    yanked_invoice_is_read_as_yanked(root, id, run, events, read, read_events);
    yanking_only_sets_the_mark(known_invoice(root, run[0].world, run[0].cache, id)->0);
}

/// A yank tells the index before it writes the invoice out, and stores what was written out under
/// the name of the invoice.
pub proof fn yank_goes_in_order(
    root: Seq<char>,
    id: Id,
    run: Seq<YankMoment>,
    events: Seq<EventView>,
    i: int,
)
    requires
        is_run(run, events),
        in_order(run[0].cache),
        run[0].op == spec_start_yank(root, run[0].cache, id),
        0 <= i < run.len(),
        run[i].op is Pending,
    ensures
        ({
            let known = known_invoice(root, run[0].world, run[0].cache, id)->0;
            match run[i].op->Pending_0.action() {
                ActionView::ReadText { path } => i == 0 && path == spec_invoice_toml_path(
                    root,
                    id.sha@,
                ),
                ActionView::Decode { text } => i == 1 && events[0] == EventView::Text(Ok(text)),
                ActionView::Index { invoice } => i == 0 || i == 2,
                ActionView::Encode { invoice } => i > 0 && tells_index(run[i - 1]),
                ActionView::WriteFile { path, data } => {
                    &&& i > 1
                    &&& tells_index(run[i - 2])
                    &&& events[i - 1] == EventView::Encoded(Ok(data))
                    &&& path == spec_invoice_toml_path(root, known.bindle.id.sha@)
                },
                _ => false,
            }
        }),
{
    lemma_yank_run(root, id, run, events, i);
    if i > 0 {
        lemma_yank_run(root, id, run, events, i - 1);
        assert(steps(run[i - 1], events[i - 1], run[i]));
        if i > 1 {
            assert(steps(run[i - 2], events[i - 2], run[i - 1]));
            if i > 2 {
                assert(steps(run[i - 3], events[i - 3], run[i - 2]));
            }
        }
    }
}

/// The result of a yank follows from the last answer: only that the invoice was stored is success.
pub proof fn yank_result_tells_why(
    root: Seq<char>,
    id: Id,
    run: Seq<YankMoment>,
    events: Seq<EventView>,
)
    requires
        is_run(run, events),
        run[0].op == spec_start_yank(root, run[0].cache, id),
        run.last().op is Done,
    ensures
        events.len() > 0,
        match events.last() {
            EventView::Finished(Ok(_)) => run.last().op->Done_0 is Ok,
            EventView::Finished(Err(e)) => run.last().op->Done_0 == Err::<(), ProviderError>(
                ProviderError::Io(e),
            ),
            EventView::Encoded(Err(m)) => run.last().op->Done_0 == Err::<(), ProviderError>(
                ProviderError::Unserializable(m),
            ),
            EventView::Decoded(Err(m)) => run.last().op->Done_0 == Err::<(), ProviderError>(
                ProviderError::Malformed(m),
            ),
            EventView::Text(Err(e)) => run.last().op->Done_0 == Err::<(), ProviderError>(
                if e.kind is NotFound {
                    ProviderError::NotFound
                } else {
                    ProviderError::Io(e)
                },
            ),
            _ => false,
        },
{
    let last = events.len() - 1;
    assert(events.len() > 0);
    assert(steps(run[last], events[last], run[last + 1]));
    if let EventView::Text(Err(e)) = events[last] {
        only_a_missing_file_is_not_found(e);
    }
}

} // verus!
