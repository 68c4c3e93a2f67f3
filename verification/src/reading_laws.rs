//! What holds of every reading from the store.

use crate::cache::{lookup, with_entry, Entries, CACHE_SIZE};
use crate::create_invoice::spec_start_create;
use crate::create_invoice_laws::{create_invoice_result_tells, stores, CreateMoment};
use crate::create_parcel_laws::{accepted, create_parcel_result_tells, parcel_starts, ParcelMoment};
use crate::effect::{ActionView, EventView, Operation, Progress};
use crate::error::ProviderError;
use crate::fetch_invoice::{spec_start_fetch, FetchInvoiceView, FetchResultView};
use crate::invoice::{Id, InvoiceView};
use crate::layout::{lemma_parcel_files, spec_invoice_toml_path, spec_parcel_data_path};
use crate::meaning_laws::{existence_is_a_regular_file, listed_is_what_is_in_the_list, only_a_missing_file_is_not_found};
use crate::read_parcel::{GetParcelView, ParcelExistsView, ReadStage};
use crate::warm_index::{WarmError, WarmIndexView};
use crate::world::{all_went_well, asks_for, has_file, is_run, steps, went_well, Moment};
use vstd::prelude::*;

verus! {

/// An action that leaves the file system as it is.
pub open spec fn only_looks(action: ActionView) -> bool {
    match action {
        ActionView::CreateDirAll { .. }
        | ActionView::CreateNew { .. }
        | ActionView::Write { .. }
        | ActionView::CopyStream
        | ActionView::Rename { .. }
        | ActionView::WriteFile { .. } => false,
        _ => true,
    }
}

proof fn lemma_only_looks<S: Operation>(
    run: Seq<Moment<S, S::Output>>,
    events: Seq<EventView>,
    i: int,
)
    requires
        is_run(run, events),
        forall|op: S| only_looks(#[trigger] op.action()),
        0 <= i < run.len(),
    ensures
        run[i].world.nodes == run[0].world.nodes,
        run[i].world.parse == run[0].world.parse,
    decreases i,
{
    if i > 0 {
        lemma_only_looks::<S>(run, events, i - 1);
        assert(steps(run[i - 1], events[i - 1], run[i]));
        let op = run[i - 1].op->Pending_0;
        assert(only_looks(op.action()));
    }
}

/// Reading an invoice changes nothing in the file system.
pub proof fn fetch_only_reads(
    run: Seq<Moment<FetchInvoiceView, FetchResultView>>,
    events: Seq<EventView>,
    i: int,
)
    requires
        is_run(run, events),
        0 <= i < run.len(),
    ensures
        run[i].world.nodes == run[0].world.nodes,
        run[i].world.parse == run[0].world.parse,
{
    lemma_only_looks::<FetchInvoiceView>(run, events, i);
}

/// Opening a parcel changes nothing in the file system.
pub proof fn get_parcel_only_reads(
    run: Seq<Moment<GetParcelView, Result<(), ProviderError>>>,
    events: Seq<EventView>,
    i: int,
)
    requires
        is_run(run, events),
        0 <= i < run.len(),
    ensures
        run[i].world.nodes == run[0].world.nodes,
{
    lemma_only_looks::<GetParcelView>(run, events, i);
}

/// Asking for a parcel changes nothing in the file system.
pub proof fn parcel_exists_only_reads(
    run: Seq<Moment<ParcelExistsView, Result<bool, ProviderError>>>,
    events: Seq<EventView>,
    i: int,
)
    requires
        is_run(run, events),
        0 <= i < run.len(),
    ensures
        run[i].world.nodes == run[0].world.nodes,
{
    lemma_only_looks::<ParcelExistsView>(run, events, i);
}

/// Warming the index changes nothing in the file system.
pub proof fn warm_index_only_reads(
    run: Seq<Moment<WarmIndexView, Result<(), WarmError>>>,
    events: Seq<EventView>,
    i: int,
)
    requires
        is_run(run, events),
        0 <= i < run.len(),
    ensures
        run[i].world.nodes == run[0].world.nodes,
{
    lemma_only_looks::<WarmIndexView>(run, events, i);
}

/// The beginning of the question whether a parcel is there.
pub open spec fn exists_starts(
    root: Seq<char>,
    bindle_id: Id,
    parcel_id: Seq<char>,
    m: Moment<ParcelExistsView, Result<bool, ProviderError>>,
) -> bool {
    m.op == Progress::<ParcelExistsView, Result<bool, ProviderError>>::Pending(
        ParcelExistsView { root, bindle_id, parcel_id, stage: ReadStage::Validate },
    )
}

/// Where nothing goes wrong, a parcel of the bindle is there exactly if its data is there as a
/// regular file.
pub proof fn parcel_exists_outcome(
    root: Seq<char>,
    bindle_id: Id,
    parcel_id: Seq<char>,
    run: Seq<Moment<ParcelExistsView, Result<bool, ProviderError>>>,
    events: Seq<EventView>,
)
    requires
        is_run(run, events),
        all_went_well(events),
        exists_starts(root, bindle_id, parcel_id, run[0]),
        run.last().op is Done,
        accepted(events[0]),
    ensures
        run.last().op == Progress::<ParcelExistsView, Result<bool, ProviderError>>::Done(
            Ok(has_file(run[0].world.nodes, spec_parcel_data_path(root, parcel_id))),
        ),
{
    lemma_parcel_files(root, parcel_id);
    assert(events.len() > 0);
    assert(steps(run[0], events[0], run[1]));
    assert(events.len() > 1);
    assert(steps(run[1], events[1], run[2]));
    assert(went_well(events[1]));
    if events.len() > 2 {
        assert(steps(run[2], events[2], run[3]));
    }
}

/// The beginning of the opening of a parcel.
pub open spec fn get_starts(
    root: Seq<char>,
    bindle_id: Id,
    parcel_id: Seq<char>,
    m: Moment<GetParcelView, Result<(), ProviderError>>,
) -> bool {
    m.op == Progress::<GetParcelView, Result<(), ProviderError>>::Pending(
        GetParcelView { root, bindle_id, parcel_id, stage: ReadStage::Validate },
    )
}

/// Where nothing goes wrong, the file that holds the data of a parcel of the bindle is open at
/// its beginning, or else there is no such file and the result is `NotFound`.
pub proof fn get_parcel_outcome(
    root: Seq<char>,
    bindle_id: Id,
    parcel_id: Seq<char>,
    run: Seq<Moment<GetParcelView, Result<(), ProviderError>>>,
    events: Seq<EventView>,
)
    requires
        is_run(run, events),
        all_went_well(events),
        get_starts(root, bindle_id, parcel_id, run[0]),
        run.last().op is Done,
        accepted(events[0]),
    ensures
        ({
            let path = spec_parcel_data_path(root, parcel_id);
            let result = run.last().op->Done_0;
            if run[0].world.nodes.contains_key(path) {
                &&& result is Ok
                &&& run.last().world.held == Some(path)
                &&& run.last().world.pos == 0
            } else {
                result matches Err(e) && e is NotFound
            }
        }),
{
    assert(events.len() > 0);
    assert(steps(run[0], events[0], run[1]));
    assert(events.len() > 1);
    assert(steps(run[1], events[1], run[2]));
    assert(went_well(events[1]));
    if events.len() > 2 {
        assert(steps(run[2], events[2], run[3]));
    }
}

/// A parcel that was stored is reported as existing, and what is read from it is the data that
/// was stored, whichever bindles that have the parcel it is asked for under.
pub proof fn stored_parcel_is_read_back(
    root: Seq<char>,
    bindle_id: Id,
    parcel_id: Seq<char>,
    stored: Seq<ParcelMoment>,
    stored_events: Seq<EventView>,
    asked_id: Id,
    asked: Seq<Moment<ParcelExistsView, Result<bool, ProviderError>>>,
    asked_events: Seq<EventView>,
    opened_id: Id,
    opened: Seq<Moment<GetParcelView, Result<(), ProviderError>>>,
    opened_events: Seq<EventView>,
)
    requires
        is_run(stored, stored_events),
        parcel_starts(root, bindle_id, parcel_id, stored[0]),
        stored.last().op matches Progress::Done(Ok(_)),
        is_run(asked, asked_events),
        all_went_well(asked_events),
        exists_starts(root, asked_id, parcel_id, asked[0]),
        asked[0].world.nodes == stored.last().world.nodes,
        asked.last().op is Done,
        accepted(asked_events[0]),
        is_run(opened, opened_events),
        all_went_well(opened_events),
        get_starts(root, opened_id, parcel_id, opened[0]),
        opened[0].world.nodes == stored.last().world.nodes,
        opened.last().op is Done,
        accepted(opened_events[0]),
    ensures
        asked.last().op == Progress::<ParcelExistsView, Result<bool, ProviderError>>::Done(Ok(true)),
        opened.last().op matches Progress::Done(Ok(_)),
        opened.last().world.holds_file(),
        opened.last().world.held_data() == stored[0].world.incoming,
        opened.last().world.pos == 0,
{
    create_parcel_result_tells(root, bindle_id, parcel_id, stored, stored_events);
    parcel_exists_outcome(root, asked_id, parcel_id, asked, asked_events);
    get_parcel_outcome(root, opened_id, parcel_id, opened, opened_events);
    get_parcel_only_reads(opened, opened_events, opened.len() - 1);
}

/// Where nothing goes wrong, the reading of an invoice that is not in the cache gives the
/// invoice that the document under the bindle's digest stands for, and keeps it in the cache.
/// Where there is no document, the result is `NotFound`, and where the document stands for
/// nothing, it is `Malformed`.
pub proof fn fetch_outcome(
    root: Seq<char>,
    id: Id,
    run: Seq<Moment<FetchInvoiceView, FetchResultView>>,
    events: Seq<EventView>,
)
    requires
        is_run(run, events),
        all_went_well(events),
        run[0].op == spec_start_fetch(root, run[0].cache, id),
        lookup(run[0].cache, id.name@) is None,
        run.last().op is Done,
    ensures
        ({
            let path = spec_invoice_toml_path(root, id.sha@);
            let world = run[0].world;
            match run.last().op->Done_0 {
                Ok(invoice) => {
                    &&& stores(world, path, invoice)
                    &&& run.last().cache == with_entry(
                        run[0].cache,
                        CACHE_SIZE as nat,
                        id.name@,
                        invoice,
                    )
                },
                Err(e) => {
                    &&& run.last().cache == run[0].cache
                    &&& if world.nodes.contains_key(path) {
                        &&& e is Malformed
                        &&& has_file(world.nodes, path)
                        &&& (world.parse)(world.nodes[path]->data) is None
                    } else {
                        e is NotFound
                    }
                },
            }
        }),
{
    assert(events.len() > 0);
    assert(steps(run[0], events[0], run[1]));
    assert(went_well(events[0]));
    if events[0] matches EventView::Text(Ok(text)) {
        assert(events.len() > 1);
        assert(steps(run[1], events[1], run[2]));
        if events.len() > 2 {
            assert(steps(run[2], events[2], run[3]));
        }
    } else {
        if events.len() > 1 {
            assert(steps(run[1], events[1], run[2]));
        }
    }
}

/// An invoice in the cache is handed out as it is there, without a look at the file system.
pub proof fn cached_invoice_is_not_read(root: Seq<char>, cache: Entries, id: Id)
    requires
        lookup(cache, id.name@) is Some,
    ensures
        spec_start_fetch(root, cache, id) == Progress::<FetchInvoiceView, FetchResultView>::Done(
            Ok(lookup(cache, id.name@)->0),
        ),
{
}

/// An invoice that was stored is what is read under the identifier of its bindle, unless the
/// cache has another one for it.
pub proof fn stored_invoice_is_read_back(
    root: Seq<char>,
    invoice: InvoiceView,
    stored: Seq<CreateMoment>,
    stored_events: Seq<EventView>,
    read: Seq<Moment<FetchInvoiceView, FetchResultView>>,
    read_events: Seq<EventView>,
)
    requires
        is_run(stored, stored_events),
        stored[0].op == spec_start_create(root, invoice),
        stored.last().op matches Progress::Done(Ok(_)),
        is_run(read, read_events),
        all_went_well(read_events),
        read[0].world.nodes == stored.last().world.nodes,
        read[0].world.parse == stored.last().world.parse,
        read[0].op == spec_start_fetch(root, read[0].cache, invoice.bindle.id),
        lookup(read[0].cache, invoice.bindle.id.name@) matches Some(kept) ==> kept == invoice,
        read.last().op is Done,
    ensures
        read.last().op == Progress::<FetchInvoiceView, FetchResultView>::Done(Ok(invoice)),
{
    create_invoice_result_tells(root, invoice, stored, stored_events);
    if lookup(read[0].cache, invoice.bindle.id.name@) is None {
        fetch_outcome(root, invoice.bindle.id, read, read_events);
    } else if read_events.len() > 0 {
        assert(steps(read[0], read_events[0], read[1]));
    }
}

/// The reading of an invoice ends, after no more than two answers.
pub proof fn fetch_ends(
    root: Seq<char>,
    id: Id,
    run: Seq<Moment<FetchInvoiceView, FetchResultView>>,
    events: Seq<EventView>,
)
    requires
        is_run(run, events),
        run[0].op == spec_start_fetch(root, run[0].cache, id),
    ensures
        events.len() <= 2,
        events.len() == 2 ==> run.last().op is Done,
{
    if events.len() > 0 {
        assert(steps(run[0], events[0], run[1]));
        if events.len() > 1 {
            assert(steps(run[1], events[1], run[2]));
            if events.len() > 2 {
                assert(steps(run[2], events[2], run[3]));
            }
        }
    }
}

/// The opening of a parcel ends, after no more than two answers.
pub proof fn get_parcel_ends(
    root: Seq<char>,
    bindle_id: Id,
    parcel_id: Seq<char>,
    run: Seq<Moment<GetParcelView, Result<(), ProviderError>>>,
    events: Seq<EventView>,
)
    requires
        is_run(run, events),
        get_starts(root, bindle_id, parcel_id, run[0]),
    ensures
        events.len() <= 2,
        events.len() == 2 ==> run.last().op is Done,
{
    if events.len() > 0 {
        assert(steps(run[0], events[0], run[1]));
        if events.len() > 1 {
            assert(steps(run[1], events[1], run[2]));
            if events.len() > 2 {
                assert(steps(run[2], events[2], run[3]));
            }
        }
    }
}

/// The question whether a parcel is there ends, after no more than two answers.
pub proof fn parcel_exists_ends(
    root: Seq<char>,
    bindle_id: Id,
    parcel_id: Seq<char>,
    run: Seq<Moment<ParcelExistsView, Result<bool, ProviderError>>>,
    events: Seq<EventView>,
)
    requires
        is_run(run, events),
        exists_starts(root, bindle_id, parcel_id, run[0]),
    ensures
        events.len() <= 2,
        events.len() == 2 ==> run.last().op is Done,
{
    if events.len() > 0 {
        assert(steps(run[0], events[0], run[1]));
        if events.len() > 1 {
            assert(steps(run[1], events[1], run[2]));
            if events.len() > 2 {
                assert(steps(run[2], events[2], run[3]));
            }
        }
    }
}

/// A parcel that the bindle does not have is not opened: asking for its data ends right there, for
/// the reason given, with no file touched or newly held open.
pub proof fn get_parcel_is_refused_at_once(
    root: Seq<char>,
    bindle_id: Id,
    parcel_id: Seq<char>,
    run: Seq<Moment<GetParcelView, Result<(), ProviderError>>>,
    events: Seq<EventView>,
    e: ProviderError,
)
    requires
        is_run(run, events),
        get_starts(root, bindle_id, parcel_id, run[0]),
        events.len() > 0,
        events[0] == EventView::Validated(Err(e)),
    ensures
        events.len() == 1,
        run.last().op == Progress::<GetParcelView, Result<(), ProviderError>>::Done(Err(e)),
        run.last().world == run[0].world,
        run.last().cache == run[0].cache,
{
    assert(steps(run[0], events[0], run[1]));
    if events.len() > 1 {
        assert(steps(run[1], events[1], run[2]));
    }
}

/// The question for a parcel that the bindle does not have ends right there, for the reason given,
/// without a look at the store.
pub proof fn parcel_exists_is_refused_at_once(
    root: Seq<char>,
    bindle_id: Id,
    parcel_id: Seq<char>,
    run: Seq<Moment<ParcelExistsView, Result<bool, ProviderError>>>,
    events: Seq<EventView>,
    e: ProviderError,
)
    requires
        is_run(run, events),
        exists_starts(root, bindle_id, parcel_id, run[0]),
        events.len() > 0,
        events[0] == EventView::Validated(Err(e)),
    ensures
        events.len() == 1,
        run.last().op == Progress::<ParcelExistsView, Result<bool, ProviderError>>::Done(Err(e)),
        run.last().world == run[0].world,
        run.last().cache == run[0].cache,
{
    assert(steps(run[0], events[0], run[1]));
    if events.len() > 1 {
        assert(steps(run[1], events[1], run[2]));
    }
}

/// What is asked first is whether this bindle has this parcel. Only if it has is the parcel's own
/// file opened.
pub proof fn get_parcel_asks_first(
    root: Seq<char>,
    bindle_id: Id,
    parcel_id: Seq<char>,
    run: Seq<Moment<GetParcelView, Result<(), ProviderError>>>,
    events: Seq<EventView>,
)
    requires
        is_run(run, events),
        get_starts(root, bindle_id, parcel_id, run[0]),
    ensures
        asks_for(run[0], ActionView::ValidateParcel { bindle_id, parcel_id }),
        events.len() > 0 && run[1].op is Pending ==> (events[0] matches EventView::Validated(Ok(_)))
            && asks_for(
            run[1],
            ActionView::OpenRead { path: spec_parcel_data_path(root, parcel_id) },
        ),
{
    if events.len() > 0 {
        assert(steps(run[0], events[0], run[1]));
    }
}

/// What is asked first is whether this bindle has this parcel. Only if it has is the parcel's own
/// file looked for.
pub proof fn parcel_exists_asks_first(
    root: Seq<char>,
    bindle_id: Id,
    parcel_id: Seq<char>,
    run: Seq<Moment<ParcelExistsView, Result<bool, ProviderError>>>,
    events: Seq<EventView>,
)
    requires
        is_run(run, events),
        exists_starts(root, bindle_id, parcel_id, run[0]),
    ensures
        asks_for(run[0], ActionView::ValidateParcel { bindle_id, parcel_id }),
        events.len() > 0 && run[1].op is Pending ==> (events[0] matches EventView::Validated(Ok(_)))
            && asks_for(
            run[1],
            ActionView::Stat { path: spec_parcel_data_path(root, parcel_id) },
        ),
{
    if events.len() > 0 {
        assert(steps(run[0], events[0], run[1]));
    }
}

/// The data of a parcel of the bindle is handed out exactly if the parcel's file was opened. A
/// file that is not there is `NotFound`, and any other failure is passed on.
pub proof fn get_parcel_result_tells(
    root: Seq<char>,
    bindle_id: Id,
    parcel_id: Seq<char>,
    run: Seq<Moment<GetParcelView, Result<(), ProviderError>>>,
    events: Seq<EventView>,
)
    requires
        is_run(run, events),
        get_starts(root, bindle_id, parcel_id, run[0]),
        run.last().op is Done,
    ensures
        events.len() > 0,
        match events.last() {
            EventView::Validated(Err(e)) => events.len() == 1 && run.last().op->Done_0 == Err::<
                (),
                ProviderError,
            >(e),
            EventView::Opened(Ok(_)) => {
                &&& events.len() == 2
                &&& events[0] matches EventView::Validated(Ok(_))
                &&& run.last().op->Done_0 is Ok
                &&& run.last().world.held == Some(spec_parcel_data_path(root, parcel_id))
                &&& run.last().world.pos == 0
            },
            EventView::Opened(Err(e)) => {
                &&& events.len() == 2
                &&& events[0] matches EventView::Validated(Ok(_))
                &&& if e.kind is NotFound {
                    run.last().op->Done_0 matches Err(x) && x is NotFound
                } else {
                    run.last().op->Done_0 == Err::<(), ProviderError>(ProviderError::Io(e))
                }
                &&& run.last().world == run[0].world
            },
            _ => false,
        },
{
    get_parcel_ends(root, bindle_id, parcel_id, run, events);
    assert(events.len() > 0);
    assert(steps(run[0], events[0], run[1]));
    if events.len() > 1 {
        assert(steps(run[1], events[1], run[2]));
        if let EventView::Opened(Err(e)) = events[1] {
            only_a_missing_file_is_not_found(e);
        }
    }
}

/// A parcel of the bindle is there exactly if the look at its file found a regular file. That
/// nothing was found is an answer, and any other failure is passed on.
pub proof fn parcel_exists_result_tells(
    root: Seq<char>,
    bindle_id: Id,
    parcel_id: Seq<char>,
    run: Seq<Moment<ParcelExistsView, Result<bool, ProviderError>>>,
    events: Seq<EventView>,
)
    requires
        is_run(run, events),
        exists_starts(root, bindle_id, parcel_id, run[0]),
        run.last().op is Done,
    ensures
        events.len() > 0,
        match events.last() {
            EventView::Validated(Err(e)) => events.len() == 1 && run.last().op->Done_0 == Err::<
                bool,
                ProviderError,
            >(e),
            EventView::Stated(stat) => {
                &&& events.len() == 2
                &&& events[0] matches EventView::Validated(Ok(_))
                &&& match stat {
                    Ok(kind) => run.last().op->Done_0 == Ok::<bool, ProviderError>(kind is File),
                    Err(e) => if e.kind is NotFound {
                        run.last().op->Done_0 == Ok::<bool, ProviderError>(false)
                    } else {
                        run.last().op->Done_0 == Err::<bool, ProviderError>(ProviderError::Io(e))
                    },
                }
            },
            _ => false,
        },
{
    parcel_exists_ends(root, bindle_id, parcel_id, run, events);
    assert(events.len() > 0);
    assert(steps(run[0], events[0], run[1]));
    if events.len() > 1 {
        assert(steps(run[1], events[1], run[2]));
        if let EventView::Stated(stat) = events[1] {
            existence_is_a_regular_file(stat);
        }
    }
}

/// The answer to whether a bindle has a parcel that follows from the invoice that is known for the
/// bindle: it has it if the parcel is somewhere in the invoice's list, and otherwise, or if no
/// invoice is known, the parcel is not found.
pub open spec fn validates(known: Option<InvoiceView>, parcel_id: Seq<char>, event: EventView) -> bool {
    &&& event matches EventView::Validated(v)
    &&& match known {
        Some(invoice) => if invoice.lists_parcel(parcel_id) {
            v is Ok
        } else {
            v matches Err(e) && e is NotFound
        },
        None => v matches Err(e) && e is NotFound,
    }
}

/// Where nothing goes wrong, every parcel in the list of the bindle's invoice is there exactly if
/// its data is there as a regular file, and a parcel that is not in the list is not found,
/// whatever is in the store.
pub proof fn parcels_exist_for_bindles_that_list_them(
    root: Seq<char>,
    bindle_id: Id,
    parcel_id: Seq<char>,
    known: InvoiceView,
    run: Seq<Moment<ParcelExistsView, Result<bool, ProviderError>>>,
    events: Seq<EventView>,
)
    requires
        is_run(run, events),
        all_went_well(events),
        exists_starts(root, bindle_id, parcel_id, run[0]),
        run.last().op is Done,
        validates(Some(known), parcel_id, events[0]),
    ensures
        known.parcel matches Some(ps) && (exists|i: int|
            0 <= i < ps.len() && (#[trigger] ps[i]).label.sha256@ == parcel_id)
            ==> run.last().op->Done_0 == Ok::<bool, ProviderError>(
            run[0].world.nodes.contains_key(spec_parcel_data_path(root, parcel_id))
                && run[0].world.nodes[spec_parcel_data_path(root, parcel_id)] is File,
        ),
        !(known.parcel matches Some(ps) && (exists|i: int|
            0 <= i < ps.len() && (#[trigger] ps[i]).label.sha256@ == parcel_id)) ==> (
        run.last().op->Done_0 matches Err(e) && e is NotFound),
{
    listed_is_what_is_in_the_list(known, parcel_id);
    assert(events.len() > 0);
    assert(steps(run[0], events[0], run[1]));
    if known.lists_parcel(parcel_id) {
        parcel_exists_outcome(root, bindle_id, parcel_id, run, events);
    } else {
        let e = events[0]->Validated_0->Err_0;
        parcel_exists_is_refused_at_once(root, bindle_id, parcel_id, run, events, e);
    }
}

/// Where nothing goes wrong, the data of every parcel in the list of the bindle's invoice is
/// handed out if there is any, and that of a parcel that is not in the list is not, whatever is in
/// the store.
pub proof fn parcels_are_handed_out_to_bindles_that_list_them(
    root: Seq<char>,
    bindle_id: Id,
    parcel_id: Seq<char>,
    known: InvoiceView,
    run: Seq<Moment<GetParcelView, Result<(), ProviderError>>>,
    events: Seq<EventView>,
)
    requires
        is_run(run, events),
        all_went_well(events),
        get_starts(root, bindle_id, parcel_id, run[0]),
        run.last().op is Done,
        validates(Some(known), parcel_id, events[0]),
    ensures
        run.last().op->Done_0 is Ok <==> (known.parcel matches Some(ps) && (exists|i: int|
            0 <= i < ps.len() && (#[trigger] ps[i]).label.sha256@ == parcel_id))
            && run[0].world.nodes.contains_key(spec_parcel_data_path(root, parcel_id)),
        run.last().op->Done_0 is Ok ==> run.last().world.held == Some(
            spec_parcel_data_path(root, parcel_id),
        ) && run.last().world.pos == 0,
        run.last().op->Done_0 matches Err(e) ==> e is NotFound && run.last().world
            == run[0].world,
{
    listed_is_what_is_in_the_list(known, parcel_id);
    assert(events.len() > 0);
    assert(steps(run[0], events[0], run[1]));
    if known.lists_parcel(parcel_id) {
        get_parcel_outcome(root, bindle_id, parcel_id, run, events);
        get_parcel_result_tells(root, bindle_id, parcel_id, run, events);
    } else {
        let e = events[0]->Validated_0->Err_0;
        get_parcel_is_refused_at_once(root, bindle_id, parcel_id, run, events, e);
    }
}

/// What the reading of an invoice results in follows from the last answer: what was parsed is
/// handed out and kept in the cache, a missing file is `NotFound`, any other failure is passed on,
/// and what could not be parsed is `Malformed` for the reason given. Unless it succeeds, the cache
/// is as it was.
pub proof fn fetch_result_tells(
    root: Seq<char>,
    id: Id,
    run: Seq<Moment<FetchInvoiceView, FetchResultView>>,
    events: Seq<EventView>,
    i: int,
)
    requires
        is_run(run, events),
        run[0].op == spec_start_fetch(root, run[0].cache, id),
        lookup(run[0].cache, id.name@) is None,
        0 <= i < run.len(),
    ensures
        asks_for(run[0], ActionView::ReadText { path: spec_invoice_toml_path(root, id.sha@) }),
        run[i].op is Pending ==> run[i].cache == run[0].cache && (i == 1 ==> (
        events[0] matches EventView::Text(Ok(text)) && asks_for(
            run[1],
            ActionView::Decode { text },
        ))),
        run[i].op is Done ==> i > 0 && i == events.len() && match events[i - 1] {
            EventView::Decoded(Ok(invoice)) => {
                &&& run[i].op->Done_0 == Ok::<InvoiceView, ProviderError>(invoice)
                &&& run[i].cache == with_entry(run[0].cache, 50, id.name@, invoice)
            },
            EventView::Decoded(Err(m)) => {
                &&& run[i].op->Done_0 == Err::<InvoiceView, ProviderError>(
                    ProviderError::Malformed(m),
                )
                &&& run[i].cache == run[0].cache
            },
            EventView::Text(Err(e)) => {
                &&& run[i].cache == run[0].cache
                &&& if e.kind is NotFound {
                    run[i].op->Done_0 matches Err(x) && x is NotFound
                } else {
                    run[i].op->Done_0 == Err::<InvoiceView, ProviderError>(ProviderError::Io(e))
                }
            },
            _ => false,
        },
{
    fetch_ends(root, id, run, events);
    if i > 0 {
        assert(steps(run[0], events[0], run[1]));
        if let EventView::Text(Err(e)) = events[0] {
            only_a_missing_file_is_not_found(e);
        }
        if i > 1 {
            assert(steps(run[1], events[1], run[2]));
        }
        if i < events.len() {
            assert(steps(run[i], events[i], run[i + 1]));
        }
    }
}

/// Opening a parcel and asking for one leave the cache alone.
pub proof fn looking_for_parcels_leaves_the_cache(
    opened: Seq<Moment<GetParcelView, Result<(), ProviderError>>>,
    opened_events: Seq<EventView>,
    asked: Seq<Moment<ParcelExistsView, Result<bool, ProviderError>>>,
    asked_events: Seq<EventView>,
    i: int,
)
    requires
        is_run(opened, opened_events),
        is_run(asked, asked_events),
        0 <= i < opened.len(),
        i < asked.len(),
    ensures
        opened[i].cache == opened[0].cache,
        asked[i].cache == asked[0].cache,
    decreases i,
{
    if i > 0 {
        looking_for_parcels_leaves_the_cache(opened, opened_events, asked, asked_events, i - 1);
        assert(steps(opened[i - 1], opened_events[i - 1], opened[i]));
        assert(steps(asked[i - 1], asked_events[i - 1], asked[i]));
    }
}

} // verus!
