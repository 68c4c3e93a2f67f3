//! What holds of every storing of an invoice.

use crate::cache::Entries;
use crate::create_invoice::{missing_labels, spec_start_create, CreateInvoiceView, CreateResultView, CreateStage};
use crate::effect::{ActionView, EventView, FileKind, Operation, Progress};
use crate::error::{IoError, IoErrorKind, ProviderError};
use crate::invoice::{InvoiceView, Label, Parcel};
use crate::layout::{lemma_invoice_files, spec_invoice_path, spec_invoice_toml_path, spec_parcel_path};
use crate::meaning_laws::{missing_are_those_without_a_directory, only_the_mark_makes_yanked, parcels_are_the_list};
use crate::path::spec_part_path;
use crate::world::{all_went_well, asks_for, has_data, has_dir, has_file, is_run, lemma_extend, lemma_place, lemma_with_way, looks_worked, nothing_removed, on_the_way, overwritten, place, same_at, starts_with, stat_answers, steps, sure, tells_index, way_made, went_well, with_way, Moment, Node, Nodes, World};
use vstd::prelude::*;

verus! {

/// A moment in the storing of an invoice.
pub type CreateMoment = Moment<CreateInvoiceView, CreateResultView>;

/// Of all places but `dest` and `part`, none lost what it had, and where something is new it is
/// a directory on the way to `dir`.
pub open spec fn only_touches(
    before: Nodes,
    after: Nodes,
    dir: Seq<char>,
    dest: Seq<char>,
    part: Seq<char>,
) -> bool {
    &&& forall|p: Seq<char>|
        p != dest && p != part && #[trigger] before.contains_key(p) ==> after.contains_key(p)
            && after[p] == before[p]
    &&& forall|p: Seq<char>|
        p != dest && p != part && #[trigger] after.contains_key(p) && !before.contains_key(p)
            ==> after[p] is Dir && on_the_way(dir, p)
}

/// Whether the file at `dest` is a whole document that stands for `invoice`.
pub open spec fn stores(world: World, dest: Seq<char>, invoice: InvoiceView) -> bool {
    has_file(world.nodes, dest) && (world.parse)(world.nodes[dest]->data) == Some(invoice)
}

/// The directory of the invoice is there: it was before, or it was made with those above it.
pub open spec fn dir_is_there(before: Nodes, after: Nodes, dir: Seq<char>) -> bool {
    &&& has_dir(after, place(dir))
    &&& has_dir(before, place(dir)) || way_made(after, dir)
}

proof fn lemma_dir_stays(before: Nodes, nodes: Nodes, after: Nodes, dir: Seq<char>)
    requires
        dir_is_there(before, nodes, dir),
        forall|p: Seq<char>|
            p.len() <= dir.len() && #[trigger] nodes.contains_key(p) ==> after.contains_key(p)
                && after[p] == nodes[p],
    ensures
        dir_is_there(before, after, dir),
{
    lemma_place(dir);
}

/// What is true whenever an invoice is being stored.
spec fn create_inv(
    root: Seq<char>,
    invoice: InvoiceView,
    first: World,
    cache: Entries,
    m: CreateMoment,
) -> bool {
    let dir = spec_invoice_path(root, invoice.canonical_name());
    let dest = spec_invoice_toml_path(root, invoice.canonical_name());
    let part = spec_part_path(dest);
    let nodes = m.world.nodes;
    &&& m.world.parse == first.parse
    &&& m.world.print == first.print
    &&& m.cache == cache
    &&& only_touches(first.nodes, nodes, dir, dest, part)
    &&& match m.op {
        Progress::Pending(op) => {
            &&& op.root == root
            &&& op.invoice == invoice
            &&& match op.stage {
                CreateStage::DirCheck | CreateStage::DirRecheck | CreateStage::MakeDir => nodes
                    == first.nodes,
                CreateStage::DestCheck
                | CreateStage::PartCheck
                | CreateStage::PartRecheck
                | CreateStage::OpenPart => {
                    &&& dir_is_there(first.nodes, nodes, dir)
                    &&& same_at(first.nodes, nodes, dest)
                    &&& same_at(first.nodes, nodes, part)
                },
                CreateStage::Encode => {
                    &&& dir_is_there(first.nodes, nodes, dir)
                    &&& same_at(first.nodes, nodes, dest)
                    &&& has_data(nodes, part, Seq::empty())
                    &&& m.world.held == Some(part)
                    &&& m.world.pos == 0
                },
                CreateStage::WritePart => {
                    &&& dir_is_there(first.nodes, nodes, dir)
                    &&& same_at(first.nodes, nodes, dest)
                    &&& has_data(nodes, part, Seq::empty())
                    &&& m.world.held == Some(part)
                    &&& m.world.pos == 0
                    &&& op.data == (first.print)(invoice)
                    &&& (first.parse)(op.data) == Some(invoice)
                },
                CreateStage::Publish => {
                    &&& dir_is_there(first.nodes, nodes, dir)
                    &&& same_at(first.nodes, nodes, dest)
                    &&& has_data(nodes, part, op.data)
                    &&& op.data == (first.print)(invoice)
                    &&& (first.parse)(op.data) == Some(invoice)
                },
                CreateStage::Index | CreateStage::CheckParcels => {
                    &&& dir_is_there(first.nodes, nodes, dir)
                    &&& stores(m.world, dest, invoice)
                    &&& has_data(nodes, dest, (first.print)(invoice))
                    &&& !nodes.contains_key(part)
                },
            }
        },
        Progress::Done(Ok(_)) => {
            &&& dir_is_there(first.nodes, nodes, dir)
            &&& stores(m.world, dest, invoice)
            &&& has_data(nodes, dest, (first.print)(invoice))
            &&& !nodes.contains_key(part)
        },
        Progress::Done(Err(_)) => same_at(first.nodes, nodes, dest),
    }
}

proof fn lemma_create_step(
    root: Seq<char>,
    invoice: InvoiceView,
    first: World,
    cache: Entries,
    m: CreateMoment,
    event: EventView,
    m2: CreateMoment,
)
    requires
        create_inv(root, invoice, first, cache, m),
        steps(m, event, m2),
    ensures
        create_inv(root, invoice, first, cache, m2),
{
    let dir = spec_invoice_path(root, invoice.canonical_name());
    let dest = spec_invoice_toml_path(root, invoice.canonical_name());
    let part = spec_part_path(dest);
    lemma_invoice_files(root, invoice.canonical_name());
    assert(!starts_with(dir, dest) && !starts_with(dir, part) && dest != part);
    let op = m.op->Pending_0;
    assert(op.dir() == dir && op.dest() == dest && op.part() == part);
    lemma_place(dir);
    match op.stage {
        CreateStage::WritePart => {
            let done = event->Finished_0;
            let data = op.data;
            assert(m.world.holds_file());
            let n = choose|n: int|
                0 <= n <= data.len() && (done is Ok ==> n == data.len()) && m2.world
                    == #[trigger] m.world.wrote(data.take(n));
            assert(data.take(data.len() as int) =~= data);
            assert(overwritten(m.world.held_data(), 0, data.take(n)) =~= data.take(n));
        },
        _ => {},
    }
    if dir_is_there(first.nodes, m.world.nodes, dir) {
        lemma_dir_stays(first.nodes, m.world.nodes, m2.world.nodes, dir);
    }
}

proof fn lemma_create_run(
    root: Seq<char>,
    invoice: InvoiceView,
    run: Seq<CreateMoment>,
    events: Seq<EventView>,
    i: int,
)
    requires
        is_run(run, events),
        run[0].op == spec_start_create(root, invoice),
        0 <= i < run.len(),
    ensures
        create_inv(root, invoice, run[0].world, run[0].cache, run[i]),
    decreases i,
{
    if i > 0 {
        lemma_create_run(root, invoice, run, events, i - 1);
        assert(steps(run[i - 1], events[i - 1], run[i]));
        lemma_create_step(
            root,
            invoice,
            run[0].world,
            run[0].cache,
            run[i - 1],
            events[i - 1],
            run[i],
        );
    }
}

/// At every moment the invoice's file is either as it was before or a whole document that stands
/// for the invoice, whatever goes wrong on the way. Nothing else in the store changes but for
/// the part file and new directories, and the cache is left alone.
pub proof fn create_invoice_is_atomic(
    root: Seq<char>,
    invoice: InvoiceView,
    run: Seq<CreateMoment>,
    events: Seq<EventView>,
    i: int,
)
    requires
        is_run(run, events),
        run[0].op == spec_start_create(root, invoice),
        0 <= i < run.len(),
    ensures
        ({
            let dir = spec_invoice_path(root, invoice.canonical_name());
            let dest = spec_invoice_toml_path(root, invoice.canonical_name());
            &&& same_at(run[0].world.nodes, run[i].world.nodes, dest) || stores(
                run[i].world,
                dest,
                invoice,
            )
            &&& only_touches(
                run[0].world.nodes,
                run[i].world.nodes,
                dir,
                dest,
                spec_part_path(dest),
            )
            &&& run[i].cache == run[0].cache
        }),
{
    lemma_create_run(root, invoice, run, events, i);
}

/// Success means that the invoice's file is the document that the format writes for the invoice,
/// which stands for the invoice, that its directory is there, and that the part file is gone. An
/// error means that the invoice's file is as it was before.
pub proof fn create_invoice_result_tells(
    root: Seq<char>,
    invoice: InvoiceView,
    run: Seq<CreateMoment>,
    events: Seq<EventView>,
)
    requires
        is_run(run, events),
        run[0].op == spec_start_create(root, invoice),
    ensures
        ({
            let dest = spec_invoice_toml_path(root, invoice.canonical_name());
            match run.last().op {
                Progress::Pending(_) => true,
                Progress::Done(Ok(_)) => {
                    &&& stores(run.last().world, dest, invoice)
                    &&& has_data(
                        run.last().world.nodes,
                        dest,
                        (run[0].world.print)(invoice),
                    )
                    &&& dir_is_there(
                        run[0].world.nodes,
                        run.last().world.nodes,
                        spec_invoice_path(root, invoice.canonical_name()),
                    )
                    &&& !run.last().world.nodes.contains_key(spec_part_path(dest))
                },
                Progress::Done(Err(_)) => same_at(
                    run[0].world.nodes,
                    run.last().world.nodes,
                    dest,
                ),
            }
        }),
{
    lemma_create_run(root, invoice, run, events, run.len() - 1);
}

/// How many steps are left at most.
spec fn create_rank(stage: CreateStage) -> int {
    match stage {
        CreateStage::DirCheck => 12,
        CreateStage::DirRecheck => 11,
        CreateStage::MakeDir => 10,
        CreateStage::DestCheck => 9,
        CreateStage::PartCheck => 8,
        CreateStage::PartRecheck => 7,
        CreateStage::OpenPart => 6,
        CreateStage::Encode => 5,
        CreateStage::WritePart => 4,
        CreateStage::Publish => 3,
        CreateStage::Index => 2,
        CreateStage::CheckParcels => 1,
    }
}

proof fn lemma_create_rank(run: Seq<CreateMoment>, events: Seq<EventView>, i: int)
    requires
        is_run(run, events),
        run[0].op matches Progress::Pending(op) ==> op.stage is DirCheck,
        0 <= i < run.len(),
    ensures
        i <= 12,
        run[i].op matches Progress::Pending(op) ==> create_rank(op.stage) <= 12 - i,
    decreases i,
{
    if i > 0 {
        lemma_create_rank(run, events, i - 1);
        assert(steps(run[i - 1], events[i - 1], run[i]));
        let op = run[i - 1].op->Pending_0;
        assert(create_rank(op.stage) > 0);
        assert(run[i].op matches Progress::Pending(op2) ==> create_rank(op2.stage) < create_rank(
            op.stage,
        ));
    }
}

/// The storing of an invoice ends: each answer takes it further, and it takes no more than
/// twelve of them.
pub proof fn create_invoice_ends(
    root: Seq<char>,
    invoice: InvoiceView,
    run: Seq<CreateMoment>,
    events: Seq<EventView>,
)
    requires
        is_run(run, events),
        run[0].op == spec_start_create(root, invoice),
    ensures
        events.len() <= 12,
        events.len() == 12 ==> run.last().op is Done,
{
    lemma_create_rank(run, events, run.len() - 1);
}

/// The labels of those `parcels` whose directories are not in the store, in their order.
pub open spec fn absent_labels(root: Seq<char>, parcels: Seq<Parcel>, nodes: Nodes) -> Seq<Label>
    decreases parcels.len(),
{
    if parcels.len() == 0 {
        Seq::empty()
    } else {
        let earlier = absent_labels(root, parcels.drop_last(), nodes);
        if has_dir(nodes, place(spec_parcel_path(root, parcels.last().label.sha256@))) {
            earlier
        } else {
            earlier.push(parcels.last().label)
        }
    }
}

proof fn lemma_missing_are_absent(
    root: Seq<char>,
    parcels: Seq<Parcel>,
    stats: Seq<Result<FileKind, IoError>>,
    nodes: Nodes,
)
    requires
        parcels.len() <= stats.len(),
        forall|i: int| 0 <= i < stats.len() ==> sure(#[trigger] stats[i]),
        forall|i: int|
            0 <= i < parcels.len() ==> stat_answers(
                nodes,
                spec_parcel_path(root, (#[trigger] parcels[i]).label.sha256@),
                stats[i],
            ),
    ensures
        missing_labels(parcels, stats) == absent_labels(root, parcels, nodes),
    decreases parcels.len(),
{
    if parcels.len() > 0 {
        let shorter = parcels.drop_last();
        assert forall|i: int| 0 <= i < shorter.len() implies stat_answers(
            nodes,
            spec_parcel_path(root, (#[trigger] shorter[i]).label.sha256@),
            stats[i],
        ) by {
            assert(shorter[i] == parcels[i]);
        }
        lemma_missing_are_absent(root, shorter, stats, nodes);
        let last = parcels.len() - 1;
        assert(parcels[last] == parcels.last());
        assert(sure(stats[last]));
    }
}

/// What the storing of an invoice results in where nothing goes wrong: a yanked invoice is
/// refused; so is one that is there already, or whose directory is a file; so is one that
/// someone else is writing, as anything at the part path shows. Otherwise the result names the parcels that are not there yet.
pub open spec fn create_outcome(
    root: Seq<char>,
    invoice: InvoiceView,
    before: Nodes,
    after: Nodes,
) -> CreateResultView {
    let dir = spec_invoice_path(root, invoice.canonical_name());
    let dest = spec_invoice_toml_path(root, invoice.canonical_name());
    if invoice.is_yanked() {
        Err(ProviderError::CreateYanked)
    } else if has_file(before, place(dir)) || before.contains_key(dest) {
        Err(ProviderError::Exists)
    } else if before.contains_key(spec_part_path(dest)) {
        Err(ProviderError::WriteInProgress)
    } else {
        Ok(absent_labels(root, invoice.parcels(), after))
    }
}

/// What has been found out at each stage, where nothing went wrong.
spec fn create_findings(
    root: Seq<char>,
    invoice: InvoiceView,
    first: Nodes,
    m: CreateMoment,
) -> bool {
    let dir = spec_invoice_path(root, invoice.canonical_name());
    let dest = spec_invoice_toml_path(root, invoice.canonical_name());
    let part = spec_part_path(dest);
    match m.op {
        Progress::Pending(op) => {
            &&& !invoice.is_yanked()
            &&& match op.stage {
                CreateStage::DirCheck => true,
                CreateStage::DirRecheck => true,
                CreateStage::MakeDir => !has_file(first, place(dir)),
                CreateStage::DestCheck => !has_file(first, place(dir)),
                CreateStage::PartCheck => !has_file(first, place(dir)) && !first.contains_key(dest),
                _ => !has_file(first, place(dir)) && !first.contains_key(dest)
                    && !first.contains_key(part),
            }
        },
        Progress::Done(result) => result == create_outcome(root, invoice, first, m.world.nodes),
    }
}

proof fn lemma_create_findings(
    root: Seq<char>,
    invoice: InvoiceView,
    first: World,
    cache: Entries,
    m: CreateMoment,
    event: EventView,
    m2: CreateMoment,
)
    requires
        create_inv(root, invoice, first, cache, m),
        create_findings(root, invoice, first.nodes, m),
        steps(m, event, m2),
        went_well(event),
    ensures
        create_findings(root, invoice, first.nodes, m2),
{
    lemma_invoice_files(root, invoice.canonical_name());
    let op = m.op->Pending_0;
    match op.stage {
        CreateStage::CheckParcels => {
            let stats = event->StatedAll_0;
            let parcels = invoice.parcels();
            let paths = op.parcel_dirs();
            assert forall|i: int| 0 <= i < parcels.len() implies stat_answers(
                m.world.nodes,
                spec_parcel_path(root, (#[trigger] parcels[i]).label.sha256@),
                stats[i],
            ) by {
                assert(paths[i] == spec_parcel_path(root, parcels[i].label.sha256@));
            }
            lemma_missing_are_absent(root, parcels, stats, m.world.nodes);
        },
        _ => {},
    }
}

proof fn lemma_create_findings_run(
    root: Seq<char>,
    invoice: InvoiceView,
    run: Seq<CreateMoment>,
    events: Seq<EventView>,
    i: int,
)
    requires
        is_run(run, events),
        all_went_well(events),
        run[0].op == spec_start_create(root, invoice),
        0 <= i < run.len(),
    ensures
        create_findings(root, invoice, run[0].world.nodes, run[i]),
    decreases i,
{
    if i > 0 {
        lemma_create_findings_run(root, invoice, run, events, i - 1);
        lemma_create_run(root, invoice, run, events, i - 1);
        assert(steps(run[i - 1], events[i - 1], run[i]));
        lemma_create_findings(
            root,
            invoice,
            run[0].world,
            run[0].cache,
            run[i - 1],
            events[i - 1],
            run[i],
        );
    }
}

/// Where nothing goes wrong, what the store held before decides what the storing of an invoice
/// results in.
pub proof fn create_invoice_outcome(
    root: Seq<char>,
    invoice: InvoiceView,
    run: Seq<CreateMoment>,
    events: Seq<EventView>,
)
    requires
        is_run(run, events),
        all_went_well(events),
        run[0].op == spec_start_create(root, invoice),
        run.last().op is Done,
    ensures
        run.last().op == Progress::<CreateInvoiceView, CreateResultView>::Done(
            create_outcome(root, invoice, run[0].world.nodes, run.last().world.nodes),
        ),
{
    lemma_create_findings_run(root, invoice, run, events, run.len() - 1);
}

/// Once an invoice is stored, no other is stored under its name: as long as nothing is removed
/// and the looks at the store work, an attempt ends with `Exists` and changes nothing.
pub proof fn create_invoice_twice_is_refused(
    root: Seq<char>,
    invoice: InvoiceView,
    run: Seq<CreateMoment>,
    events: Seq<EventView>,
    again: InvoiceView,
    rerun: Seq<CreateMoment>,
    reevents: Seq<EventView>,
)
    requires
        is_run(run, events),
        run[0].op == spec_start_create(root, invoice),
        run.last().op matches Progress::Done(Ok(_)),
        again.canonical_name() == invoice.canonical_name(),
        !again.is_yanked(),
        is_run(rerun, reevents),
        looks_worked(reevents),
        rerun[0].op == spec_start_create(root, again),
        nothing_removed(run.last().world.nodes, rerun[0].world.nodes),
        rerun.last().op is Done,
    ensures
        rerun.last().op == Progress::<CreateInvoiceView, CreateResultView>::Done(
            Err(ProviderError::Exists),
        ),
        rerun.last().world.nodes == rerun[0].world.nodes,
{
    create_invoice_result_tells(root, invoice, run, events);
    lemma_invoice_files(root, invoice.canonical_name());
    let dir = spec_invoice_path(root, invoice.canonical_name());
    let dest = spec_invoice_toml_path(root, invoice.canonical_name());
    let stored = run.last().world.nodes;
    assert(stored.contains_key(place(dir)) && stored.contains_key(dest));
    assert(reevents.len() > 0);
    assert(steps(rerun[0], reevents[0], rerun[1]));
    assert(reevents.len() > 1);
    assert(steps(rerun[1], reevents[1], rerun[2]));
    if reevents.len() > 2 {
        assert(steps(rerun[2], reevents[2], rerun[3]));
    }
}

/// Whether the part file has been made and not yet been given its proper name.
pub open spec fn is_writing(op: Progress<CreateInvoiceView, CreateResultView>) -> bool {
    match op {
        Progress::Pending(op) => op.stage is Encode || op.stage is WritePart || op.stage is Publish,
        Progress::Done(_) => false,
    }
}

/// While an invoice is being written, and also when the writing was broken off, an attempt to
/// store it ends with `WriteInProgress`.
pub proof fn create_invoice_is_in_progress(
    root: Seq<char>,
    invoice: InvoiceView,
    run: Seq<CreateMoment>,
    events: Seq<EventView>,
    i: int,
    again: InvoiceView,
    rerun: Seq<CreateMoment>,
    reevents: Seq<EventView>,
)
    requires
        is_run(run, events),
        all_went_well(events),
        run[0].op == spec_start_create(root, invoice),
        0 <= i < run.len(),
        is_writing(run[i].op),
        again.canonical_name() == invoice.canonical_name(),
        !again.is_yanked(),
        is_run(rerun, reevents),
        all_went_well(reevents),
        rerun[0].op == spec_start_create(root, again),
        rerun[0].world.nodes == run[i].world.nodes,
        rerun.last().op is Done,
    ensures
        rerun.last().op == Progress::<CreateInvoiceView, CreateResultView>::Done(
            Err(ProviderError::WriteInProgress),
        ),
{
    lemma_create_run(root, invoice, run, events, i);
    lemma_create_findings_run(root, invoice, run, events, i);
    create_invoice_outcome(root, again, rerun, reevents);
    lemma_invoice_files(root, invoice.canonical_name());
    let dir = spec_invoice_path(root, invoice.canonical_name());
    let dest = spec_invoice_toml_path(root, invoice.canonical_name());
    lemma_place(dir);
    assert(place(dir) != dest && place(dir) != spec_part_path(dest));
}

/// The search index is told of a new invoice only once the invoice is in the store.
pub proof fn index_is_told_after_the_fact(
    root: Seq<char>,
    invoice: InvoiceView,
    run: Seq<CreateMoment>,
    events: Seq<EventView>,
    i: int,
)
    requires
        is_run(run, events),
        run[0].op == spec_start_create(root, invoice),
        0 <= i < run.len(),
        run[i].op matches Progress::Pending(op) && op.action() is Index,
    ensures
        run[i].op->Pending_0.action() == (ActionView::Index { invoice }),
        stores(
            run[i].world,
            spec_invoice_toml_path(root, invoice.canonical_name()),
            invoice,
        ),
{
    lemma_create_run(root, invoice, run, events, i);
}

proof fn lemma_index_was_told(
    root: Seq<char>,
    invoice: InvoiceView,
    run: Seq<CreateMoment>,
    events: Seq<EventView>,
    i: int,
) -> (j: int)
    requires
        is_run(run, events),
        run[0].op == spec_start_create(root, invoice),
        0 <= i < run.len(),
        run[i].op matches Progress::Done(Ok(_)) || (run[i].op matches Progress::Pending(op)
            && op.stage is CheckParcels),
    ensures
        0 <= j < i,
        run[j].op matches Progress::Pending(op) && op.stage is Index,
    decreases i,
{
    assert(steps(run[i - 1], events[i - 1], run[i]));
    let op = run[i - 1].op->Pending_0;
    if op.stage is Index {
        i - 1
    } else {
        assert(op.stage is CheckParcels);
        lemma_index_was_told(root, invoice, run, events, i - 1)
    }
}

proof fn lemma_nothing_after_index(
    run: Seq<CreateMoment>,
    events: Seq<EventView>,
    i: int,
    j: int,
)
    requires
        is_run(run, events),
        0 <= i < j < run.len(),
        tells_index(run[i]),
    ensures
        match run[j].op {
            Progress::Pending(op) => op.stage is CheckParcels,
            Progress::Done(result) => result is Ok,
        },
    decreases j,
{
    assert(steps(run[j - 1], events[j - 1], run[j]));
    if i < j - 1 {
        lemma_nothing_after_index(run, events, i, j - 1);
    }
}

/// Success means that the search index was told of the invoice, exactly once.
pub proof fn created_invoice_is_indexed(
    root: Seq<char>,
    invoice: InvoiceView,
    run: Seq<CreateMoment>,
    events: Seq<EventView>,
) -> (j: int)
    requires
        is_run(run, events),
        run[0].op == spec_start_create(root, invoice),
        run.last().op matches Progress::Done(Ok(_)),
    ensures
        0 <= j < events.len(),
        asks_for(run[j], ActionView::Index { invoice }),
        forall|k: int| 0 <= k < run.len() && tells_index(#[trigger] run[k]) ==> k == j,
{
    let j = lemma_index_was_told(root, invoice, run, events, run.len() - 1);
    lemma_create_run(root, invoice, run, events, j);
    assert forall|k: int| 0 <= k < run.len() && tells_index(#[trigger] run[k]) implies k == j by {
        if k < j {
            lemma_nothing_after_index(run, events, k, j);
        } else if j < k {
            lemma_nothing_after_index(run, events, j, k);
        }
    }
    j
}

/// An invoice that could not be created is none that the search index was told of.
pub proof fn refused_invoice_is_not_indexed(
    root: Seq<char>,
    invoice: InvoiceView,
    run: Seq<CreateMoment>,
    events: Seq<EventView>,
)
    requires
        is_run(run, events),
        run[0].op == spec_start_create(root, invoice),
        run.last().op matches Progress::Done(Err(_)),
    ensures
        forall|k: int| 0 <= k < run.len() ==> !tells_index(#[trigger] run[k]),
{
    assert forall|k: int| 0 <= k < run.len() implies !tells_index(#[trigger] run[k]) by {
        if tells_index(run[k]) && k < run.len() - 1 {
            lemma_nothing_after_index(run, events, k, run.len() - 1);
        }
    }
}

/// Where nothing stands in the way, an invoice can be stored: there is a run in which nothing
/// goes wrong and that ends well.
pub proof fn create_invoice_can_succeed(
    root: Seq<char>,
    invoice: InvoiceView,
    world: World,
    cache: Entries,
) -> (end: (Seq<CreateMoment>, Seq<EventView>))
    requires
        !invoice.is_yanked(),
        !world.nodes.contains_key(place(spec_invoice_path(root, invoice.canonical_name()))),
        forall|p: Seq<char>| #[trigger]
            on_the_way(spec_invoice_path(root, invoice.canonical_name()), p)
                && world.nodes.contains_key(p) ==> world.nodes[p] is Dir,
        !world.nodes.contains_key(spec_invoice_toml_path(root, invoice.canonical_name())),
        !world.nodes.contains_key(
            spec_part_path(spec_invoice_toml_path(root, invoice.canonical_name())),
        ),
        (world.parse)((world.print)(invoice)) == Some(invoice),
    ensures
        is_run(end.0, end.1),
        all_went_well(end.1),
        end.0[0].op == spec_start_create(root, invoice),
        end.0[0].world == world,
        end.0.last().op matches Progress::Done(Ok(_)),
{
    let dir = spec_invoice_path(root, invoice.canonical_name());
    let dest = spec_invoice_toml_path(root, invoice.canonical_name());
    let part = spec_part_path(dest);
    lemma_invoice_files(root, invoice.canonical_name());
    let document = (world.print)(invoice);
    let absent: Result<FileKind, IoError> = Err(
        IoError { kind: IoErrorKind::NotFound, raw_os_error: None, message: arbitrary() },
    );
    let start = seq![Moment { op: spec_start_create(root, invoice), world, cache }];
    let none: Seq<EventView> = seq![];
    // The directory is not there, and is made.
    let (r, e) = lemma_extend::<CreateInvoiceView>(start, none, EventView::Stated(absent), world);
    let (r, e) = lemma_extend::<CreateInvoiceView>(r, e, EventView::Stated(absent), world);
    let made = World { nodes: with_way(world.nodes, dir), ..world };
    lemma_with_way(world.nodes, dir);
    let (r, e) = lemma_extend::<CreateInvoiceView>(r, e, EventView::Finished(Ok(())), made);
    // Neither the invoice nor the part file is there.
    let (r, e) = lemma_extend::<CreateInvoiceView>(r, e, EventView::Stated(absent), made);
    let (r, e) = lemma_extend::<CreateInvoiceView>(r, e, EventView::Stated(absent), made);
    let (r, e) = lemma_extend::<CreateInvoiceView>(r, e, EventView::Stated(absent), made);
    // The part file is made and written.
    let opened = World {
        nodes: made.nodes.insert(part, Node::File { data: Seq::empty() }),
        held: Some(part),
        pos: 0,
        ..made
    };
    let (r, e) = lemma_extend::<CreateInvoiceView>(r, e, EventView::Finished(Ok(())), opened);
    let (r, e) = lemma_extend::<CreateInvoiceView>(r, e, EventView::Encoded(Ok(document)), opened);
    assert(document.take(document.len() as int) =~= document);
    assert(opened.holds_file());
    let written = opened.wrote(document.take(document.len() as int));
    let (r, e) = lemma_extend::<CreateInvoiceView>(r, e, EventView::Finished(Ok(())), written);
    // It gets its proper name, the index is told, and the parcels are looked for.
    let published = World {
        nodes: written.nodes.remove(part).insert(dest, written.nodes[part]),
        ..written
    };
    let (r, e) = lemma_extend::<CreateInvoiceView>(r, e, EventView::Finished(Ok(())), published);
    let (r, e) = lemma_extend::<CreateInvoiceView>(r, e, EventView::Indexed, published);
    if invoice.parcel is None {
        (r, e)
    } else {
        let dirs = r.last().op->Pending_0.parcel_dirs();
        let stats = Seq::new(
            dirs.len(),
            |i: int|
                if published.nodes.contains_key(place(dirs[i])) {
                    Ok(published.nodes[place(dirs[i])].kind())
                } else {
                    absent
                },
        );
        lemma_extend::<CreateInvoiceView>(r, e, EventView::StatedAll(stats), published)
    }
}

/// A call that fails ends the storing right there with that very failure, and an invoice that
/// cannot be written out with the reason for it. A look that fails ends nothing: it counts as
/// having found nothing. Anything at the place of the invoice's file ends it with `Exists`, and
/// anything at the part path with `WriteInProgress`.
pub proof fn create_invoice_failure_ends_it(
    root: Seq<char>,
    invoice: InvoiceView,
    run: Seq<CreateMoment>,
    events: Seq<EventView>,
    i: int,
)
    requires
        is_run(run, events),
        run[0].op == spec_start_create(root, invoice),
        0 <= i < events.len(),
    ensures
        events[i] matches EventView::Finished(Err(e)) ==> i == events.len() - 1 && run[i + 1].op
            == Progress::<CreateInvoiceView, CreateResultView>::Done(Err(ProviderError::Io(e))),
        events[i] matches EventView::Encoded(Err(m)) ==> i == events.len() - 1 && run[i + 1].op
            == Progress::<CreateInvoiceView, CreateResultView>::Done(
            Err(ProviderError::Unserializable(m)),
        ),
        events[i] matches EventView::Stated(Err(_)) ==> run[i + 1].op is Pending,
        (events[i] matches EventView::Stated(Ok(_))) && asks_for(
            run[i],
            ActionView::Stat { path: spec_invoice_toml_path(root, invoice.canonical_name()) },
        ) ==> i == events.len() - 1 && run[i + 1].op == Progress::<
            CreateInvoiceView,
            CreateResultView,
        >::Done(Err(ProviderError::Exists)),
        (events[i] matches EventView::Stated(Ok(_))) && asks_for(
            run[i],
            ActionView::Stat {
                path: spec_part_path(spec_invoice_toml_path(root, invoice.canonical_name())),
            },
        ) ==> i == events.len() - 1 && run[i + 1].op == Progress::<
            CreateInvoiceView,
            CreateResultView,
        >::Done(Err(ProviderError::WriteInProgress)),
{
    lemma_create_run(root, invoice, run, events, i);
    lemma_invoice_files(root, invoice.canonical_name());
    assert(steps(run[i], events[i], run[i + 1]));
    if i + 1 < events.len() {
        assert(steps(run[i + 1], events[i + 1], run[i + 2]));
    }
}

/// An error has one of five reasons, and the last answer shows which. That the invoice is yanked
/// is seen without any answer. `Exists` means that something is at the place of the invoice's
/// file, or a file at the place of its directory, and `WriteInProgress` that something is at the
/// part path.
pub proof fn create_invoice_error_tells_why(
    root: Seq<char>,
    invoice: InvoiceView,
    run: Seq<CreateMoment>,
    events: Seq<EventView>,
)
    requires
        is_run(run, events),
        run[0].op == spec_start_create(root, invoice),
        run.last().op matches Progress::Done(Err(_)),
    ensures
        ({
            let dir = spec_invoice_path(root, invoice.canonical_name());
            let dest = spec_invoice_toml_path(root, invoice.canonical_name());
            let last = events.len() - 1;
            match run.last().op->Done_0->Err_0 {
                ProviderError::CreateYanked => invoice.yanked == Some(true) && events.len() == 0,
                ProviderError::Exists => events.len() > 0 && ({
                    ||| (events[last] matches EventView::Stated(Ok(_))) && asks_for(
                        run[last],
                        ActionView::Stat { path: dest },
                    )
                    ||| (events[last] matches EventView::Stated(Ok(k)) && k is File) && asks_for(
                        run[last],
                        ActionView::Stat { path: dir },
                    )
                }),
                ProviderError::WriteInProgress => events.len() > 0 && (
                events[last] matches EventView::Stated(Ok(_))) && asks_for(
                    run[last],
                    ActionView::Stat { path: spec_part_path(dest) },
                ),
                ProviderError::Io(e) => events.len() > 0 && events[last] == EventView::Finished(
                    Err(e),
                ),
                ProviderError::Unserializable(m) => events.len() > 0 && events[last]
                    == EventView::Encoded(Err(m)),
                _ => false,
            }
        }),
{
    if events.len() > 0 {
        let last = events.len() - 1;
        lemma_create_run(root, invoice, run, events, last);
        assert(steps(run[last], events[last], run[last + 1]));
    }
}

/// The labels that a storing results in are those of the parcels in the invoice's list at whose
/// directory the last look found no directory: all of these, each as often as it is listed, in the
/// order of the list. An invoice without a list has none.
pub proof fn created_invoice_names_the_missing(
    root: Seq<char>,
    invoice: InvoiceView,
    run: Seq<CreateMoment>,
    events: Seq<EventView>,
)
    requires
        is_run(run, events),
        run[0].op == spec_start_create(root, invoice),
        run.last().op matches Progress::Done(Ok(_)),
    ensures
        ({
            let labels = run.last().op->Done_0->Ok_0;
            match invoice.parcel {
                None => labels.len() == 0,
                Some(ps) => {
                    let last = events.len() - 1;
                    let stats = events[last]->StatedAll_0;
                    &&& events.len() > 0
                    &&& events[last] is StatedAll
                    &&& stats.len() == ps.len()
                    &&& asks_for(
                        run[last],
                        ActionView::StatAll {
                            paths: Seq::new(
                                ps.len(),
                                |i: int| spec_parcel_path(root, ps[i].label.sha256@),
                            ),
                        },
                    )
                    &&& labels == Seq::new(ps.len(), |i: int| i).filter(
                        |i: int| stats[i] != Ok::<FileKind, IoError>(FileKind::Dir),
                    ).map_values(|i: int| ps[i].label)
                },
            }
        }),
{
    let last = events.len() - 1;
    assert(events.len() > 0);
    lemma_create_run(root, invoice, run, events, last);
    assert(steps(run[last], events[last], run[last + 1]));
    if let Some(ps) = invoice.parcel {
        let op = run[last].op->Pending_0;
        parcels_are_the_list(invoice);
        assert(op.parcel_dirs() =~= Seq::new(
            ps.len(),
            |i: int| spec_parcel_path(root, ps[i].label.sha256@),
        ));
        missing_are_those_without_a_directory(ps, events[last]->StatedAll_0);
    }
}

proof fn lemma_absent_are_missing(
    root: Seq<char>,
    ps: Seq<Parcel>,
    nodes: Nodes,
    stats: Seq<Result<FileKind, IoError>>,
)
    requires
        ps.len() <= stats.len(),
        forall|i: int|
            0 <= i < ps.len() ==> (#[trigger] stats[i] == Ok::<FileKind, IoError>(FileKind::Dir)
                <==> has_dir(nodes, place(spec_parcel_path(root, ps[i].label.sha256@)))),
    ensures
        absent_labels(root, ps, nodes) == missing_labels(ps, stats),
    decreases ps.len(),
{
    if ps.len() > 0 {
        let shorter = ps.drop_last();
        let last = ps.len() - 1;
        assert forall|i: int| 0 <= i < shorter.len() implies (#[trigger] stats[i] == Ok::<
            FileKind,
            IoError,
        >(FileKind::Dir) <==> has_dir(
            nodes,
            place(spec_parcel_path(root, shorter[i].label.sha256@)),
        )) by {
            assert(shorter[i] == ps[i]);
        }
        lemma_absent_are_missing(root, shorter, nodes, stats);
        assert(stats[last] == stats[last]);
        assert(ps.last() == ps[last]);
    }
}

/// Where nothing goes wrong, what the invoice says and what the store holds decide how storing it
/// ends. An invoice marked as yanked is refused. One is there already if there is anything at the
/// place of its file, or a file at the place of its directory. Someone else is writing it if there
/// is anything at the part path. Otherwise it is stored, and the result names every parcel in its
/// list without a directory in the store, and nothing else.
pub proof fn create_invoice_is_decided_by(
    root: Seq<char>,
    invoice: InvoiceView,
    run: Seq<CreateMoment>,
    events: Seq<EventView>,
)
    requires
        is_run(run, events),
        all_went_well(events),
        run[0].op == spec_start_create(root, invoice),
        run.last().op is Done,
    ensures
        ({
            let dir = place(spec_invoice_path(root, invoice.bindle.id.sha@));
            let dest = spec_invoice_toml_path(root, invoice.bindle.id.sha@);
            let before = run[0].world.nodes;
            let after = run.last().world.nodes;
            let result = run.last().op->Done_0;
            if invoice.yanked == Some(true) {
                result == Err::<Seq<Label>, ProviderError>(ProviderError::CreateYanked)
            } else if before.contains_key(dest) || (before.contains_key(dir)
                && before[dir] is File) {
                result == Err::<Seq<Label>, ProviderError>(ProviderError::Exists)
            } else if before.contains_key(dest + ".part"@) {
                result == Err::<Seq<Label>, ProviderError>(ProviderError::WriteInProgress)
            } else {
                &&& result is Ok
                &&& invoice.parcel is None ==> result->Ok_0.len() == 0
                &&& invoice.parcel matches Some(ps) ==> {
                    &&& forall|i: int|
                        0 <= i < ps.len() && !(after.contains_key(
                            place(spec_parcel_path(root, (#[trigger] ps[i]).label.sha256@)),
                        ) && after[place(spec_parcel_path(root, ps[i].label.sha256@))] is Dir)
                            ==> result->Ok_0.contains(ps[i].label)
                    &&& forall|label: Label| #[trigger]
                        result->Ok_0.contains(label) ==> exists|i: int|
                            0 <= i < ps.len() && (#[trigger] ps[i]).label == label && !(
                            after.contains_key(
                                place(spec_parcel_path(root, ps[i].label.sha256@)),
                            ) && after[place(spec_parcel_path(root, ps[i].label.sha256@))] is Dir)
                }
            }
        }),
{
    create_invoice_outcome(root, invoice, run, events);
    lemma_invoice_files(root, invoice.canonical_name());
    only_the_mark_makes_yanked(invoice);
    let dest = spec_invoice_toml_path(root, invoice.bindle.id.sha@);
    let after = run.last().world.nodes;
    reveal_strlit(".part");
    reveal_strlit("part");
    assert(dest.push('.') + "part"@ =~= dest + ".part"@);
    if let Some(ps) = invoice.parcel {
        parcels_are_the_list(invoice);
        let stats = Seq::new(
            ps.len(),
            |i: int|
                if has_dir(after, place(spec_parcel_path(root, ps[i].label.sha256@))) {
                    Ok::<FileKind, IoError>(FileKind::Dir)
                } else {
                    Ok::<FileKind, IoError>(FileKind::Other)
                },
        );
        lemma_absent_are_missing(root, ps, after, stats);
        missing_are_those_without_a_directory(ps, stats);
        let labels = absent_labels(root, ps, after);
        assert forall|i: int|
            0 <= i < ps.len() && !has_dir(
                after,
                place(spec_parcel_path(root, (#[trigger] ps[i]).label.sha256@)),
            ) implies labels.contains(ps[i].label) by {
            assert(stats[i] != Ok::<FileKind, IoError>(FileKind::Dir));
        }
        assert forall|label: Label| #[trigger] labels.contains(label) implies exists|i: int|
            0 <= i < ps.len() && (#[trigger] ps[i]).label == label && !has_dir(
                after,
                place(spec_parcel_path(root, ps[i].label.sha256@)),
            ) by {
            let i = choose|i: int|
                0 <= i < ps.len() && ps[i].label == label && (#[trigger] stats[i]) != Ok::<
                    FileKind,
                    IoError,
                >(FileKind::Dir);
            assert(ps[i].label == label);
        }
    }
}

/// Where in a run the stages up to the making of the part file are.
proof fn lemma_create_positions(
    root: Seq<char>,
    invoice: InvoiceView,
    run: Seq<CreateMoment>,
    events: Seq<EventView>,
    i: int,
)
    requires
        is_run(run, events),
        run[0].op == spec_start_create(root, invoice),
        0 <= i < run.len(),
    ensures
        run[i].op matches Progress::Pending(op) ==> match op.stage {
            CreateStage::DirCheck => i == 0,
            CreateStage::DirRecheck => i == 1,
            CreateStage::MakeDir => i == 2,
            CreateStage::DestCheck => i == 1 || i == 3,
            CreateStage::PartCheck => i == 2 || i == 4,
            CreateStage::PartRecheck => i == 3 || i == 5,
            CreateStage::OpenPart => i == 4 || i == 6,
            CreateStage::Encode => i == 5 || i == 7,
            CreateStage::WritePart => i == 6 || i == 8,
            CreateStage::Publish => i == 7 || i == 9,
            CreateStage::Index => i == 8 || i == 10,
            CreateStage::CheckParcels => i == 9 || i == 11,
        },
    decreases i,
{
    if i > 0 {
        lemma_create_positions(root, invoice, run, events, i - 1);
        assert(steps(run[i - 1], events[i - 1], run[i]));
    }
}

/// The directory is made only after two looks at its place, of which the first found no directory
/// and the second no file. The part file is made only after a look at the place of the invoice's
/// file and two looks at the part path, right before, none of which found anything.
pub proof fn create_invoice_looks_before_it_acts(
    root: Seq<char>,
    invoice: InvoiceView,
    run: Seq<CreateMoment>,
    events: Seq<EventView>,
    i: int,
)
    requires
        is_run(run, events),
        run[0].op == spec_start_create(root, invoice),
        0 <= i < run.len(),
    ensures
        ({
            let dir = spec_invoice_path(root, invoice.bindle.id.sha@);
            let dest = spec_invoice_toml_path(root, invoice.bindle.id.sha@);
            let part = spec_part_path(dest);
            &&& (run[i].op matches Progress::Pending(op) && op.action() is CreateDirAll) ==> {
                &&& i == 2
                &&& asks_for(run[i], ActionView::CreateDirAll { path: dir })
                &&& asks_for(run[0], ActionView::Stat { path: dir })
                &&& asks_for(run[1], ActionView::Stat { path: dir })
                &&& events[0] != EventView::Stated(Ok(FileKind::Dir))
                &&& events[1] != EventView::Stated(Ok(FileKind::File))
            }
            &&& (run[i].op matches Progress::Pending(op) && op.action() is CreateNew) ==> {
                &&& i >= 4
                &&& asks_for(run[i], ActionView::CreateNew { path: part })
                &&& asks_for(run[i - 1], ActionView::Stat { path: part })
                &&& asks_for(run[i - 2], ActionView::Stat { path: part })
                &&& asks_for(run[i - 3], ActionView::Stat { path: dest })
                &&& events[i - 1] matches EventView::Stated(Err(_))
                &&& events[i - 2] matches EventView::Stated(Err(_))
                &&& events[i - 3] matches EventView::Stated(Err(_))
            }
        }),
{
    lemma_create_positions(root, invoice, run, events, i);
    lemma_create_run(root, invoice, run, events, i);
    if i > 0 {
        lemma_create_run(root, invoice, run, events, i - 1);
        assert(steps(run[i - 1], events[i - 1], run[i]));
        if i > 1 {
            lemma_create_run(root, invoice, run, events, i - 2);
            assert(steps(run[i - 2], events[i - 2], run[i - 1]));
            if i > 2 {
                lemma_create_run(root, invoice, run, events, i - 3);
                assert(steps(run[i - 3], events[i - 3], run[i - 2]));
            }
        }
    }
}

} // verus!
