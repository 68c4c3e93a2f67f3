//! What holds of every storing of a parcel, and of looking for the parcel afterwards.

use crate::cache::Entries;
use crate::create_invoice_laws::only_touches;
use crate::create_parcel::{is_parcel_data, spec_start_parcel, CreateParcelView, ParcelStage};
use crate::digest::{sha256, spec_lower_hex};
use crate::effect::{ActionView, EventView, FileKind, Progress};
use crate::error::{IoError, IoErrorKind, ProviderError};
use crate::invoice::Id;
use crate::layout::{lemma_parcel_files, spec_parcel_data_path, spec_parcel_path};
use crate::meaning_laws::parcel_data_has_the_digest;
use crate::path::spec_part_path;
use crate::world::{all_went_well, asks_for, has_data, has_dir, is_run, lemma_extend, lemma_place, lemma_with_way, looks_worked, nothing_removed, on_the_way, overwritten, place, same_at, starts_with, steps, went_well, with_way, Moment, Node, Nodes, World};
use vstd::prelude::*;

verus! {

/// A moment in the storing of a parcel.
pub type ParcelMoment = Moment<CreateParcelView, Result<(), ProviderError>>;

/// The beginning of the storing of a parcel.
pub open spec fn parcel_starts(
    root: Seq<char>,
    bindle_id: Id,
    parcel_id: Seq<char>,
    m: ParcelMoment,
) -> bool {
    m.op == Progress::<CreateParcelView, Result<(), ProviderError>>::Pending(
        spec_start_parcel(root, bindle_id, parcel_id),
    )
}

/// What is true whenever a parcel is being stored.
spec fn parcel_inv(
    root: Seq<char>,
    parcel_id: Seq<char>,
    first: World,
    cache: Entries,
    m: ParcelMoment,
) -> bool {
    let dir = spec_parcel_path(root, parcel_id);
    let dest = spec_parcel_data_path(root, parcel_id);
    let part = spec_part_path(dest);
    let nodes = m.world.nodes;
    let incoming = first.incoming;
    &&& m.world.incoming == incoming
    &&& m.cache == cache
    &&& only_touches(first.nodes, nodes, dir, dest, part)
    &&& match m.op {
        Progress::Pending(op) => {
            &&& op.root == root
            &&& op.parcel_id == parcel_id
            &&& match op.stage {
                ParcelStage::Validate | ParcelStage::DirCheck | ParcelStage::MakeDir => nodes
                    == first.nodes,
                ParcelStage::PartCheck | ParcelStage::OpenPart => {
                    &&& has_dir(nodes, place(dir))
                    &&& same_at(first.nodes, nodes, dest)
                    &&& same_at(first.nodes, nodes, part)
                },
                ParcelStage::Copy => {
                    &&& has_dir(nodes, place(dir))
                    &&& same_at(first.nodes, nodes, dest)
                    &&& has_data(nodes, part, Seq::empty())
                    &&& m.world.held == Some(part)
                    &&& m.world.pos == 0
                },
                ParcelStage::Flush | ParcelStage::Rewind => {
                    &&& has_dir(nodes, place(dir))
                    &&& same_at(first.nodes, nodes, dest)
                    &&& has_data(nodes, part, incoming)
                    &&& m.world.held == Some(part)
                },
                ParcelStage::Verify => {
                    &&& has_dir(nodes, place(dir))
                    &&& same_at(first.nodes, nodes, dest)
                    &&& has_data(nodes, part, incoming)
                    &&& m.world.held == Some(part)
                    &&& m.world.pos == 0
                },
                ParcelStage::Publish => {
                    &&& has_dir(nodes, place(dir))
                    &&& same_at(first.nodes, nodes, dest)
                    &&& has_data(nodes, part, incoming)
                    &&& is_parcel_data(incoming, parcel_id)
                },
            }
        },
        Progress::Done(Ok(_)) => {
            &&& has_dir(nodes, place(dir))
            &&& has_data(nodes, dest, incoming)
            &&& is_parcel_data(incoming, parcel_id)
            &&& !nodes.contains_key(part)
        },
        Progress::Done(Err(e)) => same_at(first.nodes, nodes, dest),
    }
}

proof fn lemma_parcel_step(
    root: Seq<char>,
    parcel_id: Seq<char>,
    first: World,
    cache: Entries,
    m: ParcelMoment,
    event: EventView,
    m2: ParcelMoment,
)
    requires
        parcel_inv(root, parcel_id, first, cache, m),
        steps(m, event, m2),
    ensures
        parcel_inv(root, parcel_id, first, cache, m2),
{
    let dir = spec_parcel_path(root, parcel_id);
    let dest = spec_parcel_data_path(root, parcel_id);
    let part = spec_part_path(dest);
    lemma_parcel_files(root, parcel_id);
    lemma_place(dir);
    assert(!starts_with(dir, dest) && !starts_with(dir, part) && dest != part && place(dir) != dest
        && place(dir) != part);
    let op = m.op->Pending_0;
    assert(op.dir() == dir && op.dest() == dest && op.part() == part);
    match op.stage {
        ParcelStage::Copy => {
            let done = event->Finished_0;
            let data = first.incoming;
            assert(m.world.holds_file());
            let n = choose|n: int|
                0 <= n <= data.len() && (done is Ok ==> n == data.len()) && m2.world
                    == #[trigger] m.world.wrote(data.take(n));
            assert(data.take(data.len() as int) =~= data);
            assert(overwritten(m.world.held_data(), 0, data.take(n)) =~= data.take(n));
        },
        ParcelStage::Verify => {
            assert(m.world.held_data().skip(0) =~= first.incoming);
        },
        _ => {},
    }
}

proof fn lemma_parcel_run(
    root: Seq<char>,
    bindle_id: Id,
    parcel_id: Seq<char>,
    run: Seq<ParcelMoment>,
    events: Seq<EventView>,
    i: int,
)
    requires
        is_run(run, events),
        parcel_starts(root, bindle_id, parcel_id, run[0]),
        0 <= i < run.len(),
    ensures
        parcel_inv(root, parcel_id, run[0].world, run[0].cache, run[i]),
    decreases i,
{
    if i > 0 {
        lemma_parcel_run(root, bindle_id, parcel_id, run, events, i - 1);
        assert(steps(run[i - 1], events[i - 1], run[i]));
        lemma_parcel_step(
            root,
            parcel_id,
            run[0].world,
            run[0].cache,
            run[i - 1],
            events[i - 1],
            run[i],
        );
    }
}

/// At every moment the parcel's file is either as it was before or holds all of the data that
/// came in, whose digest is the parcel's name, whatever goes wrong on the way. Nothing else in
/// the store changes but for the part file and new directories, and the cache is left alone.
pub proof fn create_parcel_is_atomic(
    root: Seq<char>,
    bindle_id: Id,
    parcel_id: Seq<char>,
    run: Seq<ParcelMoment>,
    events: Seq<EventView>,
    i: int,
)
    requires
        is_run(run, events),
        parcel_starts(root, bindle_id, parcel_id, run[0]),
        0 <= i < run.len(),
    ensures
        ({
            let dir = spec_parcel_path(root, parcel_id);
            let dest = spec_parcel_data_path(root, parcel_id);
            let data = run[0].world.incoming;
            &&& same_at(run[0].world.nodes, run[i].world.nodes, dest) || (has_data(
                run[i].world.nodes,
                dest,
                data,
            ) && is_parcel_data(data, parcel_id))
            &&& only_touches(
                run[0].world.nodes,
                run[i].world.nodes,
                dir,
                dest,
                spec_part_path(dest),
            )
            &&& run[i].cache == run[0].cache
        }),
{
    lemma_parcel_run(root, bindle_id, parcel_id, run, events, i);
}

/// Success means that the parcel's file holds the data that came in, that the digest of the data
/// is the parcel's name, and that the part file is gone. An error means that the parcel's file
/// is as it was before.
pub proof fn create_parcel_result_tells(
    root: Seq<char>,
    bindle_id: Id,
    parcel_id: Seq<char>,
    run: Seq<ParcelMoment>,
    events: Seq<EventView>,
)
    requires
        is_run(run, events),
        parcel_starts(root, bindle_id, parcel_id, run[0]),
    ensures
        ({
            let dest = spec_parcel_data_path(root, parcel_id);
            let data = run[0].world.incoming;
            let after = run.last().world.nodes;
            match run.last().op {
                Progress::Pending(_) => true,
                Progress::Done(Ok(_)) => {
                    &&& has_data(after, dest, data)
                    &&& is_parcel_data(data, parcel_id)
                    &&& !after.contains_key(spec_part_path(dest))
                },
                Progress::Done(Err(_)) => same_at(run[0].world.nodes, after, dest),
            }
        }),
{
    lemma_parcel_run(root, bindle_id, parcel_id, run, events, run.len() - 1);
}

/// How many steps are left at most.
spec fn parcel_rank(stage: ParcelStage) -> int {
    match stage {
        ParcelStage::Validate => 10,
        ParcelStage::DirCheck => 9,
        ParcelStage::MakeDir => 8,
        ParcelStage::PartCheck => 7,
        ParcelStage::OpenPart => 6,
        ParcelStage::Copy => 5,
        ParcelStage::Flush => 4,
        ParcelStage::Rewind => 3,
        ParcelStage::Verify => 2,
        ParcelStage::Publish => 1,
    }
}

proof fn lemma_parcel_rank(run: Seq<ParcelMoment>, events: Seq<EventView>, i: int)
    requires
        is_run(run, events),
        0 <= i < run.len(),
    ensures
        i <= 10,
        run[i].op matches Progress::Pending(op) ==> parcel_rank(op.stage) <= 10 - i,
    decreases i,
{
    if i > 0 {
        lemma_parcel_rank(run, events, i - 1);
        assert(steps(run[i - 1], events[i - 1], run[i]));
        let op = run[i - 1].op->Pending_0;
        assert(parcel_rank(op.stage) > 0);
        assert(run[i].op matches Progress::Pending(op2) ==> parcel_rank(op2.stage) < parcel_rank(
            op.stage,
        ));
    }
}

/// The storing of a parcel ends: each answer takes it further, and it takes no more than ten of
/// them.
pub proof fn create_parcel_ends(
    root: Seq<char>,
    bindle_id: Id,
    parcel_id: Seq<char>,
    run: Seq<ParcelMoment>,
    events: Seq<EventView>,
)
    requires
        is_run(run, events),
        parcel_starts(root, bindle_id, parcel_id, run[0]),
    ensures
        events.len() <= 10,
        events.len() == 10 ==> run.last().op is Done,
{
    lemma_parcel_rank(run, events, run.len() - 1);
}

/// What the storing of a parcel results in where nothing goes wrong: a parcel that the bindle
/// does not have is refused for the reason given; so is one whose directory is there already, or
/// that someone else is writing, as anything at the part path shows, or whose data has another
/// digest.
pub open spec fn parcel_outcome(
    root: Seq<char>,
    parcel_id: Seq<char>,
    validated: Result<(), ProviderError>,
    before: Nodes,
    data: Seq<u8>,
) -> Result<(), ProviderError> {
    if validated is Err {
        validated
    } else if has_dir(before, place(spec_parcel_path(root, parcel_id))) {
        Err(ProviderError::Exists)
    } else if before.contains_key(spec_part_path(spec_parcel_data_path(root, parcel_id))) {
        Err(ProviderError::WriteInProgress)
    } else if !is_parcel_data(data, parcel_id) {
        Err(ProviderError::DigestMismatch)
    } else {
        Ok(())
    }
}

/// What has been found out at each stage, where nothing went wrong.
spec fn parcel_findings(
    root: Seq<char>,
    parcel_id: Seq<char>,
    validated: EventView,
    first: World,
    m: ParcelMoment,
) -> bool {
    let dir = spec_parcel_path(root, parcel_id);
    let part = spec_part_path(spec_parcel_data_path(root, parcel_id));
    match m.op {
        Progress::Pending(op) => match op.stage {
            ParcelStage::Validate => true,
            ParcelStage::DirCheck => accepted(validated),
            ParcelStage::MakeDir | ParcelStage::PartCheck => {
                &&& accepted(validated)
                &&& !has_dir(first.nodes, place(dir))
            },
            _ => {
                &&& accepted(validated)
                &&& !has_dir(first.nodes, place(dir))
                &&& !first.nodes.contains_key(part)
            },
        },
        Progress::Done(result) => {
            &&& validated is Validated
            &&& result == parcel_outcome(
                root,
                parcel_id,
                validated->Validated_0,
                first.nodes,
                first.incoming,
            )
        },
    }
}

proof fn lemma_parcel_findings_run(
    root: Seq<char>,
    bindle_id: Id,
    parcel_id: Seq<char>,
    run: Seq<ParcelMoment>,
    events: Seq<EventView>,
    i: int,
)
    requires
        is_run(run, events),
        all_went_well(events),
        parcel_starts(root, bindle_id, parcel_id, run[0]),
        0 <= i < run.len(),
    ensures
        parcel_findings(root, parcel_id, events[0], run[0].world, run[i]),
        i > 0 ==> !(run[i].op matches Progress::Pending(op) && op.stage is Validate),
    decreases i,
{
    if i > 0 {
        lemma_parcel_findings_run(root, bindle_id, parcel_id, run, events, i - 1);
        lemma_parcel_run(root, bindle_id, parcel_id, run, events, i - 1);
        let m = run[i - 1];
        let event = events[i - 1];
        assert(steps(m, event, run[i]));
        assert(went_well(event));
        let op = m.op->Pending_0;
        lemma_parcel_files(root, parcel_id);
        if op.stage is Verify {
            assert(m.world.held_data().skip(0) =~= run[0].world.incoming);
        }
    }
}

/// Where nothing goes wrong, the bindle's parcels, what the store held before and the data that
/// came in decide what the storing of a parcel results in.
pub proof fn create_parcel_outcome(
    root: Seq<char>,
    bindle_id: Id,
    parcel_id: Seq<char>,
    run: Seq<ParcelMoment>,
    events: Seq<EventView>,
)
    requires
        is_run(run, events),
        all_went_well(events),
        parcel_starts(root, bindle_id, parcel_id, run[0]),
        run.last().op is Done,
    ensures
        events.len() > 0,
        events[0] is Validated,
        run.last().op == Progress::<CreateParcelView, Result<(), ProviderError>>::Done(
            parcel_outcome(
                root,
                parcel_id,
                events[0]->Validated_0,
                run[0].world.nodes,
                run[0].world.incoming,
            ),
        ),
{
    lemma_parcel_findings_run(root, bindle_id, parcel_id, run, events, run.len() - 1);
}

/// The bindle has the parcel.
pub open spec fn accepted(validated: EventView) -> bool {
    validated matches EventView::Validated(v) && v is Ok
}

/// The directory of the parcel has been made.
pub open spec fn past_directory(op: Progress<CreateParcelView, Result<(), ProviderError>>) -> bool {
    match op {
        Progress::Pending(op) => !(op.stage is Validate || op.stage is DirCheck
            || op.stage is MakeDir),
        Progress::Done(result) => result is Ok,
    }
}

/// Once the directory of a parcel has been made, be it that the storing then ended well, failed
/// or was broken off, the parcel cannot be stored again, by whichever bindle: as long as nothing
/// is removed and the look at the store works, an attempt ends with `Exists` and changes nothing.
pub proof fn create_parcel_again_is_refused(
    root: Seq<char>,
    bindle_id: Id,
    parcel_id: Seq<char>,
    run: Seq<ParcelMoment>,
    events: Seq<EventView>,
    i: int,
    j: int,
    other_id: Id,
    rerun: Seq<ParcelMoment>,
    reevents: Seq<EventView>,
)
    requires
        is_run(run, events),
        parcel_starts(root, bindle_id, parcel_id, run[0]),
        0 <= i <= j < run.len(),
        past_directory(run[i].op),
        is_run(rerun, reevents),
        looks_worked(reevents),
        parcel_starts(root, other_id, parcel_id, rerun[0]),
        nothing_removed(run[j].world.nodes, rerun[0].world.nodes),
        rerun.last().op is Done,
        accepted(reevents[0]),
    ensures
        rerun.last().op == Progress::<CreateParcelView, Result<(), ProviderError>>::Done(
            Err(ProviderError::Exists),
        ),
        rerun.last().world.nodes == rerun[0].world.nodes,
{
    lemma_parcel_dir_stays(root, bindle_id, parcel_id, run, events, i, j);
    assert(run[j].world.nodes.contains_key(place(spec_parcel_path(root, parcel_id))));
    assert(reevents.len() > 0);
    assert(steps(rerun[0], reevents[0], rerun[1]));
    assert(reevents.len() > 1);
    assert(steps(rerun[1], reevents[1], rerun[2]));
    if reevents.len() > 2 {
        assert(steps(rerun[2], reevents[2], rerun[3]));
    }
}

proof fn lemma_parcel_dir_stays(
    root: Seq<char>,
    bindle_id: Id,
    parcel_id: Seq<char>,
    run: Seq<ParcelMoment>,
    events: Seq<EventView>,
    i: int,
    j: int,
)
    requires
        is_run(run, events),
        parcel_starts(root, bindle_id, parcel_id, run[0]),
        0 <= i <= j < run.len(),
        past_directory(run[i].op),
    ensures
        has_dir(run[j].world.nodes, place(spec_parcel_path(root, parcel_id))),
        run[j].op is Pending ==> past_directory(run[j].op),
    decreases j,
{
    lemma_parcel_run(root, bindle_id, parcel_id, run, events, j);
    if i < j {
        lemma_parcel_dir_stays(root, bindle_id, parcel_id, run, events, i, j - 1);
        lemma_parcel_run(root, bindle_id, parcel_id, run, events, j - 1);
        assert(steps(run[j - 1], events[j - 1], run[j]));
        lemma_parcel_files(root, parcel_id);
        let dir = place(spec_parcel_path(root, parcel_id));
        lemma_place(spec_parcel_path(root, parcel_id));
        let op = run[j - 1].op->Pending_0;
        assert(dir != op.dest() && dir != op.part());
        if op.stage is Copy {
            let w = run[j - 1].world;
            let done = events[j - 1]->Finished_0;
            let data = w.incoming;
            assert(w.holds_file());
            let n = choose|n: int|
                0 <= n <= data.len() && (done is Ok ==> n == data.len()) && run[j].world
                    == #[trigger] w.wrote(data.take(n));
            assert(run[j].world.nodes[dir] == w.nodes[dir]);
        }
    }
}

/// Where nothing stands in the way, a parcel of the bindle can be stored: there is a run in which
/// nothing goes wrong and that ends well.
pub proof fn create_parcel_can_succeed(
    root: Seq<char>,
    bindle_id: Id,
    parcel_id: Seq<char>,
    world: World,
    cache: Entries,
) -> (end: (Seq<ParcelMoment>, Seq<EventView>))
    requires
        is_parcel_data(world.incoming, parcel_id),
        !world.nodes.contains_key(place(spec_parcel_path(root, parcel_id))),
        forall|p: Seq<char>| #[trigger]
            on_the_way(spec_parcel_path(root, parcel_id), p) && world.nodes.contains_key(p)
                ==> world.nodes[p] is Dir,
        !world.nodes.contains_key(spec_parcel_data_path(root, parcel_id)),
        !world.nodes.contains_key(spec_part_path(spec_parcel_data_path(root, parcel_id))),
    ensures
        is_run(end.0, end.1),
        all_went_well(end.1),
        parcel_starts(root, bindle_id, parcel_id, end.0[0]),
        end.0[0].world == world,
        end.0.last().op matches Progress::Done(Ok(_)),
{
    let dir = spec_parcel_path(root, parcel_id);
    let dest = spec_parcel_data_path(root, parcel_id);
    let part = spec_part_path(dest);
    let data = world.incoming;
    lemma_parcel_files(root, parcel_id);
    let absent: Result<FileKind, IoError> = Err(
        IoError { kind: IoErrorKind::NotFound, raw_os_error: None, message: arbitrary() },
    );
    let start = seq![
        Moment {
            op: Progress::Pending(spec_start_parcel(root, bindle_id, parcel_id)),
            world,
            cache,
        },
    ];
    let none: Seq<EventView> = seq![];
    // The bindle has the parcel, whose directory is not there and is made.
    let (r, e) = lemma_extend::<CreateParcelView>(start, none, EventView::Validated(Ok(())), world);
    let (r, e) = lemma_extend::<CreateParcelView>(r, e, EventView::Stated(absent), world);
    let made = World { nodes: with_way(world.nodes, dir), ..world };
    lemma_with_way(world.nodes, dir);
    let (r, e) = lemma_extend::<CreateParcelView>(r, e, EventView::Finished(Ok(())), made);
    // The part file is made and written.
    let (r, e) = lemma_extend::<CreateParcelView>(r, e, EventView::Stated(absent), made);
    let opened = World {
        nodes: made.nodes.insert(part, Node::File { data: Seq::empty() }),
        held: Some(part),
        pos: 0,
        ..made
    };
    let (r, e) = lemma_extend::<CreateParcelView>(r, e, EventView::Finished(Ok(())), opened);
    assert(data.take(data.len() as int) =~= data);
    assert(opened.holds_file());
    let written = opened.wrote(data.take(data.len() as int));
    let (r, e) = lemma_extend::<CreateParcelView>(r, e, EventView::Finished(Ok(())), written);
    assert(overwritten(Seq::empty(), 0, data) =~= data);
    // It is read back, and gets its proper name.
    let (r, e) = lemma_extend::<CreateParcelView>(r, e, EventView::Finished(Ok(())), written);
    let rewound = World { pos: 0, ..written };
    let (r, e) = lemma_extend::<CreateParcelView>(r, e, EventView::Finished(Ok(())), rewound);
    assert(data.skip(0) =~= data);
    let (r, e) = lemma_extend::<CreateParcelView>(r, e, EventView::Hashed(Ok(data)), rewound);
    let published = World {
        nodes: rewound.nodes.remove(part).insert(dest, rewound.nodes[part]),
        ..rewound
    };
    lemma_extend::<CreateParcelView>(r, e, EventView::Finished(Ok(())), published)
}

/// A parcel that the bindle does not have is refused right there, for the reason given, with
/// nothing done to the store.
pub proof fn create_parcel_is_refused_at_once(
    root: Seq<char>,
    bindle_id: Id,
    parcel_id: Seq<char>,
    run: Seq<ParcelMoment>,
    events: Seq<EventView>,
    e: ProviderError,
)
    requires
        is_run(run, events),
        parcel_starts(root, bindle_id, parcel_id, run[0]),
        events.len() > 0,
        events[0] == EventView::Validated(Err(e)),
    ensures
        events.len() == 1,
        run.last().op == Progress::<CreateParcelView, Result<(), ProviderError>>::Done(Err(e)),
        run.last().world == run[0].world,
        run.last().cache == run[0].cache,
{
    assert(steps(run[0], events[0], run[1]));
    if events.len() > 1 {
        assert(steps(run[1], events[1], run[2]));
    }
}

/// What is asked first is whether this bindle has this parcel.
pub proof fn create_parcel_asks_first(
    root: Seq<char>,
    bindle_id: Id,
    parcel_id: Seq<char>,
    m: ParcelMoment,
)
    requires
        parcel_starts(root, bindle_id, parcel_id, m),
    ensures
        asks_for(m, ActionView::ValidateParcel { bindle_id, parcel_id }),
{
}

/// Success means that the SHA-256 digest of the data that came in, in hexadecimal, is the parcel's
/// name, and that the parcel's file holds just this data.
pub proof fn stored_parcel_has_its_digest(
    root: Seq<char>,
    bindle_id: Id,
    parcel_id: Seq<char>,
    run: Seq<ParcelMoment>,
    events: Seq<EventView>,
)
    requires
        is_run(run, events),
        parcel_starts(root, bindle_id, parcel_id, run[0]),
        run.last().op matches Progress::Done(Ok(_)),
    ensures
        spec_lower_hex(sha256(run[0].world.incoming)) == parcel_id,
        run.last().world.nodes.contains_key(spec_parcel_data_path(root, parcel_id)),
        run.last().world.nodes[spec_parcel_data_path(root, parcel_id)] == (Node::File {
            data: run[0].world.incoming,
        }),
{
    create_parcel_result_tells(root, bindle_id, parcel_id, run, events);
    parcel_data_has_the_digest(run[0].world.incoming, parcel_id);
}

/// At no moment is there other data under the parcel's name than before, unless it has the
/// parcel's name for its SHA-256 digest.
pub proof fn no_other_data_is_ever_stored(
    root: Seq<char>,
    bindle_id: Id,
    parcel_id: Seq<char>,
    run: Seq<ParcelMoment>,
    events: Seq<EventView>,
    i: int,
)
    requires
        is_run(run, events),
        parcel_starts(root, bindle_id, parcel_id, run[0]),
        spec_lower_hex(sha256(run[0].world.incoming)) != parcel_id,
        0 <= i < run.len(),
    ensures
        same_at(
            run[0].world.nodes,
            run[i].world.nodes,
            spec_parcel_data_path(root, parcel_id),
        ),
        !(run[i].op matches Progress::Done(Ok(_))),
{
    create_parcel_is_atomic(root, bindle_id, parcel_id, run, events, i);
    lemma_parcel_run(root, bindle_id, parcel_id, run, events, i);
    parcel_data_has_the_digest(run[0].world.incoming, parcel_id);
}

/// Where nothing goes wrong and the bindle has the parcel, what the store holds and the digest of
/// the data decide how storing it ends. It is there already if its directory is. Someone else is
/// writing it if there is anything at the part path. Data with another digest is refused. Any
/// other is stored.
pub proof fn create_parcel_is_decided_by(
    root: Seq<char>,
    bindle_id: Id,
    parcel_id: Seq<char>,
    run: Seq<ParcelMoment>,
    events: Seq<EventView>,
)
    requires
        is_run(run, events),
        all_went_well(events),
        parcel_starts(root, bindle_id, parcel_id, run[0]),
        run.last().op is Done,
        events[0] matches EventView::Validated(Ok(_)),
    ensures
        ({
            let dir = place(spec_parcel_path(root, parcel_id));
            let part = spec_parcel_data_path(root, parcel_id) + ".part"@;
            let before = run[0].world.nodes;
            let result = run.last().op->Done_0;
            if before.contains_key(dir) && before[dir] is Dir {
                result matches Err(e) && e is Exists
            } else if before.contains_key(part) {
                result matches Err(e) && e is WriteInProgress
            } else if spec_lower_hex(sha256(run[0].world.incoming)) != parcel_id {
                result matches Err(e) && e is DigestMismatch
            } else {
                result is Ok
            }
        }),
{
    create_parcel_outcome(root, bindle_id, parcel_id, run, events);
    parcel_data_has_the_digest(run[0].world.incoming, parcel_id);
    lemma_parcel_files(root, parcel_id);
    let dest = spec_parcel_data_path(root, parcel_id);
    reveal_strlit(".part");
    reveal_strlit("part");
    assert(dest.push('.') + "part"@ =~= dest + ".part"@);
}

/// A call that fails ends the storing right there with that very failure. A look that fails ends
/// nothing: it counts as having found nothing. A directory at the parcel's place ends it with
/// `Exists`, and anything at the part path with `WriteInProgress`. What is read back ends it with
/// `DigestMismatch` unless its digest is the parcel's name.
pub proof fn create_parcel_failure_ends_it(
    root: Seq<char>,
    bindle_id: Id,
    parcel_id: Seq<char>,
    run: Seq<ParcelMoment>,
    events: Seq<EventView>,
    i: int,
)
    requires
        is_run(run, events),
        parcel_starts(root, bindle_id, parcel_id, run[0]),
        0 <= i < events.len(),
    ensures
        events[i] matches EventView::Validated(Err(e)) ==> i == events.len() - 1 && run[i + 1].op
            == Progress::<CreateParcelView, Result<(), ProviderError>>::Done(Err(e)),
        events[i] matches EventView::Finished(Err(e)) ==> i == events.len() - 1 && run[i + 1].op
            == Progress::<CreateParcelView, Result<(), ProviderError>>::Done(
            Err(ProviderError::Io(e)),
        ),
        events[i] matches EventView::Hashed(Err(e)) ==> i == events.len() - 1 && run[i + 1].op
            == Progress::<CreateParcelView, Result<(), ProviderError>>::Done(
            Err(ProviderError::Io(e)),
        ),
        events[i] matches EventView::Hashed(Ok(data)) ==> (if spec_lower_hex(sha256(data))
            == parcel_id {
            run[i + 1].op is Pending
        } else {
            i == events.len() - 1 && run[i + 1].op == Progress::<
                CreateParcelView,
                Result<(), ProviderError>,
            >::Done(Err(ProviderError::DigestMismatch))
        }),
        events[i] matches EventView::Stated(Err(_)) ==> run[i + 1].op is Pending,
        (events[i] matches EventView::Stated(Ok(k)) && k is Dir) && asks_for(
            run[i],
            ActionView::Stat { path: spec_parcel_path(root, parcel_id) },
        ) ==> i == events.len() - 1 && run[i + 1].op == Progress::<
            CreateParcelView,
            Result<(), ProviderError>,
        >::Done(Err(ProviderError::Exists)),
        (events[i] matches EventView::Stated(Ok(_))) && asks_for(
            run[i],
            ActionView::Stat { path: spec_part_path(spec_parcel_data_path(root, parcel_id)) },
        ) ==> i == events.len() - 1 && run[i + 1].op == Progress::<
            CreateParcelView,
            Result<(), ProviderError>,
        >::Done(Err(ProviderError::WriteInProgress)),
{
    lemma_parcel_run(root, bindle_id, parcel_id, run, events, i);
    lemma_parcel_files(root, parcel_id);
    assert(steps(run[i], events[i], run[i + 1]));
    if let EventView::Hashed(Ok(data)) = events[i] {
        parcel_data_has_the_digest(data, parcel_id);
    }
    if i + 1 < events.len() {
        assert(steps(run[i + 1], events[i + 1], run[i + 2]));
    }
}

/// An error has its reason, and the last answer shows it.
pub proof fn create_parcel_error_tells_why(
    root: Seq<char>,
    bindle_id: Id,
    parcel_id: Seq<char>,
    run: Seq<ParcelMoment>,
    events: Seq<EventView>,
)
    requires
        is_run(run, events),
        parcel_starts(root, bindle_id, parcel_id, run[0]),
        run.last().op matches Progress::Done(Err(_)),
    ensures
        ({
            let last = events.len() - 1;
            let e = run.last().op->Done_0->Err_0;
            let dest = spec_parcel_data_path(root, parcel_id);
            &&& events.len() > 0
            &&& match events[last] {
                EventView::Validated(Err(reason)) => e == reason,
                EventView::Finished(Err(reason)) => e == ProviderError::Io(reason),
                EventView::Hashed(Err(reason)) => e == ProviderError::Io(reason),
                EventView::Hashed(Ok(data)) => e is DigestMismatch && spec_lower_hex(sha256(data))
                    != parcel_id,
                EventView::Stated(Ok(kind)) => if e is Exists {
                    kind is Dir && asks_for(
                        run[last],
                        ActionView::Stat { path: spec_parcel_path(root, parcel_id) },
                    )
                } else {
                    e is WriteInProgress && asks_for(
                        run[last],
                        ActionView::Stat { path: spec_part_path(dest) },
                    )
                },
                _ => false,
            }
        }),
{
    let last = events.len() - 1;
    assert(events.len() > 0);
    lemma_parcel_run(root, bindle_id, parcel_id, run, events, last);
    assert(steps(run[last], events[last], run[last + 1]));
    if let EventView::Hashed(Ok(data)) = events[last] {
        parcel_data_has_the_digest(data, parcel_id);
    }
}

/// Each stage of the storing of a parcel has its place in a run.
proof fn lemma_parcel_positions(
    root: Seq<char>,
    bindle_id: Id,
    parcel_id: Seq<char>,
    run: Seq<ParcelMoment>,
    events: Seq<EventView>,
    i: int,
)
    requires
        is_run(run, events),
        parcel_starts(root, bindle_id, parcel_id, run[0]),
        0 <= i < run.len(),
    ensures
        run[i].op matches Progress::Pending(op) ==> parcel_rank(op.stage) == 10 - i,
    decreases i,
{
    if i > 0 {
        lemma_parcel_positions(root, bindle_id, parcel_id, run, events, i - 1);
        assert(steps(run[i - 1], events[i - 1], run[i]));
    }
}

/// The storing of a parcel takes its steps in one order. It asks whether the bindle has the parcel,
/// looks for the directory and makes it, looks at the part path and makes the part file, writes the
/// data, has the system take it, goes back to the start, and only then reads the file back; and
/// only what was read back gets its proper name.
pub proof fn create_parcel_goes_in_order(
    root: Seq<char>,
    bindle_id: Id,
    parcel_id: Seq<char>,
    run: Seq<ParcelMoment>,
    events: Seq<EventView>,
    i: int,
)
    requires
        is_run(run, events),
        parcel_starts(root, bindle_id, parcel_id, run[0]),
        0 <= i < run.len(),
        run[i].op is Pending,
    ensures
        ({
            let dir = spec_parcel_path(root, parcel_id);
            let dest = spec_parcel_data_path(root, parcel_id);
            let part = spec_part_path(dest);
            &&& i < 10
            &&& i == 0 ==> asks_for(run[i], ActionView::ValidateParcel { bindle_id, parcel_id })
            &&& i == 1 ==> asks_for(run[i], ActionView::Stat { path: dir })
            &&& i == 2 ==> asks_for(run[i], ActionView::CreateDirAll { path: dir })
            &&& i == 3 ==> asks_for(run[i], ActionView::Stat { path: part })
            &&& i == 4 ==> asks_for(run[i], ActionView::CreateNew { path: part })
            &&& i == 5 ==> asks_for(run[i], ActionView::CopyStream)
            &&& i == 6 ==> asks_for(run[i], ActionView::Flush)
            &&& i == 7 ==> asks_for(run[i], ActionView::Rewind)
            &&& i == 8 ==> asks_for(run[i], ActionView::HashFile)
            &&& i == 9 ==> asks_for(run[i], ActionView::Rename { from: part, to: dest })
        }),
{
    lemma_parcel_positions(root, bindle_id, parcel_id, run, events, i);
    lemma_parcel_run(root, bindle_id, parcel_id, run, events, i);
}

} // verus!
