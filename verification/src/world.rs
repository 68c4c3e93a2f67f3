//! A model of the world that operations act on: what a file system does when it is asked for an
//! action, and what it can then answer.
//!
//! A path stands for one place, every name is text, and only the operation itself changes
//! anything. Any call may fail. A call that reports success has taken effect.

use crate::cache::Entries;
use crate::effect::{ActionView, DirEntry, EventView, FileKind, Operation, Progress};
use crate::error::{IoError, IoErrorKind, ProviderError};
use crate::invoice::InvoiceView;
use crate::layout::is_component;
use crate::path::spec_join;
use vstd::prelude::*;
use vstd::utf8::encode_utf8;

verus! {

/// What there is at a path.
pub enum Node {
    Dir,
    File { data: Seq<u8> },
    Other,
}

impl Node {
    /// What a look at the node reports.
    pub open spec fn kind(self) -> FileKind {
        match self {
            Node::Dir => FileKind::Dir,
            Node::File { data } => FileKind::File,
            Node::Other => FileKind::Other,
        }
    }
}

/// The places at which there is something.
pub type Nodes = Map<Seq<char>, Node>;

/// The state of the world.
pub struct World {
    /// The file system.
    pub nodes: Nodes,
    /// The file that the operation holds open.
    pub held: Option<Seq<char>>,
    /// How far into that file it is.
    pub pos: nat,
    /// The data that is coming in.
    pub incoming: Seq<u8>,
    /// The names that the directory being listed still has to offer.
    pub listing: Set<Seq<char>>,
    /// What the document format makes of a document.
    pub parse: spec_fn(Seq<u8>) -> Option<InvoiceView>,
    /// The document that the format writes for an invoice.
    pub print: spec_fn(InvoiceView) -> Seq<u8>,
}

/// Whether there is a directory at `path`.
pub open spec fn has_dir(nodes: Nodes, path: Seq<char>) -> bool {
    nodes.contains_key(path) && nodes[path] is Dir
}

/// Whether there is a regular file at `path`.
pub open spec fn has_file(nodes: Nodes, path: Seq<char>) -> bool {
    nodes.contains_key(path) && nodes[path] is File
}

/// Whether there is a regular file with the contents `data` at `path`.
pub open spec fn has_data(nodes: Nodes, path: Seq<char>, data: Seq<u8>) -> bool {
    nodes.contains_key(path) && nodes[path] == (Node::File { data })
}

/// Whether two file systems have the same at `path`.
pub open spec fn same_at(before: Nodes, after: Nodes, path: Seq<char>) -> bool {
    &&& before.contains_key(path) == after.contains_key(path)
    &&& before.contains_key(path) ==> before[path] == after[path]
}

/// `data` with what is at `pos` overwritten by `new`.
pub open spec fn overwritten(data: Seq<u8>, pos: int, new: Seq<u8>) -> Seq<u8> {
    if pos + new.len() < data.len() {
        data.take(pos) + new + data.skip(pos + new.len())
    } else {
        data.take(pos) + new
    }
}

/// `path` starts with `prefix`.
pub open spec fn starts_with(path: Seq<char>, prefix: Seq<char>) -> bool {
    prefix.len() <= path.len() && path.take(prefix.len() as int) == prefix
}

/// The place that `path` leads to when a directory is looked for: separators at the end make no
/// difference.
pub open spec fn place(path: Seq<char>) -> Seq<char>
    decreases path.len(),
{
    if path.len() > 1 && path.last() == '/' {
        place(path.drop_last())
    } else {
        path
    }
}

/// Whether `p` is `path` or leads to a directory above it: where `p` ends, a name of `path` ends.
pub open spec fn on_the_way(path: Seq<char>, p: Seq<char>) -> bool {
    starts_with(path, p) && (p.len() == path.len() || path[p.len() as int] == '/')
}

/// The directory that `path` leads to is there, and so are those above it.
pub open spec fn way_made(nodes: Nodes, path: Seq<char>) -> bool {
    &&& has_dir(nodes, place(path))
    &&& forall|p: Seq<char>| #[trigger]
        on_the_way(path, p) && p.len() > 0 && p.last() != '/' ==> has_dir(nodes, p)
}

/// `nodes` with the directory that `path` leads to, and with those above it.
pub open spec fn with_way(nodes: Nodes, path: Seq<char>) -> Nodes {
    Map::new(
        |p: Seq<char>|
            nodes.contains_key(p) || p == place(path) || (on_the_way(path, p) && p.len() > 0
                && p.last() != '/'),
        |p: Seq<char>|
            if nodes.contains_key(p) {
                nodes[p]
            } else {
                Node::Dir
            },
    )
}

/// Whether the file system is a tree: above everything that is there, there are directories.
pub open spec fn is_tree(nodes: Nodes) -> bool {
    forall|p: Seq<char>, q: Seq<char>|
        #![trigger nodes.contains_key(p), on_the_way(p, q)]
        nodes.contains_key(p) && on_the_way(p, q) && 0 < q.len() < p.len() && q.last() != '/'
            ==> has_dir(nodes, q)
}

/// Whether a directory can have an entry called `name`.
pub open spec fn is_entry_name(name: Seq<char>) -> bool {
    is_component(name) && name != seq!['.'] && name != seq!['.', '.']
}

/// The names of what there is in the directory `path`.
pub open spec fn names_in(nodes: Nodes, path: Seq<char>) -> Set<Seq<char>> {
    Set::new(|name: Seq<char>| is_entry_name(name) && nodes.contains_key(spec_join(path, name)))
}

/// A path with separators at its end leads to a place on the way to it.
pub proof fn lemma_place(path: Seq<char>)
    ensures
        place(path).len() <= path.len(),
        on_the_way(path, place(path)),
    decreases path.len(),
{
    if path.len() > 1 && path.last() == '/' {
        let shorter = path.drop_last();
        lemma_place(shorter);
        assert(path.take(place(path).len() as int) =~= shorter.take(place(path).len() as int));
    } else {
        assert(path.take(path.len() as int) =~= path);
    }
}

/// `after` is `before` with, at most, some directories on the way to `path` added.
pub open spec fn grown(before: Nodes, after: Nodes, path: Seq<char>) -> bool {
    &&& forall|p: Seq<char>| #[trigger]
        before.contains_key(p) ==> after.contains_key(p) && after[p] == before[p]
    &&& forall|p: Seq<char>| #[trigger]
        after.contains_key(p) && !before.contains_key(p) ==> after[p] is Dir && on_the_way(path, p)
}

/// Where no file is in the way, the directories to `path` can be made.
pub proof fn lemma_with_way(nodes: Nodes, path: Seq<char>)
    requires
        !nodes.contains_key(place(path)),
        forall|p: Seq<char>| #[trigger]
            on_the_way(path, p) && nodes.contains_key(p) ==> nodes[p] is Dir,
    ensures
        grown(nodes, with_way(nodes, path), path),
        way_made(with_way(nodes, path), path),
        forall|p: Seq<char>|
            p.len() > path.len() ==> with_way(nodes, path).contains_key(p) == (
            #[trigger] nodes.contains_key(p)),
{
    lemma_place(path);
}

/// What a look at `path` may report.
pub open spec fn stat_answers(nodes: Nodes, path: Seq<char>, stat: Result<FileKind, IoError>) -> bool {
    match stat {
        Ok(kind) => nodes.contains_key(place(path)) && nodes[place(path)].kind() == kind,
        Err(e) => e.kind is NotFound ==> !nodes.contains_key(place(path)),
    }
}

impl World {
    /// Whether a regular file is held open, at a position within it.
    pub open spec fn holds_file(self) -> bool {
        &&& self.held is Some
        &&& has_file(self.nodes, self.held->0)
        &&& self.pos <= self.held_data().len()
    }

    /// The contents of the file held open.
    pub open spec fn held_data(self) -> Seq<u8> {
        self.nodes[self.held->0]->data
    }

    /// The world after `new` was written to the file held open.
    pub open spec fn wrote(self, new: Seq<u8>) -> World {
        World {
            nodes: self.nodes.insert(
                self.held->0,
                Node::File { data: overwritten(self.held_data(), self.pos as int, new) },
            ),
            pos: self.pos + new.len(),
            ..self
        }
    }

    /// The world after some or, on success, all of `new` was written to the file held open.
    pub open spec fn write_answers(self, new: Seq<u8>, done: Result<(), IoError>, after: World) -> bool {
        if self.holds_file() {
            exists|n: int|
                0 <= n <= new.len() && (done is Ok ==> n == new.len()) && after
                    == #[trigger] self.wrote(new.take(n))
        } else {
            done is Err && after == self
        }
    }

    /// Whether `event` can come of `action`, and leave the world as `after`.
    pub open spec fn answers(self, action: ActionView, event: EventView, after: World) -> bool {
        match action {
            ActionView::Stat { path } => {
                &&& after == self
                &&& event matches EventView::Stated(stat)
                &&& stat_answers(self.nodes, path, stat)
            },
            ActionView::StatAll { paths } => {
                &&& after == self
                &&& event matches EventView::StatedAll(stats)
                &&& stats.len() == paths.len()
                &&& forall|i: int|
                    0 <= i < paths.len() ==> stat_answers(
                        self.nodes,
                        #[trigger] paths[i],
                        stats[i],
                    )
            },
            ActionView::CreateDirAll { path } => {
                &&& after == (World { nodes: after.nodes, ..self })
                &&& grown(self.nodes, after.nodes, path)
                &&& event matches EventView::Finished(done)
                &&& done is Ok ==> way_made(after.nodes, path)
            },
            ActionView::CreateNew { path } => {
                &&& event matches EventView::Finished(done)
                &&& if done is Ok {
                    &&& !self.nodes.contains_key(path)
                    &&& after == (World {
                        nodes: self.nodes.insert(path, Node::File { data: Seq::empty() }),
                        held: Some(path),
                        pos: 0,
                        ..self
                    })
                } else {
                    after == self
                }
            },
            ActionView::Write { data } => {
                &&& event matches EventView::Finished(done)
                &&& self.write_answers(data, done, after)
            },
            ActionView::CopyStream => {
                &&& event matches EventView::Finished(done)
                &&& self.write_answers(self.incoming, done, after)
            },
            ActionView::Flush => after == self && event is Finished,
            ActionView::Rewind => {
                &&& event matches EventView::Finished(done)
                &&& if done is Ok {
                    after == (World { pos: 0, ..self })
                } else {
                    after == self
                }
            },
            ActionView::HashFile => {
                &&& after == (World { pos: after.pos, ..self })
                &&& event matches EventView::Hashed(hashed)
                &&& hashed matches Ok(data) ==> self.holds_file() && data == self.held_data().skip(
                    self.pos as int,
                )
            },
            ActionView::Rename { from, to } => {
                &&& event matches EventView::Finished(done)
                &&& if done is Ok {
                    &&& self.nodes.contains_key(from)
                    &&& !has_dir(self.nodes, to)
                    &&& after == (World {
                        nodes: self.nodes.remove(from).insert(to, self.nodes[from]),
                        held: after.held,
                        ..self
                    })
                } else {
                    after == self
                }
            },
            ActionView::WriteFile { path, data } => {
                &&& event matches EventView::Finished(done)
                &&& if done is Ok {
                    &&& !has_dir(self.nodes, path)
                    &&& after == (World {
                        nodes: self.nodes.insert(path, Node::File { data }),
                        ..self
                    })
                } else {
                    ||| after == self
                    ||| exists|n: int|
                        0 <= n <= data.len() && after == (World {
                            nodes: self.nodes.insert(
                                path,
                                Node::File { data: #[trigger] data.take(n) },
                            ),
                            ..self
                        })
                }
            },
            ActionView::ReadText { path } => {
                &&& after == self
                &&& event matches EventView::Text(text)
                &&& match text {
                    Ok(t) => has_data(self.nodes, path, encode_utf8(t)),
                    Err(e) => e.kind is NotFound ==> !self.nodes.contains_key(path),
                }
            },
            ActionView::OpenRead { path } => {
                &&& event matches EventView::Opened(done)
                &&& match done {
                    Ok(_) => {
                        &&& self.nodes.contains_key(path)
                        &&& after == (World { held: Some(path), pos: 0, ..self })
                    },
                    Err(e) => {
                        &&& after == self
                        &&& e.kind is NotFound ==> !self.nodes.contains_key(path)
                    },
                }
            },
            ActionView::ReadDir { path } => {
                &&& event matches EventView::Finished(done)
                &&& if done is Ok {
                    &&& has_dir(self.nodes, place(path))
                    &&& after == (World { listing: names_in(self.nodes, path), ..self })
                } else {
                    after == self
                }
            },
            // Every name comes once, in any order, and the end comes when there is none left.
            ActionView::NextEntry => {
                &&& event matches EventView::Entry(entry)
                &&& match entry {
                    Ok(Some(DirEntry { file_name: Some(name) })) => {
                        &&& self.listing.contains(name@)
                        &&& after == (World { listing: self.listing.remove(name@), ..self })
                    },
                    Ok(Some(DirEntry { file_name: None })) => false,
                    Ok(None) => after == self && self.listing == Set::<Seq<char>>::empty(),
                    Err(_) => after == self,
                }
            },
            // The format writes an invoice in one way, and reads back what it wrote.
            ActionView::Encode { invoice } => {
                &&& after == self
                &&& event matches EventView::Encoded(encoded)
                &&& encoded matches Ok(data) ==> data == (self.print)(invoice) && (self.parse)(data)
                    == Some(invoice)
            },
            ActionView::Decode { text } => {
                &&& after == self
                &&& event matches EventView::Decoded(decoded)
                &&& match decoded {
                    Ok(invoice) => (self.parse)(encode_utf8(text)) == Some(invoice),
                    Err(_) => (self.parse)(encode_utf8(text)) is None,
                }
            },
            ActionView::Index { invoice } => after == self && event is Indexed,
            ActionView::ValidateParcel { bindle_id, parcel_id } => after == self
                && event is Validated,
        }
    }
}

/// The look at a place worked, though it may have found nothing.
pub open spec fn sure(stat: Result<FileKind, IoError>) -> bool {
    match stat {
        Ok(_) => true,
        Err(e) => e.kind is NotFound,
    }
}

/// Nothing went wrong: each call did what it was asked for. That there is nothing at a place, or
/// that a document cannot be parsed, is no fault of the call that found it.
pub open spec fn went_well(event: EventView) -> bool {
    match event {
        EventView::Stated(stat) => sure(stat),
        EventView::StatedAll(stats) => forall|i: int|
            0 <= i < stats.len() ==> sure(#[trigger] stats[i]),
        EventView::Finished(done) => done is Ok,
        EventView::Opened(Err(e)) => e.kind is NotFound,
        EventView::Hashed(hashed) => hashed is Ok,
        EventView::Text(Err(e)) => e.kind is NotFound,
        EventView::Entry(entry) => entry is Ok,
        EventView::Encoded(encoded) => encoded is Ok,
        _ => true,
    }
}

/// Every look at a place worked, whatever else went wrong.
pub open spec fn looks_worked(events: Seq<EventView>) -> bool {
    forall|i: int|
        0 <= i < events.len() ==> ((#[trigger] events[i]) matches EventView::Stated(stat) ==> sure(
            stat,
        ))
}

/// Whatever was there is still there, and of the same kind, though files may hold other data.
pub open spec fn nothing_removed(before: Nodes, after: Nodes) -> bool {
    forall|p: Seq<char>| #[trigger]
        before.contains_key(p) ==> after.contains_key(p) && after[p].kind() == before[p].kind()
}

/// A moment in the life of an operation.
pub struct Moment<S, R> {
    pub op: Progress<S, R>,
    pub world: World,
    pub cache: Entries,
}

/// Whether an operation is waiting for `action`.
pub open spec fn asks_for<S: Operation>(m: Moment<S, S::Output>, action: ActionView) -> bool {
    match m.op {
        Progress::Pending(op) => op.action() == action,
        Progress::Done(_) => false,
    }
}

/// Whether an operation is waiting for the search index.
pub open spec fn tells_index<S: Operation>(m: Moment<S, S::Output>) -> bool {
    match m.op {
        Progress::Pending(op) => op.action() is Index,
        Progress::Done(_) => false,
    }
}

/// One step of an operation: `event` came of its action.
pub open spec fn steps<S: Operation>(
    before: Moment<S, S::Output>,
    event: EventView,
    after: Moment<S, S::Output>,
) -> bool {
    match before.op {
        Progress::Pending(op) => {
            &&& before.world.answers(op.action(), event, after.world)
            &&& after.op == op.next(event)
            &&& after.cache == op.cache_after(before.cache, event)
        },
        Progress::Done(_) => false,
    }
}

/// A run of an operation: moments, and the event that led from each to the next.
pub open spec fn is_run<S: Operation>(
    run: Seq<Moment<S, S::Output>>,
    events: Seq<EventView>,
) -> bool {
    &&& run.len() == events.len() + 1
    &&& forall|i: int| 0 <= i < events.len() ==> steps(run[i], #[trigger] events[i], run[i + 1])
}

/// Nothing went wrong in a run.
pub open spec fn all_went_well(events: Seq<EventView>) -> bool {
    forall|i: int| 0 <= i < events.len() ==> went_well(#[trigger] events[i])
}

/// The document format stays the same in a run.
pub proof fn lemma_format_stays<S: Operation>(
    run: Seq<Moment<S, S::Output>>,
    events: Seq<EventView>,
    i: int,
)
    requires
        is_run(run, events),
        0 <= i < run.len(),
    ensures
        run[i].world.parse == run[0].world.parse,
        run[i].world.print == run[0].world.print,
    decreases i,
{
    if i > 0 {
        lemma_format_stays::<S>(run, events, i - 1);
        assert(steps(run[i - 1], events[i - 1], run[i]));
    }
}

/// Some failure of the file system.
pub open spec fn some_failure() -> IoError {
    IoError { kind: IoErrorKind::Other, raw_os_error: None, message: arbitrary() }
}

/// The answer to `action` when it fails. An action that cannot fail is simply answered.
pub open spec fn failing_answer(world: World, action: ActionView) -> EventView {
    match action {
        ActionView::Stat { .. } => EventView::Stated(Err(some_failure())),
        ActionView::StatAll { paths } => EventView::StatedAll(
            Seq::new(paths.len(), |i: int| Err(some_failure())),
        ),
        ActionView::HashFile => EventView::Hashed(Err(some_failure())),
        ActionView::ReadText { .. } => EventView::Text(Err(some_failure())),
        ActionView::OpenRead { .. } => EventView::Opened(Err(some_failure())),
        ActionView::NextEntry => EventView::Entry(Err(some_failure())),
        ActionView::Encode { .. } => EventView::Encoded(Err(arbitrary())),
        ActionView::Decode { text } => EventView::Decoded(
            match (world.parse)(encode_utf8(text)) {
                Some(invoice) => Ok(invoice),
                None => Err(arbitrary()),
            },
        ),
        ActionView::Index { .. } => EventView::Indexed,
        ActionView::ValidateParcel { .. } => EventView::Validated(
            Err(ProviderError::Io(some_failure())),
        ),
        _ => EventView::Finished(Err(some_failure())),
    }
}

/// No operation is ever stuck: every action can be answered, if only by a failure that leaves the
/// world as it is.
pub proof fn every_action_can_be_answered(world: World, action: ActionView)
    ensures
        world.answers(action, failing_answer(world, action), world),
{
    let new = match action {
        ActionView::Write { data } => data,
        _ => world.incoming,
    };
    if world.holds_file() && (action is Write || action is CopyStream) {
        let held = world.held_data();
        let none = new.take(0);
        assert(none =~= Seq::<u8>::empty());
        assert(overwritten(held, world.pos as int, none) =~= held);
        assert(world.wrote(none).nodes =~= world.nodes);
        assert(world == world.wrote(new.take(0)));
    }
}

/// A run goes on with any answer to the action it waits for.
pub proof fn lemma_extend<S: Operation>(
    run: Seq<Moment<S, S::Output>>,
    events: Seq<EventView>,
    event: EventView,
    after: World,
) -> (longer: (Seq<Moment<S, S::Output>>, Seq<EventView>))
    requires
        is_run(run, events),
        all_went_well(events),
        went_well(event),
        run.last().op matches Progress::Pending(op) && run.last().world.answers(
            op.action(),
            event,
            after,
        ),
    ensures
        is_run(longer.0, longer.1),
        all_went_well(longer.1),
        longer.0[0] == run[0],
        longer.0.last().op == run.last().op->Pending_0.next(event),
        longer.0.last().world == after,
{
    let op = run.last().op->Pending_0;
    let next = Moment {
        op: op.next(event),
        world: after,
        cache: op.cache_after(run.last().cache, event),
    };
    let run2 = run.push(next);
    let events2 = events.push(event);
    assert forall|i: int| 0 <= i < events2.len() implies steps(
        run2[i],
        #[trigger] events2[i],
        run2[i + 1],
    ) by {
        if i < events.len() {
            assert(steps(run[i], events[i], run[i + 1]));
        }
    }
    assert forall|i: int| 0 <= i < events2.len() implies went_well(#[trigger] events2[i]) by {
        if i < events.len() {
            assert(went_well(events[i]));
        }
    }
    (run2, events2)
}

} // verus!
