//! What an operation asks of the world, and what it is told.
//!
//! An operation does no input or output of its own. It names an [`Action`], is handed the
//! [`Event`] that came of it, and either names the next action or is done.

use crate::cache::Entries;
use crate::digest::AsyncSha256;
use crate::error::{IoError, ProviderError};
use crate::invoice::{Id, Invoice, InvoiceView};
use vstd::prelude::*;

verus! {

/// What there is at a path.
#[derive(Clone, Copy, Debug, PartialEq, Eq, Structural)]
pub enum FileKind {
    File,
    Dir,
    Other,
}

/// An entry of a directory. The name is missing where the path has no last component.
#[derive(Debug)]
pub struct DirEntry {
    pub file_name: Option<String>,
}

/// Something that an operation wants done.
pub enum Action {
    /// Find out what there is at `path`, following links.
    Stat { path: String },
    /// Find out what there is at each of `paths`.
    StatAll { paths: Vec<String> },
    /// Make the directory `path`, and those above it where they are missing.
    CreateDirAll { path: String },
    /// Make the file `path`, which must not be there yet, and hold it open.
    CreateNew { path: String },
    /// Write `data` to the file held open.
    Write { data: Vec<u8> },
    /// Write the incoming data, to its end, to the file held open.
    CopyStream,
    /// Have the system take what was written to the file held open.
    Flush,
    /// Go back to the start of the file held open.
    Rewind,
    /// Copy what is left of the file held open into a new hasher.
    HashFile,
    /// Give the file `from` the name `to`, in the place of what had that name.
    Rename { from: String, to: String },
    /// Make `data` the contents of the file `path`, whether or not it is there.
    WriteFile { path: String, data: Vec<u8> },
    /// Read the whole of the file `path` as text.
    ReadText { path: String },
    /// Open the file `path` for reading.
    OpenRead { path: String },
    /// Start to list the directory `path`.
    ReadDir { path: String },
    /// Go on to the next entry of the directory being listed.
    NextEntry,
    /// Write `invoice` out as a document.
    Encode { invoice: Invoice },
    /// Read the document `text` as an invoice.
    Decode { text: String },
    /// Tell the search index of `invoice`.
    Index { invoice: Invoice },
    /// Find out whether the bindle `bindle_id` has the parcel `parcel_id`.
    ValidateParcel { bindle_id: Id, parcel_id: String },
}

/// The mathematical content of an [`Action`].
pub enum ActionView {
    Stat { path: Seq<char> },
    StatAll { paths: Seq<Seq<char>> },
    CreateDirAll { path: Seq<char> },
    CreateNew { path: Seq<char> },
    Write { data: Seq<u8> },
    CopyStream,
    Flush,
    Rewind,
    HashFile,
    Rename { from: Seq<char>, to: Seq<char> },
    WriteFile { path: Seq<char>, data: Seq<u8> },
    ReadText { path: Seq<char> },
    OpenRead { path: Seq<char> },
    ReadDir { path: Seq<char> },
    NextEntry,
    Encode { invoice: InvoiceView },
    Decode { text: Seq<char> },
    Index { invoice: InvoiceView },
    ValidateParcel { bindle_id: Id, parcel_id: Seq<char> },
}

impl View for Action {
    type V = ActionView;

    open spec fn view(&self) -> ActionView {
        match *self {
            Action::Stat { path } => ActionView::Stat { path: path@ },
            Action::StatAll { paths } => ActionView::StatAll {
                paths: Seq::new(paths@.len(), |i: int| paths@[i]@),
            },
            Action::CreateDirAll { path } => ActionView::CreateDirAll { path: path@ },
            Action::CreateNew { path } => ActionView::CreateNew { path: path@ },
            Action::Write { data } => ActionView::Write { data: data@ },
            Action::CopyStream => ActionView::CopyStream,
            Action::Flush => ActionView::Flush,
            Action::Rewind => ActionView::Rewind,
            Action::HashFile => ActionView::HashFile,
            Action::Rename { from, to } => ActionView::Rename { from: from@, to: to@ },
            Action::WriteFile { path, data } => ActionView::WriteFile { path: path@, data: data@ },
            Action::ReadText { path } => ActionView::ReadText { path: path@ },
            Action::OpenRead { path } => ActionView::OpenRead { path: path@ },
            Action::ReadDir { path } => ActionView::ReadDir { path: path@ },
            Action::NextEntry => ActionView::NextEntry,
            Action::Encode { invoice } => ActionView::Encode { invoice: invoice@ },
            Action::Decode { text } => ActionView::Decode { text: text@ },
            Action::Index { invoice } => ActionView::Index { invoice: invoice@ },
            Action::ValidateParcel { bindle_id, parcel_id } => ActionView::ValidateParcel {
                bindle_id,
                parcel_id: parcel_id@,
            },
        }
    }
}

/// What came of an action.
pub enum Event {
    /// Of `Stat`.
    Stated(Result<FileKind, IoError>),
    /// Of `StatAll`, one for each path.
    StatedAll(Vec<Result<FileKind, IoError>>),
    /// Of an action that either works or does not.
    Finished(Result<(), IoError>),
    /// Of `OpenRead`.
    Opened(Result<(), IoError>),
    /// Of `HashFile`: the hasher that the file was copied into.
    Hashed(Result<AsyncSha256, IoError>),
    /// Of `ReadText`.
    Text(Result<String, IoError>),
    /// Of `NextEntry`: nothing at the end of the directory.
    Entry(Result<Option<DirEntry>, IoError>),
    /// Of `Encode`: the document, or why there is none.
    Encoded(Result<Vec<u8>, String>),
    /// Of `Decode`: the invoice, or why there is none.
    Decoded(Result<Invoice, String>),
    /// Of `Index`, whether or not the index took the invoice.
    Indexed,
    /// Of `ValidateParcel`.
    Validated(Result<(), ProviderError>),
}

/// The mathematical content of an [`Event`].
pub enum EventView {
    Stated(Result<FileKind, IoError>),
    StatedAll(Seq<Result<FileKind, IoError>>),
    Finished(Result<(), IoError>),
    Opened(Result<(), IoError>),
    Hashed(Result<Seq<u8>, IoError>),
    Text(Result<Seq<char>, IoError>),
    Entry(Result<Option<DirEntry>, IoError>),
    Encoded(Result<Seq<u8>, String>),
    Decoded(Result<InvoiceView, String>),
    Indexed,
    Validated(Result<(), ProviderError>),
}

impl View for Event {
    type V = EventView;

    open spec fn view(&self) -> EventView {
        match *self {
            Event::Stated(r) => EventView::Stated(r),
            Event::StatedAll(r) => EventView::StatedAll(r@),
            Event::Finished(r) => EventView::Finished(r),
            Event::Opened(r) => EventView::Opened(r),
            Event::Hashed(Ok(hasher)) => EventView::Hashed(Ok(hasher@)),
            Event::Hashed(Err(e)) => EventView::Hashed(Err(e)),
            Event::Text(Ok(text)) => EventView::Text(Ok(text@)),
            Event::Text(Err(e)) => EventView::Text(Err(e)),
            Event::Entry(r) => EventView::Entry(r),
            Event::Encoded(Ok(data)) => EventView::Encoded(Ok(data@)),
            Event::Encoded(Err(e)) => EventView::Encoded(Err(e)),
            Event::Decoded(Ok(invoice)) => EventView::Decoded(Ok(invoice@)),
            Event::Decoded(Err(e)) => EventView::Decoded(Err(e)),
            Event::Indexed => EventView::Indexed,
            Event::Validated(r) => EventView::Validated(r),
        }
    }
}

/// An operation that goes on, or its result.
pub enum Progress<S, R> {
    Pending(S),
    Done(R),
}

/// An operation that goes from action to action.
pub trait Operation: Sized {
    /// What the operation results in.
    type Output;

    /// What is to be done.
    spec fn action(self) -> ActionView;

    /// What `event` leads to. An event that does not answer the action leads nowhere.
    spec fn next(self, event: EventView) -> Progress<Self, Self::Output>;

    /// The cached invoices after `event`.
    spec fn cache_after(self, cache: Entries, event: EventView) -> Entries;
}

/// Whether something of the kind `kind` was found.
pub open spec fn found(stat: Result<FileKind, IoError>, kind: FileKind) -> bool {
    match stat {
        Ok(k) => k == kind,
        Err(_) => false,
    }
}

/// Whether a directory was found.
pub fn is_dir(stat: &Result<FileKind, IoError>) -> (res: bool)
    ensures
        res == found(*stat, FileKind::Dir),
{
    match stat {
        Ok(kind) => *kind == FileKind::Dir,
        Err(_) => false,
    }
}

/// Whether a regular file was found.
pub fn is_file(stat: &Result<FileKind, IoError>) -> (res: bool)
    ensures
        res == found(*stat, FileKind::File),
{
    match stat {
        Ok(kind) => *kind == FileKind::File,
        Err(_) => false,
    }
}

} // verus!
