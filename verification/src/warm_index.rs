//! Telling the search index of the invoices that are in the store.
//!
//! The store is the sole authority about what documents are in it, so it communicates on startup
//! what documents it knows about. The index may refuse one, as it does a duplicate: that is not
//! an error here.

use crate::cache::Entries;
use crate::effect::{Action, ActionView, Event, EventView, Operation, Progress};
use crate::error::{IoError, IoErrorKind};
use crate::invoice::{Invoice, InvoiceView};
use crate::layout::{invoice_path, invoice_toml_path, spec_invoice_path, spec_invoice_toml_path};
use vstd::prelude::*;

verus! {

/// Why the warming of the index stopped.
#[derive(Debug)]
pub enum WarmError {
    /// The file system failed.
    Io(IoError),
    /// A stored document could not be parsed.
    Malformed(String),
    /// An invoice is stored under the name of another one.
    DigestMismatch { sha: String, digest: String },
}

/// The text of a mismatch between the name `sha` of a record and the `digest` of its invoice.
pub open spec fn mismatch_text(sha: Seq<char>, digest: Seq<char>) -> Seq<char> {
    "SHA "@ + sha + " did not match computed digest "@ + digest + ". Delete this record."@
}

/// What to tell the operator of a mismatch.
pub fn mismatch_message(sha: &str, digest: &str) -> (res: String)
    ensures
        res@ == mismatch_text(sha@, digest@),
{
    let mut res = "SHA ".to_owned();
    res.append(sha);
    res.append(" did not match computed digest ");
    res.append(digest);
    res.append(". Delete this record.");
    res
}

/// The warming of the index.
pub enum WarmIndex {
    /// Is there a directory of invoices?
    Checking { root: String },
    /// The listing of the directory is being started.
    Opening { root: String },
    /// The next entry is being looked up.
    Listing { root: String },
    /// The record `sha` is being read.
    Reading { root: String, sha: String },
    /// What was read is being parsed.
    Decoding { root: String, sha: String, text: String },
    /// The index is being told.
    Indexing { root: String, invoice: Invoice },
}

/// The mathematical content of a [`WarmIndex`].
pub enum WarmIndexView {
    Checking { root: Seq<char> },
    Opening { root: Seq<char> },
    Listing { root: Seq<char> },
    Reading { root: Seq<char>, sha: String },
    Decoding { root: Seq<char>, sha: String, text: Seq<char> },
    Indexing { root: Seq<char>, invoice: InvoiceView },
}

impl View for WarmIndex {
    type V = WarmIndexView;

    open spec fn view(&self) -> WarmIndexView {
        match *self {
            WarmIndex::Checking { root } => WarmIndexView::Checking { root: root@ },
            WarmIndex::Opening { root } => WarmIndexView::Opening { root: root@ },
            WarmIndex::Listing { root } => WarmIndexView::Listing { root: root@ },
            WarmIndex::Reading { root, sha } => WarmIndexView::Reading { root: root@, sha },
            WarmIndex::Decoding { root, sha, text } => WarmIndexView::Decoding {
                root: root@,
                sha,
                text: text@,
            },
            WarmIndex::Indexing { root, invoice } => WarmIndexView::Indexing {
                root: root@,
                invoice: invoice@,
            },
        }
    }
}

impl Operation for WarmIndexView {
    type Output = Result<(), WarmError>;

    open spec fn action(self) -> ActionView {
        match self {
            WarmIndexView::Checking { root } => ActionView::Stat {
                path: spec_invoice_path(root, Seq::empty()),
            },
            WarmIndexView::Opening { root } => ActionView::ReadDir {
                path: spec_invoice_path(root, Seq::empty()),
            },
            WarmIndexView::Listing { root } => ActionView::NextEntry,
            WarmIndexView::Reading { root, sha } => ActionView::ReadText {
                path: spec_invoice_toml_path(root, sha@),
            },
            WarmIndexView::Decoding { root, sha, text } => ActionView::Decode { text },
            WarmIndexView::Indexing { root, invoice } => ActionView::Index { invoice },
        }
    }

    open spec fn next(self, event: EventView) -> Progress<
        WarmIndexView,
        Result<(), WarmError>,
    > {
        match (self, event) {
            (WarmIndexView::Checking { root }, EventView::Stated(Ok(_))) => Progress::Pending(
                WarmIndexView::Opening { root },
            ),
            (WarmIndexView::Checking { root }, EventView::Stated(Err(e))) => {
                if e.kind is NotFound {
                    Progress::Done(Ok(()))
                } else {
                    Progress::Done(Err(WarmError::Io(e)))
                }
            },
            (WarmIndexView::Opening { root }, EventView::Finished(Ok(_))) => Progress::Pending(
                WarmIndexView::Listing { root },
            ),
            (WarmIndexView::Opening { root }, EventView::Finished(Err(e))) => Progress::Done(
                Err(WarmError::Io(e)),
            ),
            (WarmIndexView::Listing { root }, EventView::Entry(Ok(None))) => Progress::Done(Ok(())),
            (WarmIndexView::Listing { root }, EventView::Entry(Ok(Some(entry)))) => {
                match entry.file_name {
                    Some(sha) => Progress::Pending(WarmIndexView::Reading { root, sha }),
                    None => Progress::Pending(self),
                }
            },
            (WarmIndexView::Listing { root }, EventView::Entry(Err(e))) => Progress::Done(
                Err(WarmError::Io(e)),
            ),
            (WarmIndexView::Reading { root, sha }, EventView::Text(Ok(text))) => Progress::Pending(
                WarmIndexView::Decoding { root, sha, text },
            ),
            (WarmIndexView::Reading { root, sha }, EventView::Text(Err(e))) => Progress::Done(
                Err(WarmError::Io(e)),
            ),
            (WarmIndexView::Decoding { root, sha, text }, EventView::Decoded(Ok(invoice))) => {
                if sha@ != invoice.canonical_name() {
                    Progress::Done(
                        Err(WarmError::DigestMismatch { sha, digest: invoice.bindle.id.sha }),
                    )
                } else {
                    Progress::Pending(WarmIndexView::Indexing { root, invoice })
                }
            },
            (WarmIndexView::Decoding { root, sha, text }, EventView::Decoded(Err(e))) => {
                Progress::Done(Err(WarmError::Malformed(e)))
            },
            (WarmIndexView::Indexing { root, invoice }, EventView::Indexed) => Progress::Pending(
                WarmIndexView::Listing { root },
            ),
            _ => Progress::Pending(self),
        }
    }

    open spec fn cache_after(self, cache: Entries, event: EventView) -> Entries {
        cache
    }
}

impl WarmIndex {
    /// Starts to go through the invoices under `root`.
    pub fn start(root: &str) -> (res: Self)
        ensures
            res@ == (WarmIndexView::Checking { root: root@ }),
    {
        WarmIndex::Checking { root: root.to_owned() }
    }

    /// What is to be done.
    pub fn action(&self) -> (res: Action)
        ensures
            res@ == self@.action(),
    {
        proof {
            reveal_strlit("");
            assert(""@ =~= Seq::<char>::empty());
        }
        match self {
            WarmIndex::Checking { root } => Action::Stat { path: invoice_path(root.as_str(), "") },
            WarmIndex::Opening { root } => Action::ReadDir { path: invoice_path(root.as_str(), "") },
            WarmIndex::Listing { root: _ } => Action::NextEntry,
            WarmIndex::Reading { root, sha } => Action::ReadText {
                path: invoice_toml_path(root.as_str(), sha.as_str()),
            },
            WarmIndex::Decoding { root: _, sha: _, text } => Action::Decode { text: text.clone() },
            WarmIndex::Indexing { root: _, invoice } => Action::Index { invoice: invoice.clone() },
        }
    }

    /// Takes in what came of the action.
    pub fn step(self, event: Event) -> (res: Progress<WarmIndex, Result<(), WarmError>>)
        ensures
            match res {
                Progress::Pending(op) => self@.next(event@) == Progress::<
                    WarmIndexView,
                    Result<(), WarmError>,
                >::Pending(op@),
                Progress::Done(r) => self@.next(event@) == Progress::<
                    WarmIndexView,
                    Result<(), WarmError>,
                >::Done(r),
            },
    {
        match (self, event) {
            (WarmIndex::Checking { root }, Event::Stated(Ok(_))) => Progress::Pending(
                WarmIndex::Opening { root },
            ),
            // If the invoice directory does not exist, this is likely the first time and there
            // is nothing to do
            (WarmIndex::Checking { .. }, Event::Stated(Err(e))) => {
                if e.kind == IoErrorKind::NotFound {
                    Progress::Done(Ok(()))
                } else {
                    Progress::Done(Err(WarmError::Io(e)))
                }
            },
            (WarmIndex::Opening { root }, Event::Finished(Ok(_))) => Progress::Pending(
                WarmIndex::Listing { root },
            ),
            (WarmIndex::Opening { .. }, Event::Finished(Err(e))) => Progress::Done(
                Err(WarmError::Io(e)),
            ),
            (WarmIndex::Listing { .. }, Event::Entry(Ok(None))) => Progress::Done(Ok(())),
            (WarmIndex::Listing { root }, Event::Entry(Ok(Some(entry)))) => {
                match entry.file_name {
                    Some(sha) => Progress::Pending(WarmIndex::Reading { root, sha }),
                    None => Progress::Pending(WarmIndex::Listing { root }),
                }
            },
            (WarmIndex::Listing { .. }, Event::Entry(Err(e))) => Progress::Done(
                Err(WarmError::Io(e)),
            ),
            (WarmIndex::Reading { root, sha }, Event::Text(Ok(text))) => Progress::Pending(
                WarmIndex::Decoding { root, sha, text },
            ),
            (WarmIndex::Reading { .. }, Event::Text(Err(e))) => Progress::Done(
                Err(WarmError::Io(e)),
            ),
            (WarmIndex::Decoding { root, sha, text: _ }, Event::Decoded(Ok(invoice))) => {
                let digest = invoice.bindle.id.sha.clone();
                if sha != digest {
                    Progress::Done(Err(WarmError::DigestMismatch { sha, digest }))
                } else {
                    Progress::Pending(WarmIndex::Indexing { root, invoice })
                }
            },
            (WarmIndex::Decoding { .. }, Event::Decoded(Err(e))) => Progress::Done(
                Err(WarmError::Malformed(e)),
            ),
            (WarmIndex::Indexing { root, invoice: _ }, Event::Indexed) => Progress::Pending(
                WarmIndex::Listing { root },
            ),
            (op, _) => Progress::Pending(op),
        }
    }
}

} // verus!
