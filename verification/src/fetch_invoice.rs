//! Reading an invoice.

use crate::cache::{lookup, touched, with_entry, Entries, InvoiceCache, CACHE_SIZE};
use crate::effect::{Action, ActionView, Event, EventView, Operation, Progress};
use crate::error::{map_io_error, spec_map_io_error, ProviderError};
use crate::invoice::{Id, Invoice, InvoiceView};
use crate::layout::{invoice_toml_path, spec_invoice_toml_path};
use vstd::prelude::*;

verus! {

/// The reading of one invoice from the file system.
pub enum FetchInvoice {
    /// The file is being read.
    Reading { root: String, id: Id },
    /// What was read is being parsed.
    Decoding { id: Id, text: String },
}

/// The mathematical content of a [`FetchInvoice`].
pub enum FetchInvoiceView {
    Reading { root: Seq<char>, id: Id },
    Decoding { id: Id, text: Seq<char> },
}

/// The result of reading an invoice.
pub type FetchResultView = Result<InvoiceView, ProviderError>;

impl View for FetchInvoice {
    type V = FetchInvoiceView;

    open spec fn view(&self) -> FetchInvoiceView {
        match *self {
            FetchInvoice::Reading { root, id } => FetchInvoiceView::Reading { root: root@, id },
            FetchInvoice::Decoding { id, text } => FetchInvoiceView::Decoding { id, text: text@ },
        }
    }
}

/// The beginning of the reading of an invoice: one that is in the cache need not be read.
pub open spec fn spec_start_fetch(root: Seq<char>, cache: Entries, id: Id) -> Progress<
    FetchInvoiceView,
    FetchResultView,
> {
    match lookup(cache, id.name@) {
        Some(invoice) => Progress::Done(Ok(invoice)),
        None => Progress::Pending(FetchInvoiceView::Reading { root, id }),
    }
}

impl Operation for FetchInvoiceView {
    type Output = FetchResultView;

    open spec fn action(self) -> ActionView {
        match self {
            FetchInvoiceView::Reading { root, id } => ActionView::ReadText {
                path: spec_invoice_toml_path(root, id.sha@),
            },
            FetchInvoiceView::Decoding { id, text } => ActionView::Decode { text },
        }
    }

    open spec fn next(self, event: EventView) -> Progress<FetchInvoiceView, FetchResultView> {
        match (self, event) {
            (FetchInvoiceView::Reading { root, id }, EventView::Text(Ok(text))) => {
                Progress::Pending(FetchInvoiceView::Decoding { id, text })
            },
            (FetchInvoiceView::Reading { root, id }, EventView::Text(Err(e))) => Progress::Done(
                Err(spec_map_io_error(e)),
            ),
            (FetchInvoiceView::Decoding { id, text }, EventView::Decoded(Ok(invoice))) => {
                Progress::Done(Ok(invoice))
            },
            (FetchInvoiceView::Decoding { id, text }, EventView::Decoded(Err(e))) => {
                Progress::Done(Err(ProviderError::Malformed(e)))
            },
            _ => Progress::Pending(self),
        }
    }

    /// An invoice that was read is kept.
    open spec fn cache_after(self, cache: Entries, event: EventView) -> Entries {
        match (self, event) {
            (FetchInvoiceView::Decoding { id, text }, EventView::Decoded(Ok(invoice))) => {
                with_entry(cache, CACHE_SIZE as nat, id.name@, invoice)
            },
            _ => cache,
        }
    }
}

/// Whether `progress` is what `expected` says.
pub open spec fn fetch_progress_is(
    progress: Progress<FetchInvoice, Result<Invoice, ProviderError>>,
    expected: Progress<FetchInvoiceView, FetchResultView>,
) -> bool {
    match progress {
        Progress::Pending(op) => expected == Progress::<FetchInvoiceView, FetchResultView>::Pending(
            op@,
        ),
        Progress::Done(Ok(invoice)) => expected == Progress::<
            FetchInvoiceView,
            FetchResultView,
        >::Done(Ok(invoice@)),
        Progress::Done(Err(e)) => expected == Progress::<FetchInvoiceView, FetchResultView>::Done(
            Err(e),
        ),
    }
}

impl FetchInvoice {
    /// Starts to read the invoice `id` under `root`, whether or not it is yanked.
    pub fn start(root: &str, cache: &mut InvoiceCache, id: &Id) -> (res: Progress<
        FetchInvoice,
        Result<Invoice, ProviderError>,
    >)
        requires
            old(cache).wf(),
        ensures
            final(cache).wf(),
            final(cache)@ == touched(old(cache)@, id.name@),
            fetch_progress_is(res, spec_start_fetch(root@, old(cache)@, *id)),
    {
        match cache.get(id) {
            Some(invoice) => Progress::Done(Ok(invoice)),
            None => Progress::Pending(FetchInvoice::Reading { root: root.to_owned(), id: id.clone() }),
        }
    }

    /// What is to be done.
    pub fn action(&self) -> (res: Action)
        ensures
            res@ == self@.action(),
    {
        match self {
            FetchInvoice::Reading { root, id } => Action::ReadText {
                path: invoice_toml_path(root.as_str(), id.sha.as_str()),
            },
            FetchInvoice::Decoding { id: _, text } => Action::Decode { text: text.clone() },
        }
    }

    /// Takes in what came of the action.
    pub fn step(self, cache: &mut InvoiceCache, event: Event) -> (res: Progress<
        FetchInvoice,
        Result<Invoice, ProviderError>,
    >)
        requires
            old(cache).wf(),
        ensures
            final(cache).wf(),
            final(cache)@ == self@.cache_after(old(cache)@, event@),
            fetch_progress_is(res, self@.next(event@)),
    {
        match (self, event) {
            (FetchInvoice::Reading { root: _, id }, Event::Text(Ok(text))) => Progress::Pending(
                FetchInvoice::Decoding { id, text },
            ),
            (FetchInvoice::Reading { .. }, Event::Text(Err(e))) => Progress::Done(
                Err(map_io_error(e)),
            ),
            (FetchInvoice::Decoding { id, text: _ }, Event::Decoded(Ok(invoice))) => {
                // Put it into the cache
                cache.put(&id, invoice.clone());
                Progress::Done(Ok(invoice))
            },
            (FetchInvoice::Decoding { .. }, Event::Decoded(Err(e))) => Progress::Done(
                Err(ProviderError::Malformed(e)),
            ),
            (op, _) => Progress::Pending(op),
        }
    }
}

/// Hands out an invoice only if it is not yanked.
pub fn refuse_yanked(invoice: Invoice) -> (res: Result<Invoice, ProviderError>)
    ensures
        match res {
            Ok(kept) => kept == invoice && !invoice@.is_yanked(),
            Err(e) => e is Yanked && invoice@.is_yanked(),
        },
{
    if invoice.is_yanked() {
        return Err(ProviderError::Yanked);
    }
    Ok(invoice)
}

} // verus!
