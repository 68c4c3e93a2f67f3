//! Yanking an invoice: it stays in the store, marked as not to be used.

use crate::cache::{touched, without, Entries, InvoiceCache};
use crate::effect::{Action, ActionView, Event, EventView, Operation, Progress};
use crate::error::ProviderError;
use crate::fetch_invoice::{spec_start_fetch, FetchInvoice, FetchInvoiceView};
use crate::invoice::{Id, Invoice, InvoiceView};
use crate::layout::{invoice_toml_path, spec_invoice_toml_path};
use vstd::prelude::*;

verus! {

/// The yanking of one invoice.
pub enum YankInvoice {
    /// The invoice is being read.
    Fetching { root: String, id: Id, fetch: FetchInvoice },
    /// The search index is being told.
    Indexing { root: String, id: Id, invoice: Invoice },
    /// The invoice is being written out.
    Encoding { root: String, id: Id, invoice: Invoice },
    /// The document is being stored.
    Writing { root: String, id: Id, invoice: Invoice, data: Vec<u8> },
}

/// The mathematical content of a [`YankInvoice`].
pub enum YankInvoiceView {
    Fetching { root: Seq<char>, id: Id, fetch: FetchInvoiceView },
    Indexing { root: Seq<char>, id: Id, invoice: InvoiceView },
    Encoding { root: Seq<char>, id: Id, invoice: InvoiceView },
    Writing { root: Seq<char>, id: Id, invoice: InvoiceView, data: Seq<u8> },
}

impl View for YankInvoice {
    type V = YankInvoiceView;

    open spec fn view(&self) -> YankInvoiceView {
        match *self {
            YankInvoice::Fetching { root, id, fetch } => YankInvoiceView::Fetching {
                root: root@,
                id,
                fetch: fetch@,
            },
            YankInvoice::Indexing { root, id, invoice } => YankInvoiceView::Indexing {
                root: root@,
                id,
                invoice: invoice@,
            },
            YankInvoice::Encoding { root, id, invoice } => YankInvoiceView::Encoding {
                root: root@,
                id,
                invoice: invoice@,
            },
            YankInvoice::Writing { root, id, invoice, data } => YankInvoiceView::Writing {
                root: root@,
                id,
                invoice: invoice@,
                data: data@,
            },
        }
    }
}

/// What follows the reading of the invoice `id`: the invoice that was read is marked as yanked.
pub open spec fn spec_after_fetch(
    root: Seq<char>,
    id: Id,
    fetched: Progress<FetchInvoiceView, Result<InvoiceView, ProviderError>>,
) -> Progress<YankInvoiceView, Result<(), ProviderError>> {
    match fetched {
        Progress::Pending(fetch) => Progress::Pending(
            YankInvoiceView::Fetching { root, id, fetch },
        ),
        Progress::Done(Ok(invoice)) => Progress::Pending(
            YankInvoiceView::Indexing { root, id, invoice: invoice.yank() },
        ),
        Progress::Done(Err(e)) => Progress::Done(Err(e)),
    }
}

/// The beginning of the yanking of an invoice.
pub open spec fn spec_start_yank(root: Seq<char>, cache: Entries, id: Id) -> Progress<
    YankInvoiceView,
    Result<(), ProviderError>,
> {
    spec_after_fetch(root, id, spec_start_fetch(root, cache, id))
}

impl Operation for YankInvoiceView {
    type Output = Result<(), ProviderError>;

    open spec fn action(self) -> ActionView {
        match self {
            YankInvoiceView::Fetching { root, id, fetch } => fetch.action(),
            YankInvoiceView::Indexing { root, id, invoice } => ActionView::Index { invoice },
            YankInvoiceView::Encoding { root, id, invoice } => ActionView::Encode { invoice },
            YankInvoiceView::Writing { root, id, invoice, data } => ActionView::WriteFile {
                path: spec_invoice_toml_path(root, invoice.canonical_name()),
                data,
            },
        }
    }

    open spec fn next(self, event: EventView) -> Progress<
        YankInvoiceView,
        Result<(), ProviderError>,
    > {
        match (self, event) {
            (YankInvoiceView::Fetching { root, id, fetch }, _) => spec_after_fetch(
                root,
                id,
                fetch.next(event),
            ),
            (YankInvoiceView::Indexing { root, id, invoice }, EventView::Indexed) => {
                Progress::Pending(YankInvoiceView::Encoding { root, id, invoice })
            },
            (YankInvoiceView::Encoding { root, id, invoice }, EventView::Encoded(Ok(data))) => {
                Progress::Pending(YankInvoiceView::Writing { root, id, invoice, data })
            },
            (YankInvoiceView::Encoding { root, id, invoice }, EventView::Encoded(Err(e))) => {
                Progress::Done(Err(ProviderError::Unserializable(e)))
            },
            (YankInvoiceView::Writing { root, id, invoice, data }, EventView::Finished(Ok(_))) => {
                Progress::Done(Ok(()))
            },
            (YankInvoiceView::Writing { root, id, invoice, data }, EventView::Finished(Err(e))) => {
                Progress::Done(Err(ProviderError::Io(e)))
            },
            _ => Progress::Pending(self),
        }
    }

    /// Once the yanked invoice is stored, the one kept for its bindle is forgotten.
    open spec fn cache_after(self, cache: Entries, event: EventView) -> Entries {
        match (self, event) {
            (YankInvoiceView::Fetching { root, id, fetch }, _) => fetch.cache_after(cache, event),
            (YankInvoiceView::Writing { root, id, invoice, data }, EventView::Finished(Ok(_))) => {
                without(cache, id.name@)
            },
            _ => cache,
        }
    }
}

/// Whether `progress` is what `expected` says.
pub open spec fn yank_progress_is(
    progress: Progress<YankInvoice, Result<(), ProviderError>>,
    expected: Progress<YankInvoiceView, Result<(), ProviderError>>,
) -> bool {
    match progress {
        Progress::Pending(op) => expected == Progress::<
            YankInvoiceView,
            Result<(), ProviderError>,
        >::Pending(op@),
        Progress::Done(res) => expected == Progress::<
            YankInvoiceView,
            Result<(), ProviderError>,
        >::Done(res),
    }
}

impl YankInvoice {
    /// Starts to yank the invoice `id` under `root`.
    pub fn start(root: &str, cache: &mut InvoiceCache, id: &Id) -> (res: Progress<
        YankInvoice,
        Result<(), ProviderError>,
    >)
        requires
            old(cache).wf(),
        ensures
            final(cache).wf(),
            final(cache)@ == touched(old(cache)@, id.name@),
            yank_progress_is(res, spec_start_yank(root@, old(cache)@, *id)),
    {
        let fetched = FetchInvoice::start(root, cache, id);
        YankInvoice::after_fetch(root.to_owned(), id.clone(), fetched)
    }

    fn after_fetch(
        root: String,
        id: Id,
        fetched: Progress<FetchInvoice, Result<Invoice, ProviderError>>,
    ) -> (res: Progress<YankInvoice, Result<(), ProviderError>>)
        ensures
            yank_progress_is(
                res,
                spec_after_fetch(
                    root@,
                    id,
                    match fetched {
                        Progress::Pending(fetch) => Progress::Pending(fetch@),
                        Progress::Done(Ok(invoice)) => Progress::Done(Ok(invoice@)),
                        Progress::Done(Err(e)) => Progress::Done(Err(e)),
                    },
                ),
            ),
    {
        match fetched {
            Progress::Pending(fetch) => Progress::Pending(
                YankInvoice::Fetching { root, id, fetch },
            ),
            Progress::Done(Ok(invoice)) => {
                let mut invoice = invoice;
                invoice.yanked = Some(true);
                Progress::Pending(YankInvoice::Indexing { root, id, invoice })
            },
            Progress::Done(Err(e)) => Progress::Done(Err(e)),
        }
    }

    /// What is to be done.
    pub fn action(&self) -> (res: Action)
        ensures
            res@ == self@.action(),
    {
        match self {
            YankInvoice::Fetching { root: _, id: _, fetch } => fetch.action(),
            YankInvoice::Indexing { root: _, id: _, invoice } => Action::Index {
                invoice: invoice.clone(),
            },
            YankInvoice::Encoding { root: _, id: _, invoice } => Action::Encode {
                invoice: invoice.clone(),
            },
            YankInvoice::Writing { root, id: _, invoice, data } => {
                let copy = data.clone();
                assert(copy@ =~= data@);
                Action::WriteFile {
                    path: invoice_toml_path(root.as_str(), invoice.canonical_name().as_str()),
                    data: copy,
                }
            },
        }
    }

    /// Takes in what came of the action.
    pub fn step(self, cache: &mut InvoiceCache, event: Event) -> (res: Progress<
        YankInvoice,
        Result<(), ProviderError>,
    >)
        requires
            old(cache).wf(),
        ensures
            final(cache).wf(),
            final(cache)@ == self@.cache_after(old(cache)@, event@),
            yank_progress_is(res, self@.next(event@)),
    {
        match (self, event) {
            (YankInvoice::Fetching { root, id, fetch }, event) => {
                let fetched = fetch.step(cache, event);
                YankInvoice::after_fetch(root, id, fetched)
            },
            (YankInvoice::Indexing { root, id, invoice }, Event::Indexed) => Progress::Pending(
                YankInvoice::Encoding { root, id, invoice },
            ),
            (YankInvoice::Encoding { root, id, invoice }, Event::Encoded(Ok(data))) => {
                Progress::Pending(YankInvoice::Writing { root, id, invoice, data })
            },
            (YankInvoice::Encoding { .. }, Event::Encoded(Err(e))) => Progress::Done(
                Err(ProviderError::Unserializable(e)),
            ),
            (YankInvoice::Writing { root: _, id, invoice: _, data: _ }, Event::Finished(Ok(_))) => {
                // Drop the invoice from the cache (as it is unlikely that someone will want to
                // fetch it right after yanking it)
                cache.pop(&id);
                Progress::Done(Ok(()))
            },
            (YankInvoice::Writing { .. }, Event::Finished(Err(e))) => Progress::Done(
                Err(ProviderError::Io(e)),
            ),
            (op, _) => Progress::Pending(op),
        }
    }
}

} // verus!
