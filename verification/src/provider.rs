//! The store itself: a root directory, a search index and a cache.

use crate::cache::{touched, InvoiceCache};
use crate::create_invoice::{create_progress_is, spec_start_create, CreateInvoice};
use crate::create_parcel::{spec_start_parcel, CreateParcel};
use crate::effect::Progress;
use crate::error::ProviderError;
use crate::fetch_invoice::{fetch_progress_is, spec_start_fetch, FetchInvoice};
use crate::invoice::{Id, Invoice, InvoiceView, Label};
use crate::layout;
use crate::read_parcel::{GetParcel, GetParcelView, ParcelExists, ParcelExistsView, ReadStage};
use crate::warm_index::{WarmIndex, WarmIndexView};
use crate::yank_invoice::{spec_start_yank, yank_progress_is, YankInvoice};
use vstd::prelude::*;

verus! {

/// A file system backend for storing and retrieving bindles and parcels.
///
/// Given a root directory, a `FileProvider` brings its own storage layout for keeping track of
/// bindles.
///
/// A `FileProvider` needs a search engine. When invoices are created or yanked, the operations
/// ask for the index to be updated.
pub struct FileProvider<T> {
    pub root: String,
    pub index: T,
    pub invoice_cache: InvoiceCache,
}

impl<T> FileProvider<T> {
    /// The cache is in order.
    pub open spec fn wf(&self) -> bool {
        self.invoice_cache.wf()
    }

    /// A provider for the tree under `path`, with an empty cache. Before it is used, the index
    /// should be warmed.
    pub fn new(path: &str, index: T) -> (res: Self)
        ensures
            res.wf(),
            res.root@ == path@,
            res.index == index,
            res.invoice_cache@ == Seq::<(Seq<char>, InvoiceView)>::empty(),
    {
        FileProvider { root: path.to_owned(), index, invoice_cache: InvoiceCache::new() }
    }

    /// Starts to warm the index by loading all of the invoices currently on disk.
    pub fn warm_index(&self) -> (res: WarmIndex)
        ensures
            res@ == (WarmIndexView::Checking { root: self.root@ }),
    {
        WarmIndex::start(self.root.as_str())
    }

    /// Return the path to the invoice directory for a particular bindle.
    pub fn invoice_path(&self, invoice_id: &str) -> (res: String)
        ensures
            res@ == layout::spec_invoice_path(self.root@, invoice_id@),
    {
        layout::invoice_path(self.root.as_str(), invoice_id)
    }

    /// Return the path for an invoice.toml for a particular bindle.
    pub fn invoice_toml_path(&self, invoice_id: &str) -> (res: String)
        ensures
            res@ == layout::spec_invoice_toml_path(self.root@, invoice_id@),
    {
        layout::invoice_toml_path(self.root.as_str(), invoice_id)
    }

    /// Return the parcel-specific path for storing a parcel.
    pub fn parcel_path(&self, parcel_id: &str) -> (res: String)
        ensures
            res@ == layout::spec_parcel_path(self.root@, parcel_id@),
    {
        layout::parcel_path(self.root.as_str(), parcel_id)
    }

    /// Return the path to the parcel.dat file for the given box ID.
    pub fn parcel_data_path(&self, parcel_id: &str) -> (res: String)
        ensures
            res@ == layout::spec_parcel_data_path(self.root@, parcel_id@),
    {
        layout::parcel_data_path(self.root.as_str(), parcel_id)
    }

    /// Starts to store `inv`.
    pub fn create_invoice(&self, inv: &Invoice) -> (res: Progress<
        CreateInvoice,
        Result<Vec<Label>, ProviderError>,
    >)
        ensures
            create_progress_is(res, spec_start_create(self.root@, inv@)),
    {
        CreateInvoice::start(self.root.as_str(), inv)
    }

    /// Starts to read the invoice `id`, whether or not it is yanked.
    pub fn get_yanked_invoice(&mut self, id: &Id) -> (res: Progress<
        FetchInvoice,
        Result<Invoice, ProviderError>,
    >)
        requires
            old(self).wf(),
        ensures
            final(self).wf(),
            final(self).root == old(self).root,
            final(self).index == old(self).index,
            final(self).invoice_cache@ == touched(old(self).invoice_cache@, id.name@),
            fetch_progress_is(
                res,
                spec_start_fetch(old(self).root@, old(self).invoice_cache@, *id),
            ),
    {
        FetchInvoice::start(self.root.as_str(), &mut self.invoice_cache, id)
    }

    /// Starts to yank the invoice `id`.
    pub fn yank_invoice(&mut self, id: &Id) -> (res: Progress<
        YankInvoice,
        Result<(), ProviderError>,
    >)
        requires
            old(self).wf(),
        ensures
            final(self).wf(),
            final(self).root == old(self).root,
            final(self).index == old(self).index,
            final(self).invoice_cache@ == touched(old(self).invoice_cache@, id.name@),
            yank_progress_is(
                res,
                spec_start_yank(old(self).root@, old(self).invoice_cache@, *id),
            ),
    {
        YankInvoice::start(self.root.as_str(), &mut self.invoice_cache, id)
    }

    /// Starts to store the data of the parcel `parcel_id` of the bindle `bindle_id`.
    pub fn create_parcel(&self, bindle_id: &Id, parcel_id: &str) -> (res: CreateParcel)
        ensures
            res@ == spec_start_parcel(self.root@, *bindle_id, parcel_id@),
    {
        CreateParcel::start(self.root.as_str(), bindle_id, parcel_id)
    }

    /// Starts to open the parcel `parcel_id` of the bindle `bindle_id`.
    pub fn get_parcel(&self, bindle_id: &Id, parcel_id: &str) -> (res: GetParcel)
        ensures
            res@ == (GetParcelView {
                root: self.root@,
                bindle_id: *bindle_id,
                parcel_id: parcel_id@,
                stage: ReadStage::Validate,
            }),
    {
        GetParcel::start(self.root.as_str(), bindle_id, parcel_id)
    }

    /// Starts to ask whether the parcel `parcel_id` of the bindle `bindle_id` is there.
    pub fn parcel_exists(&self, bindle_id: &Id, parcel_id: &str) -> (res: ParcelExists)
        ensures
            res@ == (ParcelExistsView {
                root: self.root@,
                bindle_id: *bindle_id,
                parcel_id: parcel_id@,
                stage: ReadStage::Validate,
            }),
    {
        ParcelExists::start(self.root.as_str(), bindle_id, parcel_id)
    }
}

} // verus!
