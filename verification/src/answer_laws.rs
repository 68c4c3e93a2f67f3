//! What an operation makes of an event that does not answer what it asked for: nothing.

use crate::cache::Entries;
use crate::create_invoice::{CreateInvoiceView, CreateResultView};
use crate::create_parcel::CreateParcelView;
use crate::effect::{ActionView, EventView, Operation, Progress};
use crate::error::ProviderError;
use crate::fetch_invoice::{FetchInvoiceView, FetchResultView};
use crate::read_parcel::{GetParcelView, ParcelExistsView};
use crate::warm_index::{WarmError, WarmIndexView};
use crate::yank_invoice::YankInvoiceView;
use vstd::prelude::*;

verus! {

/// Whether `event` is of the sort that answers `action`.
pub open spec fn is_answer(action: ActionView, event: EventView) -> bool {
    match action {
        ActionView::Stat { .. } => event is Stated,
        ActionView::StatAll { paths } => event matches EventView::StatedAll(stats) && stats.len()
            == paths.len(),
        ActionView::CreateDirAll { .. }
        | ActionView::CreateNew { .. }
        | ActionView::Write { .. }
        | ActionView::CopyStream
        | ActionView::Flush
        | ActionView::Rewind
        | ActionView::Rename { .. }
        | ActionView::WriteFile { .. }
        | ActionView::ReadDir { .. } => event is Finished,
        ActionView::HashFile => event is Hashed,
        ActionView::ReadText { .. } => event is Text,
        ActionView::OpenRead { .. } => event is Opened,
        ActionView::NextEntry => event is Entry,
        ActionView::Encode { .. } => event is Encoded,
        ActionView::Decode { .. } => event is Decoded,
        ActionView::Index { .. } => event is Indexed,
        ActionView::ValidateParcel { .. } => event is Validated,
    }
}

/// An event that is no answer leaves the storing of an invoice where it is.
pub proof fn create_invoice_waits_for_its_answer(op: CreateInvoiceView, event: EventView)
    requires
        !is_answer(op.action(), event),
    ensures
        op.next(event) == Progress::<CreateInvoiceView, CreateResultView>::Pending(op),
{
}

/// An event that is no answer leaves the storing of a parcel where it is.
pub proof fn create_parcel_waits_for_its_answer(op: CreateParcelView, event: EventView)
    requires
        !is_answer(op.action(), event),
    ensures
        op.next(event) == Progress::<CreateParcelView, Result<(), ProviderError>>::Pending(op),
{
}

/// An event that is no answer leaves the reading of an invoice where it is, and the cache too.
pub proof fn fetch_waits_for_its_answer(op: FetchInvoiceView, cache: Entries, event: EventView)
    requires
        !is_answer(op.action(), event),
    ensures
        op.next(event) == Progress::<FetchInvoiceView, FetchResultView>::Pending(op),
        op.cache_after(cache, event) == cache,
{
}

/// An event that is no answer leaves the yanking of an invoice where it is, and the cache too.
pub proof fn yank_waits_for_its_answer(op: YankInvoiceView, cache: Entries, event: EventView)
    requires
        !is_answer(op.action(), event),
    ensures
        op.next(event) == Progress::<YankInvoiceView, Result<(), ProviderError>>::Pending(op),
        op.cache_after(cache, event) == cache,
{
}

/// An event that is no answer leaves the opening of a parcel where it is.
pub proof fn get_parcel_waits_for_its_answer(op: GetParcelView, event: EventView)
    requires
        !is_answer(op.action(), event),
    ensures
        op.next(event) == Progress::<GetParcelView, Result<(), ProviderError>>::Pending(op),
{
}

/// An event that is no answer leaves the question for a parcel where it is.
pub proof fn parcel_exists_waits_for_its_answer(op: ParcelExistsView, event: EventView)
    requires
        !is_answer(op.action(), event),
    ensures
        op.next(event) == Progress::<ParcelExistsView, Result<bool, ProviderError>>::Pending(op),
{
}

/// An event that is no answer leaves the warming of the index where it is.
pub proof fn warm_index_waits_for_its_answer(op: WarmIndexView, event: EventView)
    requires
        !is_answer(op.action(), event),
    ensures
        op.next(event) == Progress::<WarmIndexView, Result<(), WarmError>>::Pending(op),
{
}

} // verus!
