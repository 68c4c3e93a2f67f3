//! Reading a parcel, and finding out whether it is there.

use crate::cache::Entries;
use crate::effect::{Action, ActionView, Event, EventView, FileKind, Operation, Progress};
use crate::error::{map_io_error, spec_map_io_error, IoError, IoErrorKind, ProviderError};
use crate::invoice::Id;
use crate::layout::{parcel_data_path, spec_parcel_data_path};
use vstd::prelude::*;

verus! {

/// How far an operation on a parcel that should be there has come: what it waits for.
#[derive(Clone, Copy, Debug, PartialEq, Eq, Structural)]
pub enum ReadStage {
    /// Does the bindle have such a parcel?
    Validate,
    /// The parcel's data is being looked for.
    Data,
}

/// The opening of a parcel for reading. At its end the data can be read from the open file.
pub struct GetParcel {
    root: String,
    bindle_id: Id,
    parcel_id: String,
    stage: ReadStage,
}

/// The question whether a parcel is there.
pub struct ParcelExists {
    root: String,
    bindle_id: Id,
    parcel_id: String,
    stage: ReadStage,
}

/// The mathematical content of a [`GetParcel`].
pub struct GetParcelView {
    pub root: Seq<char>,
    pub bindle_id: Id,
    pub parcel_id: Seq<char>,
    pub stage: ReadStage,
}

/// The mathematical content of a [`ParcelExists`].
pub struct ParcelExistsView {
    pub root: Seq<char>,
    pub bindle_id: Id,
    pub parcel_id: Seq<char>,
    pub stage: ReadStage,
}

impl View for GetParcel {
    type V = GetParcelView;

    closed spec fn view(&self) -> GetParcelView {
        GetParcelView {
            root: self.root@,
            bindle_id: self.bindle_id,
            parcel_id: self.parcel_id@,
            stage: self.stage,
        }
    }
}

impl View for ParcelExists {
    type V = ParcelExistsView;

    closed spec fn view(&self) -> ParcelExistsView {
        ParcelExistsView {
            root: self.root@,
            bindle_id: self.bindle_id,
            parcel_id: self.parcel_id@,
            stage: self.stage,
        }
    }
}

impl Operation for GetParcelView {
    type Output = Result<(), ProviderError>;

    open spec fn action(self) -> ActionView {
        match self.stage {
            ReadStage::Validate => ActionView::ValidateParcel {
                bindle_id: self.bindle_id,
                parcel_id: self.parcel_id,
            },
            ReadStage::Data => ActionView::OpenRead {
                path: spec_parcel_data_path(self.root, self.parcel_id),
            },
        }
    }

    open spec fn next(self, event: EventView) -> Progress<
        GetParcelView,
        Result<(), ProviderError>,
    > {
        match (self.stage, event) {
            (ReadStage::Validate, EventView::Validated(Ok(_))) => Progress::Pending(
                GetParcelView { stage: ReadStage::Data, ..self },
            ),
            (ReadStage::Validate, EventView::Validated(Err(e))) => Progress::Done(Err(e)),
            (ReadStage::Data, EventView::Opened(Ok(_))) => Progress::Done(Ok(())),
            (ReadStage::Data, EventView::Opened(Err(e))) => Progress::Done(
                Err(spec_map_io_error(e)),
            ),
            _ => Progress::Pending(self),
        }
    }

    open spec fn cache_after(self, cache: Entries, event: EventView) -> Entries {
        cache
    }
}

/// Whether the parcel is there, from what was found at the place of its data: only a regular
/// file is a parcel, and that nothing was found is an answer too.
pub open spec fn spec_existence(stat: Result<FileKind, IoError>) -> Result<bool, ProviderError> {
    match stat {
        Ok(kind) => Ok(kind is File),
        Err(e) => if e.kind is NotFound {
            Ok(false)
        } else {
            Err(ProviderError::Io(e))
        },
    }
}

impl Operation for ParcelExistsView {
    type Output = Result<bool, ProviderError>;

    open spec fn action(self) -> ActionView {
        match self.stage {
            ReadStage::Validate => ActionView::ValidateParcel {
                bindle_id: self.bindle_id,
                parcel_id: self.parcel_id,
            },
            ReadStage::Data => ActionView::Stat {
                path: spec_parcel_data_path(self.root, self.parcel_id),
            },
        }
    }

    open spec fn next(self, event: EventView) -> Progress<
        ParcelExistsView,
        Result<bool, ProviderError>,
    > {
        match (self.stage, event) {
            (ReadStage::Validate, EventView::Validated(Ok(_))) => Progress::Pending(
                ParcelExistsView { stage: ReadStage::Data, ..self },
            ),
            (ReadStage::Validate, EventView::Validated(Err(e))) => Progress::Done(Err(e)),
            (ReadStage::Data, EventView::Stated(stat)) => Progress::Done(spec_existence(stat)),
            _ => Progress::Pending(self),
        }
    }

    open spec fn cache_after(self, cache: Entries, event: EventView) -> Entries {
        cache
    }
}

/// Whether the parcel is there, from what was found at the place of its data.
pub fn existence(stat: Result<FileKind, IoError>) -> (res: Result<bool, ProviderError>)
    ensures
        res == spec_existence(stat),
{
    match stat {
        Ok(kind) => Ok(kind == FileKind::File),
        Err(e) => {
            if e.kind == IoErrorKind::NotFound {
                Ok(false)
            } else {
                Err(ProviderError::Io(e))
            }
        },
    }
}

impl GetParcel {
    /// Starts to open the parcel `parcel_id` of the bindle `bindle_id` under `root`.
    pub fn start(root: &str, bindle_id: &Id, parcel_id: &str) -> (res: Self)
        ensures
            res@ == (GetParcelView {
                root: root@,
                bindle_id: *bindle_id,
                parcel_id: parcel_id@,
                stage: ReadStage::Validate,
            }),
    {
        GetParcel {
            root: root.to_owned(),
            bindle_id: bindle_id.clone(),
            parcel_id: parcel_id.to_owned(),
            stage: ReadStage::Validate,
        }
    }

    /// What is to be done.
    pub fn action(&self) -> (res: Action)
        ensures
            res@ == self@.action(),
    {
        match self.stage {
            ReadStage::Validate => Action::ValidateParcel {
                bindle_id: self.bindle_id.clone(),
                parcel_id: self.parcel_id.clone(),
            },
            ReadStage::Data => Action::OpenRead {
                path: parcel_data_path(self.root.as_str(), self.parcel_id.as_str()),
            },
        }
    }

    /// Takes in what came of the action.
    pub fn step(self, event: Event) -> (res: Progress<GetParcel, Result<(), ProviderError>>)
        ensures
            match res {
                Progress::Pending(op) => self@.next(event@) == Progress::<
                    GetParcelView,
                    Result<(), ProviderError>,
                >::Pending(op@),
                Progress::Done(r) => self@.next(event@) == Progress::<
                    GetParcelView,
                    Result<(), ProviderError>,
                >::Done(r),
            },
    {
        match (self.stage, event) {
            (ReadStage::Validate, Event::Validated(Ok(_))) => {
                let mut op = self;
                op.stage = ReadStage::Data;
                Progress::Pending(op)
            },
            (ReadStage::Validate, Event::Validated(Err(e))) => Progress::Done(Err(e)),
            (ReadStage::Data, Event::Opened(Ok(_))) => Progress::Done(Ok(())),
            (ReadStage::Data, Event::Opened(Err(e))) => Progress::Done(Err(map_io_error(e))),
            _ => Progress::Pending(self),
        }
    }
}

impl ParcelExists {
    /// Starts to ask for the parcel `parcel_id` of the bindle `bindle_id` under `root`.
    pub fn start(root: &str, bindle_id: &Id, parcel_id: &str) -> (res: Self)
        ensures
            res@ == (ParcelExistsView {
                root: root@,
                bindle_id: *bindle_id,
                parcel_id: parcel_id@,
                stage: ReadStage::Validate,
            }),
    {
        ParcelExists {
            root: root.to_owned(),
            bindle_id: bindle_id.clone(),
            parcel_id: parcel_id.to_owned(),
            stage: ReadStage::Validate,
        }
    }

    /// What is to be done.
    pub fn action(&self) -> (res: Action)
        ensures
            res@ == self@.action(),
    {
        match self.stage {
            ReadStage::Validate => Action::ValidateParcel {
                bindle_id: self.bindle_id.clone(),
                parcel_id: self.parcel_id.clone(),
            },
            ReadStage::Data => Action::Stat {
                path: parcel_data_path(self.root.as_str(), self.parcel_id.as_str()),
            },
        }
    }

    /// Takes in what came of the action.
    pub fn step(self, event: Event) -> (res: Progress<ParcelExists, Result<bool, ProviderError>>)
        ensures
            match res {
                Progress::Pending(op) => self@.next(event@) == Progress::<
                    ParcelExistsView,
                    Result<bool, ProviderError>,
                >::Pending(op@),
                Progress::Done(r) => self@.next(event@) == Progress::<
                    ParcelExistsView,
                    Result<bool, ProviderError>,
                >::Done(r),
            },
    {
        match (self.stage, event) {
            (ReadStage::Validate, Event::Validated(Ok(_))) => {
                let mut op = self;
                op.stage = ReadStage::Data;
                Progress::Pending(op)
            },
            (ReadStage::Validate, Event::Validated(Err(e))) => Progress::Done(Err(e)),
            (ReadStage::Data, Event::Stated(stat)) => Progress::Done(existence(stat)),
            _ => Progress::Pending(self),
        }
    }
}

} // verus!
