//! Storing a parcel.

use crate::cache::Entries;
use crate::digest::{sha256, spec_lower_hex, validate_sha256};
use crate::effect::{found, is_dir, Action, ActionView, Event, EventView, FileKind, Operation, Progress};
use crate::error::{IoError, ProviderError};
use crate::invoice::Id;
use crate::layout::{parcel_data_path, parcel_path, spec_parcel_data_path, spec_parcel_path};
use crate::path::{part_path, spec_part_path};
use vstd::prelude::*;

verus! {

/// How far the storing of a parcel has come: what it waits for.
#[derive(Clone, Copy, Debug, PartialEq, Eq, Structural)]
pub enum ParcelStage {
    /// Does the bindle have such a parcel?
    Validate,
    /// Is the parcel's directory there already?
    DirCheck,
    /// The directory is being made.
    MakeDir,
    /// Is there anything at the part path already, so that someone else is writing?
    PartCheck,
    /// The part file is being made.
    OpenPart,
    /// The data is being written to the part file.
    Copy,
    /// The system is taking what was written.
    Flush,
    /// The part file is being rewound.
    Rewind,
    /// The part file is being read back and hashed.
    Verify,
    /// The part file is getting its proper name.
    Publish,
}

/// The storing of one parcel.
pub struct CreateParcel {
    root: String,
    bindle_id: Id,
    parcel_id: String,
    stage: ParcelStage,
}

/// The mathematical content of a [`CreateParcel`].
pub struct CreateParcelView {
    pub root: Seq<char>,
    pub bindle_id: Id,
    pub parcel_id: Seq<char>,
    pub stage: ParcelStage,
}

impl View for CreateParcel {
    type V = CreateParcelView;

    closed spec fn view(&self) -> CreateParcelView {
        CreateParcelView {
            root: self.root@,
            bindle_id: self.bindle_id,
            parcel_id: self.parcel_id@,
            stage: self.stage,
        }
    }
}

/// Whether `data` is what the parcel `parcel_id` holds: its SHA-256 digest is the parcel's name.
pub open spec fn is_parcel_data(data: Seq<u8>, parcel_id: Seq<char>) -> bool {
    spec_lower_hex(sha256(data)) == parcel_id
}

impl CreateParcelView {
    /// The parcel's directory.
    pub open spec fn dir(self) -> Seq<char> {
        spec_parcel_path(self.root, self.parcel_id)
    }

    /// The file with the parcel's data.
    pub open spec fn dest(self) -> Seq<char> {
        spec_parcel_data_path(self.root, self.parcel_id)
    }

    /// The file that is written first.
    pub open spec fn part(self) -> Seq<char> {
        spec_part_path(self.dest())
    }

    /// The operation at another stage.
    pub open spec fn at(self, stage: ParcelStage) -> Progress<
        CreateParcelView,
        Result<(), ProviderError>,
    > {
        Progress::Pending(CreateParcelView { stage, ..self })
    }

    /// The stage after `done`, or the failure of the file system.
    pub open spec fn unless_failed(self, done: Result<(), IoError>, stage: ParcelStage) -> Progress<
        CreateParcelView,
        Result<(), ProviderError>,
    > {
        match done {
            Ok(()) => self.at(stage),
            Err(e) => Progress::Done(Err(ProviderError::Io(e))),
        }
    }
}

impl Operation for CreateParcelView {
    type Output = Result<(), ProviderError>;

    open spec fn action(self) -> ActionView {
        match self.stage {
            ParcelStage::Validate => ActionView::ValidateParcel {
                bindle_id: self.bindle_id,
                parcel_id: self.parcel_id,
            },
            ParcelStage::DirCheck => ActionView::Stat { path: self.dir() },
            ParcelStage::MakeDir => ActionView::CreateDirAll { path: self.dir() },
            ParcelStage::PartCheck => ActionView::Stat { path: self.part() },
            ParcelStage::OpenPart => ActionView::CreateNew { path: self.part() },
            ParcelStage::Copy => ActionView::CopyStream,
            ParcelStage::Flush => ActionView::Flush,
            ParcelStage::Rewind => ActionView::Rewind,
            ParcelStage::Verify => ActionView::HashFile,
            ParcelStage::Publish => ActionView::Rename { from: self.part(), to: self.dest() },
        }
    }

    open spec fn next(self, event: EventView) -> Progress<
        CreateParcelView,
        Result<(), ProviderError>,
    > {
        match (self.stage, event) {
            (ParcelStage::Validate, EventView::Validated(Ok(_))) => self.at(ParcelStage::DirCheck),
            (ParcelStage::Validate, EventView::Validated(Err(e))) => Progress::Done(Err(e)),
            (ParcelStage::DirCheck, EventView::Stated(stat)) => if found(stat, FileKind::Dir) {
                Progress::Done(Err(ProviderError::Exists))
            } else {
                self.at(ParcelStage::MakeDir)
            },
            (ParcelStage::MakeDir, EventView::Finished(done)) => self.unless_failed(
                done,
                ParcelStage::PartCheck,
            ),
            (ParcelStage::PartCheck, EventView::Stated(stat)) => if stat is Ok {
                Progress::Done(Err(ProviderError::WriteInProgress))
            } else {
                self.at(ParcelStage::OpenPart)
            },
            (ParcelStage::OpenPart, EventView::Finished(done)) => self.unless_failed(
                done,
                ParcelStage::Copy,
            ),
            (ParcelStage::Copy, EventView::Finished(done)) => self.unless_failed(
                done,
                ParcelStage::Flush,
            ),
            (ParcelStage::Flush, EventView::Finished(done)) => self.unless_failed(
                done,
                ParcelStage::Rewind,
            ),
            (ParcelStage::Rewind, EventView::Finished(done)) => self.unless_failed(
                done,
                ParcelStage::Verify,
            ),
            (ParcelStage::Verify, EventView::Hashed(Ok(data))) => if is_parcel_data(
                data,
                self.parcel_id,
            ) {
                self.at(ParcelStage::Publish)
            } else {
                Progress::Done(Err(ProviderError::DigestMismatch))
            },
            (ParcelStage::Verify, EventView::Hashed(Err(e))) => Progress::Done(
                Err(ProviderError::Io(e)),
            ),
            (ParcelStage::Publish, EventView::Finished(Ok(_))) => Progress::Done(Ok(())),
            (ParcelStage::Publish, EventView::Finished(Err(e))) => Progress::Done(
                Err(ProviderError::Io(e)),
            ),
            _ => Progress::Pending(self),
        }
    }

    open spec fn cache_after(self, cache: Entries, event: EventView) -> Entries {
        cache
    }
}

/// The beginning of the storing of a parcel.
pub open spec fn spec_start_parcel(
    root: Seq<char>,
    bindle_id: Id,
    parcel_id: Seq<char>,
) -> CreateParcelView {
    CreateParcelView { root, bindle_id, parcel_id, stage: ParcelStage::Validate }
}

/// Whether `progress` is what `expected` says.
pub open spec fn parcel_progress_is(
    progress: Progress<CreateParcel, Result<(), ProviderError>>,
    expected: Progress<CreateParcelView, Result<(), ProviderError>>,
) -> bool {
    match progress {
        Progress::Pending(op) => expected == Progress::<
            CreateParcelView,
            Result<(), ProviderError>,
        >::Pending(op@),
        Progress::Done(res) => expected == Progress::<
            CreateParcelView,
            Result<(), ProviderError>,
        >::Done(res),
    }
}

impl CreateParcel {
    /// Starts to store the parcel `parcel_id` of the bindle `bindle_id` under `root`.
    pub fn start(root: &str, bindle_id: &Id, parcel_id: &str) -> (res: Self)
        ensures
            res@ == spec_start_parcel(root@, *bindle_id, parcel_id@),
    {
        CreateParcel {
            root: root.to_owned(),
            bindle_id: bindle_id.clone(),
            parcel_id: parcel_id.to_owned(),
            stage: ParcelStage::Validate,
        }
    }

    fn dir(&self) -> (res: String)
        ensures
            res@ == self@.dir(),
    {
        parcel_path(self.root.as_str(), self.parcel_id.as_str())
    }

    fn dest(&self) -> (res: String)
        ensures
            res@ == self@.dest(),
    {
        parcel_data_path(self.root.as_str(), self.parcel_id.as_str())
    }

    fn part(&self) -> (res: String)
        ensures
            res@ == self@.part(),
    {
        part_path(self.dest().as_str())
    }

    /// What is to be done.
    pub fn action(&self) -> (res: Action)
        ensures
            res@ == self@.action(),
    {
        match self.stage {
            ParcelStage::Validate => Action::ValidateParcel {
                bindle_id: self.bindle_id.clone(),
                parcel_id: self.parcel_id.clone(),
            },
            ParcelStage::DirCheck => Action::Stat { path: self.dir() },
            ParcelStage::MakeDir => Action::CreateDirAll { path: self.dir() },
            ParcelStage::PartCheck => Action::Stat { path: self.part() },
            ParcelStage::OpenPart => Action::CreateNew { path: self.part() },
            ParcelStage::Copy => Action::CopyStream,
            ParcelStage::Flush => Action::Flush,
            ParcelStage::Rewind => Action::Rewind,
            ParcelStage::Verify => Action::HashFile,
            ParcelStage::Publish => Action::Rename { from: self.part(), to: self.dest() },
        }
    }

    fn at(self, stage: ParcelStage) -> (res: Progress<CreateParcel, Result<(), ProviderError>>)
        ensures
            parcel_progress_is(res, self@.at(stage)),
    {
        let mut op = self;
        op.stage = stage;
        Progress::Pending(op)
    }

    fn unless_failed(self, done: Result<(), IoError>, stage: ParcelStage) -> (res: Progress<
        CreateParcel,
        Result<(), ProviderError>,
    >)
        ensures
            parcel_progress_is(res, self@.unless_failed(done, stage)),
    {
        match done {
            Ok(()) => self.at(stage),
            Err(e) => Progress::Done(Err(ProviderError::Io(e))),
        }
    }

    /// Takes in what came of the action.
    pub fn step(self, event: Event) -> (res: Progress<CreateParcel, Result<(), ProviderError>>)
        ensures
            parcel_progress_is(res, self@.next(event@)),
    {
        match (self.stage, event) {
            (ParcelStage::Validate, Event::Validated(Ok(_))) => self.at(ParcelStage::DirCheck),
            (ParcelStage::Validate, Event::Validated(Err(e))) => Progress::Done(Err(e)),
            // Test if a dir with that SHA exists. If so, this is an error.
            (ParcelStage::DirCheck, Event::Stated(stat)) => {
                if is_dir(&stat) {
                    Progress::Done(Err(ProviderError::Exists))
                } else {
                    self.at(ParcelStage::MakeDir)
                }
            },
            (ParcelStage::MakeDir, Event::Finished(done)) => self.unless_failed(
                done,
                ParcelStage::PartCheck,
            ),
            (ParcelStage::PartCheck, Event::Stated(stat)) => {
                if stat.is_ok() {
                    Progress::Done(Err(ProviderError::WriteInProgress))
                } else {
                    self.at(ParcelStage::OpenPart)
                }
            },
            (ParcelStage::OpenPart, Event::Finished(done)) => self.unless_failed(
                done,
                ParcelStage::Copy,
            ),
            (ParcelStage::Copy, Event::Finished(done)) => self.unless_failed(
                done,
                ParcelStage::Flush,
            ),
            // Verify parcel by rewinding the parcel and then hashing it. This MUST be after the
            // last write, otherwise the results will not be correct.
            (ParcelStage::Flush, Event::Finished(done)) => self.unless_failed(
                done,
                ParcelStage::Rewind,
            ),
            (ParcelStage::Rewind, Event::Finished(done)) => self.unless_failed(
                done,
                ParcelStage::Verify,
            ),
            (ParcelStage::Verify, Event::Hashed(Ok(hasher))) => {
                match validate_sha256(hasher, self.parcel_id.as_str()) {
                    Ok(()) => self.at(ParcelStage::Publish),
                    Err(e) => Progress::Done(Err(e)),
                }
            },
            (ParcelStage::Verify, Event::Hashed(Err(e))) => Progress::Done(
                Err(ProviderError::Io(e)),
            ),
            (ParcelStage::Publish, Event::Finished(Ok(_))) => Progress::Done(Ok(())),
            (ParcelStage::Publish, Event::Finished(Err(e))) => Progress::Done(
                Err(ProviderError::Io(e)),
            ),
            _ => Progress::Pending(self),
        }
    }
}

} // verus!
