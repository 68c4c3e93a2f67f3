//! Storing a new invoice.

use crate::cache::Entries;
use crate::effect::{found, is_dir, is_file, Action, ActionView, Event, EventView, FileKind, Operation, Progress};
use crate::error::{IoError, ProviderError};
use crate::invoice::{Invoice, InvoiceView, Label, Parcel};
use crate::layout::{invoice_path, invoice_toml_path, parcel_path, spec_invoice_path, spec_invoice_toml_path, spec_parcel_path};
use crate::path::{part_path, spec_part_path};
use vstd::prelude::*;

verus! {

/// How far the storing of an invoice has come: what it waits for.
#[derive(Clone, Copy, Debug, PartialEq, Eq, Structural)]
pub enum CreateStage {
    /// Is the invoice's directory there?
    DirCheck,
    /// Is a file in its place?
    DirRecheck,
    /// The directory is being made.
    MakeDir,
    /// Is the invoice there already?
    DestCheck,
    /// Is there anything at the part path already, so that someone else is writing?
    PartCheck,
    /// Is there anything just before the part file is made?
    PartRecheck,
    /// The part file is being made.
    OpenPart,
    /// The invoice is being written out.
    Encode,
    /// The document is being written to the part file.
    WritePart,
    /// The part file is getting its proper name.
    Publish,
    /// The search index is being told.
    Index,
    /// Which of the parcels are there?
    CheckParcels,
}

/// The storing of one invoice.
pub struct CreateInvoice {
    root: String,
    invoice: Invoice,
    data: Vec<u8>,
    stage: CreateStage,
}

/// The mathematical content of a [`CreateInvoice`].
pub struct CreateInvoiceView {
    pub root: Seq<char>,
    pub invoice: InvoiceView,
    /// The document, once it is written out.
    pub data: Seq<u8>,
    pub stage: CreateStage,
}

/// The result of storing an invoice: the labels of the parcels that are not there yet.
pub type CreateResultView = Result<Seq<Label>, ProviderError>;

impl View for CreateInvoice {
    type V = CreateInvoiceView;

    closed spec fn view(&self) -> CreateInvoiceView {
        CreateInvoiceView {
            root: self.root@,
            invoice: self.invoice@,
            data: self.data@,
            stage: self.stage,
        }
    }
}

/// The labels of those `parcels` at whose place no directory was found, in their order.
pub open spec fn missing_labels(
    parcels: Seq<Parcel>,
    stats: Seq<Result<FileKind, IoError>>,
) -> Seq<Label>
    decreases parcels.len(),
{
    if parcels.len() == 0 {
        Seq::empty()
    } else {
        let earlier = missing_labels(parcels.drop_last(), stats);
        if found(stats[parcels.len() - 1], FileKind::Dir) {
            earlier
        } else {
            earlier.push(parcels.last().label)
        }
    }
}

/// The beginning of the storing of an invoice.
pub open spec fn spec_start_create(root: Seq<char>, invoice: InvoiceView) -> Progress<
    CreateInvoiceView,
    CreateResultView,
> {
    if invoice.is_yanked() {
        Progress::Done(Err(ProviderError::CreateYanked))
    } else {
        Progress::Pending(
            CreateInvoiceView {
                root,
                invoice,
                data: Seq::empty(),
                stage: CreateStage::DirCheck,
            },
        )
    }
}

impl CreateInvoiceView {
    /// The invoice's directory.
    pub open spec fn dir(self) -> Seq<char> {
        spec_invoice_path(self.root, self.invoice.canonical_name())
    }

    /// The invoice's file.
    pub open spec fn dest(self) -> Seq<char> {
        spec_invoice_toml_path(self.root, self.invoice.canonical_name())
    }

    /// The file that is written first.
    pub open spec fn part(self) -> Seq<char> {
        spec_part_path(self.dest())
    }

    /// The directories of the parcels that the invoice lists.
    pub open spec fn parcel_dirs(self) -> Seq<Seq<char>> {
        Seq::new(
            self.invoice.parcels().len(),
            |i: int| spec_parcel_path(self.root, self.invoice.parcels()[i].label.sha256@),
        )
    }

    /// The operation at another stage.
    pub open spec fn at(self, stage: CreateStage) -> Progress<CreateInvoiceView, CreateResultView> {
        Progress::Pending(CreateInvoiceView { stage, ..self })
    }

    /// The stage after `done`, or the failure of the file system.
    pub open spec fn unless_failed(
        self,
        done: Result<(), IoError>,
        stage: CreateStage,
    ) -> Progress<CreateInvoiceView, CreateResultView> {
        match done {
            Ok(()) => self.at(stage),
            Err(e) => Progress::Done(Err(ProviderError::Io(e))),
        }
    }
}

impl Operation for CreateInvoiceView {
    type Output = CreateResultView;

    open spec fn action(self) -> ActionView {
        match self.stage {
            CreateStage::DirCheck => ActionView::Stat { path: self.dir() },
            CreateStage::DirRecheck => ActionView::Stat { path: self.dir() },
            CreateStage::MakeDir => ActionView::CreateDirAll { path: self.dir() },
            CreateStage::DestCheck => ActionView::Stat { path: self.dest() },
            CreateStage::PartCheck => ActionView::Stat { path: self.part() },
            CreateStage::PartRecheck => ActionView::Stat { path: self.part() },
            CreateStage::OpenPart => ActionView::CreateNew { path: self.part() },
            CreateStage::Encode => ActionView::Encode { invoice: self.invoice },
            CreateStage::WritePart => ActionView::Write { data: self.data },
            CreateStage::Publish => ActionView::Rename { from: self.part(), to: self.dest() },
            CreateStage::Index => ActionView::Index { invoice: self.invoice },
            CreateStage::CheckParcels => ActionView::StatAll { paths: self.parcel_dirs() },
        }
    }

    open spec fn next(self, event: EventView) -> Progress<CreateInvoiceView, CreateResultView> {
        match (self.stage, event) {
            (CreateStage::DirCheck, EventView::Stated(stat)) => if found(stat, FileKind::Dir) {
                self.at(CreateStage::DestCheck)
            } else {
                self.at(CreateStage::DirRecheck)
            },
            (CreateStage::DirRecheck, EventView::Stated(stat)) => if found(stat, FileKind::File) {
                Progress::Done(Err(ProviderError::Exists))
            } else {
                self.at(CreateStage::MakeDir)
            },
            (CreateStage::MakeDir, EventView::Finished(done)) => self.unless_failed(
                done,
                CreateStage::DestCheck,
            ),
            (CreateStage::DestCheck, EventView::Stated(stat)) => if stat is Ok {
                Progress::Done(Err(ProviderError::Exists))
            } else {
                self.at(CreateStage::PartCheck)
            },
            (CreateStage::PartCheck, EventView::Stated(stat)) => if stat is Ok {
                Progress::Done(Err(ProviderError::WriteInProgress))
            } else {
                self.at(CreateStage::PartRecheck)
            },
            (CreateStage::PartRecheck, EventView::Stated(stat)) => if stat is Ok {
                Progress::Done(Err(ProviderError::WriteInProgress))
            } else {
                self.at(CreateStage::OpenPart)
            },
            (CreateStage::OpenPart, EventView::Finished(done)) => self.unless_failed(
                done,
                CreateStage::Encode,
            ),
            (CreateStage::Encode, EventView::Encoded(Ok(data))) => Progress::Pending(
                CreateInvoiceView { data, stage: CreateStage::WritePart, ..self },
            ),
            (CreateStage::Encode, EventView::Encoded(Err(e))) => Progress::Done(
                Err(ProviderError::Unserializable(e)),
            ),
            (CreateStage::WritePart, EventView::Finished(done)) => self.unless_failed(
                done,
                CreateStage::Publish,
            ),
            (CreateStage::Publish, EventView::Finished(done)) => self.unless_failed(
                done,
                CreateStage::Index,
            ),
            (CreateStage::Index, EventView::Indexed) => match self.invoice.parcel {
                None => Progress::Done(Ok(Seq::empty())),
                Some(_) => self.at(CreateStage::CheckParcels),
            },
            (CreateStage::CheckParcels, EventView::StatedAll(stats)) => if stats.len()
                == self.invoice.parcels().len() {
                Progress::Done(Ok(missing_labels(self.invoice.parcels(), stats)))
            } else {
                Progress::Pending(self)
            },
            _ => Progress::Pending(self),
        }
    }

    open spec fn cache_after(self, cache: Entries, event: EventView) -> Entries {
        cache
    }
}

/// Whether `progress` is what `expected` says.
pub open spec fn create_progress_is(
    progress: Progress<CreateInvoice, Result<Vec<Label>, ProviderError>>,
    expected: Progress<CreateInvoiceView, CreateResultView>,
) -> bool {
    match progress {
        Progress::Pending(op) => expected == Progress::<CreateInvoiceView, CreateResultView>::Pending(
            op@,
        ),
        Progress::Done(Ok(missing)) => expected == Progress::<
            CreateInvoiceView,
            CreateResultView,
        >::Done(Ok(missing@)),
        Progress::Done(Err(e)) => expected == Progress::<CreateInvoiceView, CreateResultView>::Done(
            Err(e),
        ),
    }
}

/// The labels of those `parcels` at whose place no directory was found.
pub fn collect_missing(parcels: &Vec<Parcel>, stats: &Vec<Result<FileKind, IoError>>) -> (res: Vec<
    Label,
>)
    requires
        parcels@.len() == stats@.len(),
    ensures
        res@ == missing_labels(parcels@, stats@),
{
    let mut res: Vec<Label> = Vec::new();
    let mut i: usize = 0;
    while i < parcels.len()
        invariant
            i <= parcels@.len(),
            parcels@.len() == stats@.len(),
            res@ == missing_labels(parcels@.take(i as int), stats@),
        decreases parcels@.len() - i,
    {
        proof {
            assert(parcels@.take(i + 1).drop_last() =~= parcels@.take(i as int));
        }
        if !is_dir(&stats[i]) {
            res.push(parcels[i].label.clone());
        }
        i = i + 1;
    }
    assert(parcels@.take(parcels@.len() as int) =~= parcels@);
    res
}

impl CreateInvoice {
    /// Starts to store `invoice` under `root`. It is illegal to create a yanked invoice.
    pub fn start(root: &str, invoice: &Invoice) -> (res: Progress<
        CreateInvoice,
        Result<Vec<Label>, ProviderError>,
    >)
        ensures
            create_progress_is(res, spec_start_create(root@, invoice@)),
    {
        if invoice.is_yanked() {
            return Progress::Done(Err(ProviderError::CreateYanked));
        }
        let data: Vec<u8> = Vec::new();
        assert(data@ =~= Seq::<u8>::empty());
        Progress::Pending(
            CreateInvoice {
                root: root.to_owned(),
                invoice: invoice.clone(),
                data,
                stage: CreateStage::DirCheck,
            },
        )
    }

    fn dir(&self) -> (res: String)
        ensures
            res@ == self@.dir(),
    {
        invoice_path(self.root.as_str(), self.invoice.canonical_name().as_str())
    }

    fn dest(&self) -> (res: String)
        ensures
            res@ == self@.dest(),
    {
        invoice_toml_path(self.root.as_str(), self.invoice.canonical_name().as_str())
    }

    fn part(&self) -> (res: String)
        ensures
            res@ == self@.part(),
    {
        part_path(self.dest().as_str())
    }

    fn parcel_dirs(&self) -> (res: Vec<String>)
        ensures
            res@.len() == self@.parcel_dirs().len(),
            forall|i: int| 0 <= i < res@.len() ==> (#[trigger] res@[i])@ == self@.parcel_dirs()[i],
    {
        let mut res: Vec<String> = Vec::new();
        if let Some(parcels) = &self.invoice.parcel {
            let mut i: usize = 0;
            while i < parcels.len()
                invariant
                    i <= parcels@.len(),
                    parcels@ == self@.invoice.parcels(),
                    self.root@ == self@.root,
                    res@.len() == i,
                    forall|j: int|
                        0 <= j < i ==> (#[trigger] res@[j])@ == self@.parcel_dirs()[j],
                decreases parcels@.len() - i,
            {
                res.push(parcel_path(self.root.as_str(), parcels[i].label.sha256.as_str()));
                i = i + 1;
            }
        }
        res
    }

    /// What is to be done.
    pub fn action(&self) -> (res: Action)
        ensures
            res@ == self@.action(),
    {
        match self.stage {
            CreateStage::DirCheck => Action::Stat { path: self.dir() },
            CreateStage::DirRecheck => Action::Stat { path: self.dir() },
            CreateStage::MakeDir => Action::CreateDirAll { path: self.dir() },
            CreateStage::DestCheck => Action::Stat { path: self.dest() },
            CreateStage::PartCheck => Action::Stat { path: self.part() },
            CreateStage::PartRecheck => Action::Stat { path: self.part() },
            CreateStage::OpenPart => Action::CreateNew { path: self.part() },
            CreateStage::Encode => Action::Encode { invoice: self.invoice.clone() },
            CreateStage::WritePart => {
                let data = self.data.clone();
                assert(data@ =~= self.data@);
                Action::Write { data }
            },
            CreateStage::Publish => Action::Rename { from: self.part(), to: self.dest() },
            CreateStage::Index => Action::Index { invoice: self.invoice.clone() },
            CreateStage::CheckParcels => {
                let paths = self.parcel_dirs();
                let res = Action::StatAll { paths };
                assert(res@->paths =~= self@.parcel_dirs());
                res
            },
        }
    }

    fn at(self, stage: CreateStage) -> (res: Progress<
        CreateInvoice,
        Result<Vec<Label>, ProviderError>,
    >)
        ensures
            create_progress_is(res, self@.at(stage)),
    {
        let mut op = self;
        op.stage = stage;
        Progress::Pending(op)
    }

    fn unless_failed(self, done: Result<(), IoError>, stage: CreateStage) -> (res: Progress<
        CreateInvoice,
        Result<Vec<Label>, ProviderError>,
    >)
        ensures
            create_progress_is(res, self@.unless_failed(done, stage)),
    {
        match done {
            Ok(()) => self.at(stage),
            Err(e) => Progress::Done(Err(ProviderError::Io(e))),
        }
    }

    /// Takes in what came of the action.
    pub fn step(self, event: Event) -> (res: Progress<
        CreateInvoice,
        Result<Vec<Label>, ProviderError>,
    >)
        ensures
            create_progress_is(res, self@.next(event@)),
    {
        match (self.stage, event) {
            (CreateStage::DirCheck, Event::Stated(stat)) => {
                if is_dir(&stat) {
                    self.at(CreateStage::DestCheck)
                } else {
                    self.at(CreateStage::DirRecheck)
                }
            },
            (CreateStage::DirRecheck, Event::Stated(stat)) => {
                // If it exists and is a regular file, we have a problem
                if is_file(&stat) {
                    Progress::Done(Err(ProviderError::Exists))
                } else {
                    self.at(CreateStage::MakeDir)
                }
            },
            (CreateStage::MakeDir, Event::Finished(done)) => self.unless_failed(
                done,
                CreateStage::DestCheck,
            ),
            (CreateStage::DestCheck, Event::Stated(stat)) => {
                if stat.is_ok() {
                    Progress::Done(Err(ProviderError::Exists))
                } else {
                    self.at(CreateStage::PartCheck)
                }
            },
            (CreateStage::PartCheck, Event::Stated(stat)) => {
                if stat.is_ok() {
                    Progress::Done(Err(ProviderError::WriteInProgress))
                } else {
                    self.at(CreateStage::PartRecheck)
                }
            },
            (CreateStage::PartRecheck, Event::Stated(stat)) => {
                // Make sure we aren't already writing
                if stat.is_ok() {
                    Progress::Done(Err(ProviderError::WriteInProgress))
                } else {
                    self.at(CreateStage::OpenPart)
                }
            },
            (CreateStage::OpenPart, Event::Finished(done)) => self.unless_failed(
                done,
                CreateStage::Encode,
            ),
            (CreateStage::Encode, Event::Encoded(Ok(data))) => {
                let mut op = self;
                op.data = data;
                op.at(CreateStage::WritePart)
            },
            (CreateStage::Encode, Event::Encoded(Err(e))) => Progress::Done(
                Err(ProviderError::Unserializable(e)),
            ),
            // Now that it is written, move the part file to the actual file name
            (CreateStage::WritePart, Event::Finished(done)) => self.unless_failed(
                done,
                CreateStage::Publish,
            ),
            (CreateStage::Publish, Event::Finished(done)) => self.unless_failed(
                done,
                CreateStage::Index,
            ),
            // if there are no parcels, bail early
            (CreateStage::Index, Event::Indexed) => {
                if self.invoice.parcel.is_none() {
                    let missing: Vec<Label> = Vec::new();
                    assert(missing@ =~= Seq::<Label>::empty());
                    Progress::Done(Ok(missing))
                } else {
                    self.at(CreateStage::CheckParcels)
                }
            },
            (CreateStage::CheckParcels, Event::StatedAll(stats)) => {
                let empty: Vec<Parcel> = Vec::new();
                let parcels = match &self.invoice.parcel {
                    Some(parcels) => parcels,
                    None => &empty,
                };
                assert(parcels@ =~= self@.invoice.parcels());
                if stats.len() == parcels.len() {
                    Progress::Done(Ok(collect_missing(parcels, &stats)))
                } else {
                    Progress::Pending(self)
                }
            },
            _ => Progress::Pending(self),
        }
    }
}

} // verus!
