use bindle_store::cache::InvoiceCache;
use bindle_store::create_invoice::{collect_missing, CreateInvoice};
use bindle_store::effect::{is_dir, is_file, Action, Event, FileKind, Progress};
use bindle_store::error::{map_io_error, IoError, IoErrorKind, ProviderError};
use bindle_store::fetch_invoice::{refuse_yanked, FetchInvoice};
use bindle_store::invoice::{BindleSpec, Id, Invoice, Label, Parcel};
use bindle_store::read_parcel::existence;
use bindle_store::warm_index::WarmIndex;
use bindle_store::yank_invoice::YankInvoice;

fn io_error(kind: IoErrorKind) -> IoError {
    IoError { kind, raw_os_error: Some(2), message: "why".to_owned() }
}

fn some_invoice() -> Invoice {
    Invoice {
        bindle: BindleSpec {
            id: Id { name: "a/1".to_owned(), sha: "abc".to_owned() },
            rest: String::new(),
        },
        yanked: None,
        parcel: Some(vec![Parcel {
            label: Label { sha256: "123".to_owned(), rest: "l".to_owned() },
            rest: String::new(),
        }]),
        rest: String::new(),
    }
}

#[test]
fn only_a_missing_file_is_not_found() {
    assert!(matches!(map_io_error(io_error(IoErrorKind::NotFound)), ProviderError::NotFound));
    for kind in [
        IoErrorKind::AlreadyExists,
        IoErrorKind::PermissionDenied,
        IoErrorKind::InvalidData,
        IoErrorKind::Other,
    ] {
        match map_io_error(io_error(kind)) {
            ProviderError::Io(e) => {
                assert_eq!(kind, e.kind);
                assert_eq!(Some(2), e.raw_os_error);
                assert_eq!("why", e.message);
            }
            _ => panic!("it is passed on"),
        }
    }
}

#[test]
fn existence_goes_by_the_kind_of_what_was_found() {
    assert!(matches!(existence(Ok(FileKind::File)), Ok(true)));
    assert!(matches!(existence(Ok(FileKind::Dir)), Ok(false)));
    assert!(matches!(existence(Ok(FileKind::Other)), Ok(false)));
    assert!(matches!(existence(Err(io_error(IoErrorKind::NotFound))), Ok(false)));
    assert!(matches!(
        existence(Err(io_error(IoErrorKind::PermissionDenied))),
        Err(ProviderError::Io(_))
    ));
}

#[test]
fn kinds_are_told_apart() {
    assert!(is_dir(&Ok(FileKind::Dir)) && !is_file(&Ok(FileKind::Dir)));
    assert!(is_file(&Ok(FileKind::File)) && !is_dir(&Ok(FileKind::File)));
    assert!(!is_dir(&Ok(FileKind::Other)) && !is_file(&Ok(FileKind::Other)));
    let missing = Err(io_error(IoErrorKind::NotFound));
    assert!(!is_dir(&missing) && !is_file(&missing));
}

#[test]
fn silence_means_not_yanked() {
    let mut invoice = some_invoice();
    for (yanked, expected) in [(None, false), (Some(false), false), (Some(true), true)] {
        invoice.yanked = yanked;
        assert_eq!(expected, invoice.is_yanked());
        match refuse_yanked(invoice.clone()) {
            Ok(kept) => {
                assert!(!expected);
                assert_eq!("abc", kept.canonical_name());
            }
            Err(e) => assert!(expected && matches!(e, ProviderError::Yanked)),
        }
    }
}

#[test]
fn invoice_lists_its_parcels() {
    let mut invoice = some_invoice();
    assert!(invoice.lists_parcel("123"));
    assert!(!invoice.lists_parcel("12"));
    assert!(!invoice.lists_parcel(""));
    invoice.parcel = None;
    assert!(!invoice.lists_parcel("123"));
}

#[test]
fn missing_labels_are_those_without_a_directory() {
    let parcels = vec![some_invoice().parcel.unwrap().remove(0)];
    assert_eq!(0, collect_missing(&parcels, &vec![Ok(FileKind::Dir)]).len());
    let missing = collect_missing(&parcels, &vec![Ok(FileKind::File)]);
    assert_eq!(1, missing.len());
    assert_eq!("123", missing[0].sha256);
    assert_eq!("l", missing[0].rest);
    assert_eq!(1, collect_missing(&parcels, &vec![Err(io_error(IoErrorKind::Other))]).len());
    assert_eq!(0, collect_missing(&Vec::new(), &Vec::new()).len());
}

fn pending<S, R>(progress: Progress<S, R>) -> S {
    match progress {
        Progress::Pending(op) => op,
        Progress::Done(_) => panic!("it goes on"),
    }
}

#[test]
fn events_that_answer_nothing_lead_nowhere() {
    let op = pending(CreateInvoice::start("r", &some_invoice()));
    let op = pending(op.step(Event::Indexed));
    match op.action() {
        Action::Stat { path } => assert_eq!("r/invoices/abc", path),
        _ => panic!("it still waits"),
    }
    let op = pending(WarmIndex::start("r").step(Event::Finished(Ok(()))));
    match op.action() {
        Action::Stat { path } => assert_eq!("r/invoices/", path),
        _ => panic!("it still waits"),
    }
    let mut cache = InvoiceCache::new();
    let id = Id { name: "a/1".to_owned(), sha: "abc".to_owned() };
    let op = pending(FetchInvoice::start("r", &mut cache, &id));
    let op = pending(op.step(&mut cache, Event::Decoded(Ok(some_invoice()))));
    assert!(matches!(op.action(), Action::ReadText { .. }));
    assert!(cache.get(&id).is_none());
    let op = pending(YankInvoice::start("r", &mut cache, &id));
    let op = pending(op.step(&mut cache, Event::Finished(Ok(()))));
    assert!(matches!(op.action(), Action::ReadText { .. }));
}

#[test]
fn wrong_number_of_answers_leads_nowhere() {
    let mut op = pending(CreateInvoice::start("r", &some_invoice()));
    op = pending(op.step(Event::Stated(Ok(FileKind::Dir))));
    for _ in 0..3 {
        op = pending(op.step(Event::Stated(Err(io_error(IoErrorKind::NotFound)))));
    }
    op = pending(op.step(Event::Finished(Ok(()))));
    op = pending(op.step(Event::Encoded(Ok(vec![1, 2, 3]))));
    match op.action() {
        Action::Write { data } => assert_eq!(vec![1, 2, 3], data),
        _ => panic!("the document is written"),
    }
    op = pending(op.step(Event::Finished(Ok(()))));
    match op.action() {
        Action::Rename { from, to } => {
            assert_eq!("r/invoices/abc/invoice.toml.part", from);
            assert_eq!("r/invoices/abc/invoice.toml", to);
        }
        _ => panic!("the part file gets its name"),
    }
    op = pending(op.step(Event::Finished(Ok(()))));
    op = pending(op.step(Event::Indexed));
    op = pending(op.step(Event::StatedAll(Vec::new())));
    match op.action() {
        Action::StatAll { paths } => assert_eq!(vec!["r/parcels/123".to_owned()], paths),
        _ => panic!("it still waits"),
    }
    match op.step(Event::StatedAll(vec![Ok(FileKind::Dir)])) {
        Progress::Done(Ok(missing)) => assert_eq!(0, missing.len()),
        _ => panic!("it is done"),
    }
}
