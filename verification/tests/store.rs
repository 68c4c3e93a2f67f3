//! The store's operations on a file system in memory, with invoices as TOML documents.

use bindle_store::digest::{lower_hex, AsyncSha256};
use bindle_store::effect::{Action, DirEntry, Event, FileKind, Progress};
use bindle_store::error::{IoError, IoErrorKind, ProviderError};
use bindle_store::fetch_invoice::refuse_yanked;
use bindle_store::invoice::{BindleSpec, Id, Invoice, Label, Parcel};
use bindle_store::provider::FileProvider;
use bindle_store::warm_index::{mismatch_message, WarmError};
use std::collections::BTreeMap;

#[derive(Clone, Debug, PartialEq)]
enum Node {
    Dir,
    File(Vec<u8>),
    Other,
}

struct Store {
    provider: FileProvider<()>,
    nodes: BTreeMap<String, Node>,
    held: Option<String>,
    pos: usize,
    incoming: Vec<u8>,
    listing: Vec<Option<String>>,
    /// What the index was told.
    indexed: Vec<Invoice>,
    /// The number of actions so far.
    actions: usize,
    /// The action that fails.
    fail_at: Option<usize>,
    /// Whether documents can be written out.
    unserializable: bool,
}

fn failure(kind: IoErrorKind) -> IoError {
    IoError { kind, raw_os_error: None, message: "injected".to_owned() }
}

fn table(entries: Vec<(&str, toml::Value)>) -> toml::Value {
    let mut t = toml::value::Table::new();
    for (k, v) in entries {
        t.insert(k.to_owned(), v);
    }
    toml::Value::Table(t)
}

fn text(s: &str) -> toml::Value {
    toml::Value::String(s.to_owned())
}

fn encode(invoice: &Invoice) -> Vec<u8> {
    let mut fields = vec![
        ("name", text(&invoice.bindle.id.name)),
        ("sha", text(&invoice.bindle.id.sha)),
        ("bindle_rest", text(&invoice.bindle.rest)),
        ("rest", text(&invoice.rest)),
    ];
    if let Some(yanked) = invoice.yanked {
        fields.push(("yanked", toml::Value::Boolean(yanked)));
    }
    if let Some(parcels) = &invoice.parcel {
        let parcels = parcels
            .iter()
            .map(|p| {
                table(vec![
                    ("sha256", text(&p.label.sha256)),
                    ("label_rest", text(&p.label.rest)),
                    ("rest", text(&p.rest)),
                ])
            })
            .collect();
        fields.push(("parcel", toml::Value::Array(parcels)));
    }
    toml::to_vec(&table(fields)).unwrap()
}

fn string_in(value: &toml::Value, key: &str) -> Result<String, String> {
    match value.get(key).and_then(|v| v.as_str()) {
        Some(s) => Ok(s.to_owned()),
        None => Err(format!("no {}", key)),
    }
}

fn decode(text: &str) -> Result<Invoice, String> {
    let value: toml::Value = toml::from_str(text).map_err(|e| e.to_string())?;
    let parcel = match value.get("parcel").and_then(|v| v.as_array()) {
        Some(parcels) => {
            let mut list = Vec::new();
            for p in parcels {
                list.push(Parcel {
                    label: Label {
                        sha256: string_in(p, "sha256")?,
                        rest: string_in(p, "label_rest")?,
                    },
                    rest: string_in(p, "rest")?,
                });
            }
            Some(list)
        }
        None => None,
    };
    Ok(Invoice {
        bindle: BindleSpec {
            id: Id { name: string_in(&value, "name")?, sha: string_in(&value, "sha")? },
            rest: string_in(&value, "bindle_rest")?,
        },
        yanked: value.get("yanked").and_then(|v| v.as_bool()),
        parcel,
        rest: string_in(&value, "rest")?,
    })
}

impl Store {
    fn new(root: &str) -> Store {
        Store {
            provider: FileProvider::new(root, ()),
            nodes: BTreeMap::new(),
            held: None,
            pos: 0,
            incoming: Vec::new(),
            listing: Vec::new(),
            indexed: Vec::new(),
            actions: 0,
            fail_at: None,
            unserializable: false,
        }
    }

    fn node(&self, path: &str) -> Option<&Node> {
        self.nodes.get(path.trim_end_matches('/'))
    }

    fn stat(&self, path: &str) -> Result<FileKind, IoError> {
        match self.node(path) {
            Some(Node::Dir) => Ok(FileKind::Dir),
            Some(Node::File(_)) => Ok(FileKind::File),
            Some(Node::Other) => Ok(FileKind::Other),
            None => Err(failure(IoErrorKind::NotFound)),
        }
    }

    fn write(&mut self, data: &[u8]) -> Result<(), IoError> {
        let pos = self.pos;
        match self.held.as_ref().and_then(|p| self.nodes.get_mut(p)) {
            Some(Node::File(contents)) => {
                contents.truncate(pos);
                contents.extend_from_slice(data);
                self.pos += data.len();
                Ok(())
            }
            _ => Err(failure(IoErrorKind::Other)),
        }
    }

    fn failing(&self, action: &Action) -> Event {
        let e = failure(IoErrorKind::Other);
        match action {
            Action::Stat { .. } => Event::Stated(Err(e)),
            Action::StatAll { paths } => Event::StatedAll(
                paths.iter().map(|_| Err(failure(IoErrorKind::Other))).collect(),
            ),
            Action::HashFile => Event::Hashed(Err(e)),
            Action::ReadText { .. } => Event::Text(Err(e)),
            Action::OpenRead { .. } => Event::Opened(Err(e)),
            Action::NextEntry => Event::Entry(Err(e)),
            Action::Encode { .. } => Event::Encoded(Err("injected".to_owned())),
            Action::Decode { .. } => Event::Decoded(Err("injected".to_owned())),
            Action::Index { .. } => Event::Indexed,
            Action::ValidateParcel { .. } => Event::Validated(Err(ProviderError::Io(e))),
            _ => Event::Finished(Err(e)),
        }
    }

    fn perform(&mut self, action: Action) -> Event {
        self.actions += 1;
        if self.fail_at == Some(self.actions) {
            return self.failing(&action);
        }
        match action {
            Action::Stat { path } => Event::Stated(self.stat(&path)),
            Action::StatAll { paths } => {
                Event::StatedAll(paths.iter().map(|p| self.stat(p)).collect())
            }
            Action::CreateDirAll { path } => {
                let mut prefix = String::new();
                for name in path.split('/') {
                    prefix.push_str(name);
                    match self.nodes.get(&prefix) {
                        None => {
                            self.nodes.insert(prefix.clone(), Node::Dir);
                        }
                        Some(Node::Dir) => {}
                        Some(_) => {
                            return Event::Finished(Err(failure(IoErrorKind::AlreadyExists)))
                        }
                    }
                    prefix.push('/');
                }
                Event::Finished(Ok(()))
            }
            Action::CreateNew { path } => {
                if self.nodes.contains_key(&path) {
                    return Event::Finished(Err(failure(IoErrorKind::AlreadyExists)));
                }
                self.nodes.insert(path.clone(), Node::File(Vec::new()));
                self.held = Some(path);
                self.pos = 0;
                Event::Finished(Ok(()))
            }
            Action::Write { data } => Event::Finished(self.write(&data)),
            Action::CopyStream => {
                let data = self.incoming.clone();
                Event::Finished(self.write(&data))
            }
            Action::Flush => Event::Finished(Ok(())),
            Action::Rewind => {
                self.pos = 0;
                Event::Finished(Ok(()))
            }
            Action::HashFile => match self.held.as_ref().and_then(|p| self.nodes.get(p)) {
                Some(Node::File(contents)) => {
                    let mut hasher = AsyncSha256::new();
                    for piece in contents[self.pos..].chunks(3) {
                        assert_eq!(piece.len(), hasher.write(piece));
                    }
                    Event::Hashed(Ok(hasher))
                }
                _ => Event::Hashed(Err(failure(IoErrorKind::Other))),
            },
            Action::Rename { from, to } => match self.nodes.remove(&from) {
                Some(node) => {
                    self.nodes.insert(to, node);
                    Event::Finished(Ok(()))
                }
                None => Event::Finished(Err(failure(IoErrorKind::NotFound))),
            },
            Action::WriteFile { path, data } => {
                self.nodes.insert(path, Node::File(data));
                Event::Finished(Ok(()))
            }
            Action::ReadText { path } => Event::Text(match self.node(&path) {
                Some(Node::File(contents)) => match String::from_utf8(contents.clone()) {
                    Ok(text) => Ok(text),
                    Err(_) => Err(failure(IoErrorKind::InvalidData)),
                },
                Some(_) => Err(failure(IoErrorKind::Other)),
                None => Err(failure(IoErrorKind::NotFound)),
            }),
            Action::OpenRead { path } => Event::Opened(match self.node(&path) {
                Some(_) => {
                    self.held = Some(path);
                    self.pos = 0;
                    Ok(())
                }
                None => Err(failure(IoErrorKind::NotFound)),
            }),
            Action::ReadDir { path } => {
                let dir = path.trim_end_matches('/').to_owned() + "/";
                let names: Vec<Option<String>> = self
                    .nodes
                    .keys()
                    .filter_map(|p| p.strip_prefix(dir.as_str()))
                    .filter(|name| !name.contains('/'))
                    .map(|name| Some(name.to_owned()))
                    .collect();
                self.listing.extend(names);
                self.listing.reverse();
                Event::Finished(Ok(()))
            }
            Action::NextEntry => {
                Event::Entry(Ok(self.listing.pop().map(|file_name| DirEntry { file_name })))
            }
            Action::Encode { invoice } => Event::Encoded(if self.unserializable {
                Err("cannot write".to_owned())
            } else {
                Ok(encode(&invoice))
            }),
            Action::Decode { text } => Event::Decoded(decode(&text)),
            Action::Index { invoice } => {
                self.indexed.push(invoice);
                Event::Indexed
            }
            Action::ValidateParcel { bindle_id, parcel_id } => {
                Event::Validated(match self.get_yanked_invoice(&bindle_id) {
                    Ok(invoice) if invoice.lists_parcel(&parcel_id) => Ok(()),
                    Ok(_) => Err(ProviderError::NotFound),
                    Err(e) => Err(e),
                })
            }
        }
    }

    fn create_invoice(&mut self, invoice: &Invoice) -> Result<Vec<Label>, ProviderError> {
        let mut progress = self.provider.create_invoice(invoice);
        loop {
            progress = match progress {
                Progress::Pending(op) => {
                    let event = self.perform(op.action());
                    op.step(event)
                }
                Progress::Done(res) => return res,
            };
        }
    }

    fn get_yanked_invoice(&mut self, id: &Id) -> Result<Invoice, ProviderError> {
        let mut progress = self.provider.get_yanked_invoice(id);
        loop {
            progress = match progress {
                Progress::Pending(op) => {
                    let event = self.perform(op.action());
                    op.step(&mut self.provider.invoice_cache, event)
                }
                Progress::Done(res) => return res,
            };
        }
    }

    fn get_invoice(&mut self, id: &Id) -> Result<Invoice, ProviderError> {
        refuse_yanked(self.get_yanked_invoice(id)?)
    }

    fn yank_invoice(&mut self, id: &Id) -> Result<(), ProviderError> {
        let mut progress = self.provider.yank_invoice(id);
        loop {
            progress = match progress {
                Progress::Pending(op) => {
                    let event = self.perform(op.action());
                    op.step(&mut self.provider.invoice_cache, event)
                }
                Progress::Done(res) => return res,
            };
        }
    }

    fn create_parcel(&mut self, id: &Id, sha: &str, data: &[u8]) -> Result<(), ProviderError> {
        self.incoming = data.to_vec();
        let mut op = self.provider.create_parcel(id, sha);
        loop {
            let event = self.perform(op.action());
            op = match op.step(event) {
                Progress::Pending(op) => op,
                Progress::Done(res) => return res,
            };
        }
    }

    fn get_parcel(&mut self, id: &Id, sha: &str) -> Result<Vec<u8>, ProviderError> {
        let mut op = self.provider.get_parcel(id, sha);
        loop {
            let event = self.perform(op.action());
            op = match op.step(event) {
                Progress::Pending(op) => op,
                Progress::Done(Ok(())) => match self.node(self.held.as_ref().unwrap()) {
                    Some(Node::File(contents)) => return Ok(contents[self.pos..].to_vec()),
                    _ => panic!("no file is open"),
                },
                Progress::Done(Err(e)) => return Err(e),
            };
        }
    }

    fn parcel_exists(&mut self, id: &Id, sha: &str) -> Result<bool, ProviderError> {
        let mut op = self.provider.parcel_exists(id, sha);
        loop {
            let event = self.perform(op.action());
            op = match op.step(event) {
                Progress::Pending(op) => op,
                Progress::Done(res) => return res,
            };
        }
    }

    fn warm_index(&mut self) -> Result<(), WarmError> {
        let mut op = self.provider.warm_index();
        loop {
            let event = self.perform(op.action());
            op = match op.step(event) {
                Progress::Pending(op) => op,
                Progress::Done(res) => return res,
            };
        }
    }
}

fn sha_of(data: &[u8]) -> String {
    let mut hasher = AsyncSha256::new();
    hasher.write(data);
    lower_hex(&hasher.finalize())
}

fn id_of(name: &str) -> Id {
    Id { name: name.to_owned(), sha: sha_of(name.as_bytes()) }
}

struct ParcelFile {
    sha: String,
    data: Vec<u8>,
}

struct Scaffold {
    invoice: Invoice,
    parcel: ParcelFile,
}

/// A valid invoice with one parcel.
fn scaffold() -> Scaffold {
    let data = b"a red one".to_vec();
    let sha = sha_of(&data);
    Scaffold {
        invoice: Invoice {
            bindle: BindleSpec {
                id: id_of("enterprise.com/warpcore/1.0.0"),
                rest: "a warp core".to_owned(),
            },
            yanked: None,
            parcel: Some(vec![Parcel {
                label: Label { sha256: sha.clone(), rest: "isolinear_chip.txt".to_owned() },
                rest: "".to_owned(),
            }]),
            rest: "1.0.0".to_owned(),
        },
        parcel: ParcelFile { sha, data },
    }
}

#[test]
fn test_should_create_yank_invoice() {
    let scaffold = scaffold();
    let mut store = Store::new("root");
    let inv_name = scaffold.invoice.canonical_name();
    // Create an file
    let missing = store.create_invoice(&scaffold.invoice).unwrap();
    assert_eq!(1, missing.len());

    // Out-of-band read the invoice
    assert!(store.stat(&store.provider.invoice_toml_path(&inv_name)).is_ok());

    // Yank the invoice
    store.yank_invoice(&scaffold.invoice.bindle.id).unwrap();

    // Make sure the invoice is yanked
    let inv2 = store.get_yanked_invoice(&scaffold.invoice.bindle.id).unwrap();
    assert!(inv2.yanked.unwrap_or(false));

    // Sanity check that this produces an error
    assert!(store.get_invoice(&scaffold.invoice.bindle.id).is_err());
}

#[test]
fn test_should_reject_yanked_invoice() {
    let mut scaffold = scaffold();
    scaffold.invoice.yanked = Some(true);
    let mut store = Store::new("root");

    assert!(store.create_invoice(&scaffold.invoice).is_err());
}

#[test]
fn test_should_write_read_parcel() {
    let scaffold = scaffold();
    let parcel = &scaffold.parcel;
    let mut store = Store::new("root");

    // Create the invoice so we can create a parcel
    store.create_invoice(&scaffold.invoice).expect("should be able to create invoice");

    store
        .create_parcel(&scaffold.invoice.bindle.id, &parcel.sha, &parcel.data)
        .expect("create parcel");

    // Now make sure the parcels reads as existing
    assert!(
        store
            .parcel_exists(&scaffold.invoice.bindle.id, &parcel.sha)
            .expect("Shouldn't get an error while checking for parcel existence"),
        "Parcel should be reported as existing"
    );

    // Attempt to read the parcel from the store
    let data =
        store.get_parcel(&scaffold.invoice.bindle.id, &parcel.sha).expect("load parcel data");
    assert_eq!(data, parcel.data);
}

#[test]
fn test_should_store_and_retrieve_bindle() {
    let mut store = Store::new("root");
    let scaffold = scaffold();

    // Store an invoice first and then create the parcel for it
    store.create_invoice(&scaffold.invoice).expect("should be able to create an invoice");

    let parcel = &scaffold.parcel;

    store
        .create_parcel(&scaffold.invoice.bindle.id, &parcel.sha, &parcel.data)
        .expect("unable to store the parcel");

    // Get the bindle
    let inv =
        store.get_invoice(&scaffold.invoice.bindle.id).expect("get the invoice we just stored");

    let first_parcel = inv.parcel.expect("parsel vector").pop().expect("got a parcel");
    assert_eq!(first_parcel.label.sha256, parcel.sha)
}

#[test]
fn yanked_invoice_is_refused_without_a_look() {
    let mut scaffold = scaffold();
    scaffold.invoice.yanked = Some(true);
    let mut store = Store::new("root");
    assert!(matches!(store.create_invoice(&scaffold.invoice), Err(ProviderError::CreateYanked)));
    assert_eq!(0, store.actions);
    scaffold.invoice.yanked = Some(false);
    assert!(store.create_invoice(&scaffold.invoice).is_ok());
}

#[test]
fn created_invoice_is_stored_indexed_and_nothing_else() {
    let scaffold = scaffold();
    let mut store = Store::new("root");
    store.create_invoice(&scaffold.invoice).unwrap();
    let name = scaffold.invoice.canonical_name();
    let paths: Vec<&String> = store.nodes.keys().collect();
    assert_eq!(
        vec![
            "root",
            "root/invoices",
            &format!("root/invoices/{}", name),
            &format!("root/invoices/{}/invoice.toml", name),
        ],
        paths
    );
    assert_eq!(
        Some(&Node::File(encode(&scaffold.invoice))),
        store.node(&store.provider.invoice_toml_path(&name))
    );
    assert_eq!(1, store.indexed.len());
    assert_eq!(scaffold.invoice.bindle.id.name, store.indexed[0].bindle.id.name);
    // No directory was there, so every step was taken
    assert_eq!(12, store.actions);
}

#[test]
fn labels_of_missing_parcels_keep_their_order() {
    let mut scaffold = scaffold();
    let names = ["a", "b", "c", "d"];
    scaffold.invoice.parcel = Some(
        names
            .iter()
            .map(|n| Parcel {
                label: Label { sha256: n.to_string(), rest: format!("label {}", n) },
                rest: String::new(),
            })
            .collect(),
    );
    let mut store = Store::new("root");
    store.nodes.insert("root/parcels/b".to_owned(), Node::Dir);
    // Only a directory counts
    store.nodes.insert("root/parcels/c".to_owned(), Node::File(Vec::new()));
    store.nodes.insert("root/parcels/d".to_owned(), Node::Other);
    let missing = store.create_invoice(&scaffold.invoice).unwrap();
    let labels: Vec<&str> = missing.iter().map(|l| l.rest.as_str()).collect();
    assert_eq!(vec!["label a", "label c", "label d"], labels);
}

#[test]
fn parcels_that_cannot_be_looked_up_are_missing() {
    let scaffold = scaffold();
    let mut store = Store::new("root");
    store.nodes.insert(format!("root/parcels/{}", scaffold.parcel.sha), Node::Dir);
    store.fail_at = Some(12);
    assert_eq!(1, store.create_invoice(&scaffold.invoice).unwrap().len());
}

#[test]
fn invoice_without_parcels_misses_none() {
    let mut scaffold = scaffold();
    scaffold.invoice.parcel = None;
    let mut store = Store::new("root");
    assert_eq!(0, store.create_invoice(&scaffold.invoice).unwrap().len());
    assert_eq!(11, store.actions);
    scaffold.invoice.bindle.id = id_of("other/1.0.0");
    scaffold.invoice.parcel = Some(Vec::new());
    assert_eq!(0, store.create_invoice(&scaffold.invoice).unwrap().len());
}

#[test]
fn invoice_cannot_be_created_twice() {
    let scaffold = scaffold();
    let mut store = Store::new("root");
    store.create_invoice(&scaffold.invoice).unwrap();
    let nodes = store.nodes.clone();
    let mut again = scaffold.invoice.clone();
    again.rest = "changed".to_owned();
    assert!(matches!(store.create_invoice(&again), Err(ProviderError::Exists)));
    assert_eq!(nodes, store.nodes);
}

#[test]
fn invoice_cannot_be_created_in_the_place_of_a_file() {
    let scaffold = scaffold();
    let mut store = Store::new("root");
    let dir = store.provider.invoice_path(&scaffold.invoice.canonical_name());
    store.nodes.insert(dir, Node::File(Vec::new()));
    assert!(matches!(store.create_invoice(&scaffold.invoice), Err(ProviderError::Exists)));
}

#[test]
fn anything_in_the_place_of_the_invoice_exists() {
    let scaffold = scaffold();
    for node in [Node::Dir, Node::File(Vec::new()), Node::Other] {
        let mut store = Store::new("root");
        let dest = store.provider.invoice_toml_path(&scaffold.invoice.canonical_name());
        store.nodes.insert(dest, node);
        assert!(matches!(store.create_invoice(&scaffold.invoice), Err(ProviderError::Exists)));
    }
}

#[test]
fn invoice_being_written_is_in_progress() {
    let scaffold = scaffold();
    let mut store = Store::new("root");
    let dest = store.provider.invoice_toml_path(&scaffold.invoice.canonical_name());
    let part = format!("{}.part", dest);
    // Whatever it is that is there
    for node in [Node::File(Vec::new()), Node::Dir, Node::Other] {
        store.nodes.insert(part.clone(), node);
        let nodes = store.nodes.clone();
        assert!(matches!(
            store.create_invoice(&scaffold.invoice),
            Err(ProviderError::WriteInProgress)
        ));
        assert_eq!(nodes.get(&part), store.nodes.get(&part));
        assert!(store.node(&dest).is_none());
    }
}

#[test]
fn part_file_that_appears_late_is_in_progress() {
    let scaffold = scaffold();
    let mut store = Store::new("root");
    let dest = store.provider.invoice_toml_path(&scaffold.invoice.canonical_name());
    // The first look at the part path fails, and the second finds a directory
    store.nodes.insert(format!("{}.part", dest), Node::Dir);
    store.fail_at = Some(5);
    assert!(matches!(store.create_invoice(&scaffold.invoice), Err(ProviderError::WriteInProgress)));
    assert_eq!(6, store.actions);
}

#[test]
fn part_path_that_cannot_be_looked_at_counts_as_free() {
    let scaffold = scaffold();
    for n in [5, 6] {
        let mut store = Store::new("root");
        store.fail_at = Some(n);
        assert!(store.create_invoice(&scaffold.invoice).is_ok());
    }
}

#[test]
fn broken_off_invoice_stays_in_progress() {
    let scaffold = scaffold();
    let mut store = Store::new("root");
    store.fail_at = Some(9);
    match store.create_invoice(&scaffold.invoice) {
        Err(ProviderError::Io(e)) => assert_eq!("injected", e.message),
        _ => panic!("the write fails"),
    }
    assert!(matches!(store.create_invoice(&scaffold.invoice), Err(ProviderError::WriteInProgress)));
}

#[test]
fn invoice_file_is_whole_whatever_fails() {
    let scaffold = scaffold();
    for n in 1..=12 {
        let mut store = Store::new("root");
        store.fail_at = Some(n);
        let dest = store.provider.invoice_toml_path(&scaffold.invoice.canonical_name());
        let created = store.create_invoice(&scaffold.invoice);
        match store.node(&dest) {
            None => assert!(created.is_err(), "{}", n),
            Some(node) => {
                assert!(created.is_ok(), "{}", n);
                assert_eq!(&Node::File(encode(&scaffold.invoice)), node);
            }
        }
    }
}

#[test]
fn invoice_that_cannot_be_written_out_is_unserializable() {
    let scaffold = scaffold();
    let mut store = Store::new("root");
    store.unserializable = true;
    match store.create_invoice(&scaffold.invoice) {
        Err(ProviderError::Unserializable(e)) => assert_eq!("cannot write", e),
        _ => panic!("it cannot be written out"),
    }
    assert!(store.indexed.is_empty());
}

#[test]
fn stored_invoice_is_read_back_and_kept() {
    let scaffold = scaffold();
    let id = &scaffold.invoice.bindle.id;
    let mut store = Store::new("root");
    store.create_invoice(&scaffold.invoice).unwrap();
    let inv = store.get_invoice(id).unwrap();
    assert_eq!(encode(&scaffold.invoice), encode(&inv));
    // From now on it comes from the cache
    let actions = store.actions;
    store.nodes.clear();
    let inv = store.get_invoice(id).unwrap();
    assert_eq!(encode(&scaffold.invoice), encode(&inv));
    assert_eq!(actions, store.actions);
}

#[test]
fn unknown_invoice_is_not_found() {
    let mut store = Store::new("root");
    let id = id_of("nothing/1.0.0");
    assert!(matches!(store.get_invoice(&id), Err(ProviderError::NotFound)));
    assert!(matches!(store.yank_invoice(&id), Err(ProviderError::NotFound)));
    assert!(store.nodes.is_empty());
}

#[test]
fn unreadable_invoices_tell_why() {
    let mut store = Store::new("root");
    let id = id_of("broken/1.0.0");
    let path = store.provider.invoice_toml_path(&id.sha);
    store.nodes.insert(path.clone(), Node::File(b"= not toml".to_vec()));
    assert!(matches!(store.get_invoice(&id), Err(ProviderError::Malformed(_))));
    assert!(matches!(store.yank_invoice(&id), Err(ProviderError::Malformed(_))));
    store.nodes.insert(path, Node::File(vec![0xff]));
    match store.get_invoice(&id) {
        Err(ProviderError::Io(e)) => assert_eq!(IoErrorKind::InvalidData, e.kind),
        _ => panic!("it is no text"),
    }
}

#[test]
fn yanked_invoice_is_read_as_yanked_and_else_the_same() {
    let scaffold = scaffold();
    let id = &scaffold.invoice.bindle.id;
    let mut store = Store::new("root");
    store.create_invoice(&scaffold.invoice).unwrap();
    // Kept in the cache as it was before
    store.get_invoice(id).unwrap();
    store.yank_invoice(id).unwrap();
    let inv = store.get_yanked_invoice(id).unwrap();
    let mut expected = scaffold.invoice.clone();
    expected.yanked = Some(true);
    assert_eq!(encode(&expected), encode(&inv));
    assert!(matches!(store.get_invoice(id), Err(ProviderError::Yanked)));
    // The index was told of both
    assert_eq!(2, store.indexed.len());
    assert_eq!(Some(true), store.indexed[1].yanked);
}

#[test]
fn yanking_touches_only_its_own_file() {
    let scaffold = scaffold();
    let mut other = scaffold.invoice.clone();
    other.bindle.id = id_of("other/1.0.0");
    let mut store = Store::new("root");
    store.create_invoice(&scaffold.invoice).unwrap();
    store.create_invoice(&other).unwrap();
    let mut nodes = store.nodes.clone();
    store.yank_invoice(&scaffold.invoice.bindle.id).unwrap();
    let mut yanked = scaffold.invoice.clone();
    yanked.yanked = Some(true);
    let dest = store.provider.invoice_toml_path(&yanked.canonical_name());
    nodes.insert(dest, Node::File(encode(&yanked)));
    assert_eq!(nodes, store.nodes);
    assert!(store.get_invoice(&other.bindle.id).is_ok());
}

#[test]
fn failed_yank_leaves_the_old_invoice_in_the_cache() {
    let scaffold = scaffold();
    let id = &scaffold.invoice.bindle.id;
    let mut store = Store::new("root");
    store.create_invoice(&scaffold.invoice).unwrap();
    let start = store.actions;
    // Read, decode, index and encode go well; the write does not
    store.fail_at = Some(start + 5);
    assert!(matches!(store.yank_invoice(id), Err(ProviderError::Io(_))));
    assert!(store.get_invoice(id).is_ok());
    store.unserializable = true;
    assert!(matches!(store.yank_invoice(id), Err(ProviderError::Unserializable(_))));
}

#[test]
fn invoice_is_yanked_under_its_own_name() {
    let scaffold = scaffold();
    let mut store = Store::new("root");
    let id = id_of("alias/1.0.0");
    let path = store.provider.invoice_toml_path(&id.sha);
    store.nodes.insert(path.clone(), Node::File(encode(&scaffold.invoice)));
    store.yank_invoice(&id).unwrap();
    assert_eq!(Some(&Node::File(encode(&scaffold.invoice))), store.node(&path));
    let own = store.provider.invoice_toml_path(&scaffold.invoice.canonical_name());
    assert!(store.node(&own).is_some());
}

#[test]
fn parcel_of_no_bindle_is_refused() {
    let scaffold = scaffold();
    let id = &scaffold.invoice.bindle.id;
    let parcel = &scaffold.parcel;
    let mut store = Store::new("root");
    let nothing = store.nodes.clone();
    assert!(matches!(
        store.create_parcel(id, &parcel.sha, &parcel.data),
        Err(ProviderError::NotFound)
    ));
    assert!(matches!(store.get_parcel(id, &parcel.sha), Err(ProviderError::NotFound)));
    assert!(matches!(store.parcel_exists(id, &parcel.sha), Err(ProviderError::NotFound)));
    assert_eq!(nothing, store.nodes);
    store.create_invoice(&scaffold.invoice).unwrap();
    assert!(matches!(
        store.create_parcel(id, &sha_of(b"unlisted"), b"unlisted"),
        Err(ProviderError::NotFound)
    ));
}

#[test]
fn parcel_that_is_not_stored_does_not_exist() {
    let scaffold = scaffold();
    let id = &scaffold.invoice.bindle.id;
    let sha = &scaffold.parcel.sha;
    let mut store = Store::new("root");
    store.create_invoice(&scaffold.invoice).unwrap();
    assert!(!store.parcel_exists(id, sha).unwrap());
    assert!(matches!(store.get_parcel(id, sha), Err(ProviderError::NotFound)));
    // Only a regular file is a parcel
    let path = store.provider.parcel_data_path(sha);
    store.nodes.insert(path.clone(), Node::Dir);
    assert!(!store.parcel_exists(id, sha).unwrap());
    store.nodes.insert(path, Node::Other);
    assert!(!store.parcel_exists(id, sha).unwrap());
    // A failed look is no answer
    store.fail_at = Some(store.actions + 2);
    assert!(matches!(store.parcel_exists(id, sha), Err(ProviderError::Io(_))));
}

#[test]
fn parcel_with_another_digest_is_refused_for_good() {
    let scaffold = scaffold();
    let id = &scaffold.invoice.bindle.id;
    let parcel = &scaffold.parcel;
    let mut store = Store::new("root");
    store.create_invoice(&scaffold.invoice).unwrap();
    assert!(matches!(
        store.create_parcel(id, &parcel.sha, b"a blue one"),
        Err(ProviderError::DigestMismatch)
    ));
    assert!(!store.parcel_exists(id, &parcel.sha).unwrap());
    let part = format!("{}.part", store.provider.parcel_data_path(&parcel.sha));
    assert_eq!(Some(&Node::File(b"a blue one".to_vec())), store.node(&part));
    // The directory is there by now
    assert!(matches!(
        store.create_parcel(id, &parcel.sha, &parcel.data),
        Err(ProviderError::Exists)
    ));
}

#[test]
fn parcel_cannot_be_created_twice() {
    let scaffold = scaffold();
    let id = &scaffold.invoice.bindle.id;
    let parcel = &scaffold.parcel;
    let mut store = Store::new("root");
    store.create_invoice(&scaffold.invoice).unwrap();
    store.create_parcel(id, &parcel.sha, &parcel.data).unwrap();
    let nodes = store.nodes.clone();
    assert!(matches!(
        store.create_parcel(id, &parcel.sha, &parcel.data),
        Err(ProviderError::Exists)
    ));
    assert_eq!(nodes, store.nodes);
}

#[test]
fn parcel_being_written_is_in_progress() {
    let scaffold = scaffold();
    let id = &scaffold.invoice.bindle.id;
    let parcel = &scaffold.parcel;
    let mut store = Store::new("root");
    store.create_invoice(&scaffold.invoice).unwrap();
    let part = format!("{}.part", store.provider.parcel_data_path(&parcel.sha));
    let data_file = store.provider.parcel_data_path(&parcel.sha);
    // Whatever it is that is there
    for node in [Node::File(Vec::new()), Node::Dir, Node::Other] {
        store.nodes.insert(part.clone(), node);
        store.nodes.remove(&store.provider.parcel_path(&parcel.sha));
        assert!(matches!(
            store.create_parcel(id, &parcel.sha, &parcel.data),
            Err(ProviderError::WriteInProgress)
        ));
        assert!(store.node(&data_file).is_none());
    }
}

#[test]
fn parcel_file_is_whole_whatever_fails() {
    let scaffold = scaffold();
    let id = &scaffold.invoice.bindle.id;
    let parcel = &scaffold.parcel;
    let mut steps = 0;
    for n in 1.. {
        let mut store = Store::new("root");
        store.create_invoice(&scaffold.invoice).unwrap();
        store.get_invoice(id).unwrap();
        let start = store.actions;
        store.fail_at = Some(start + n);
        let created = store.create_parcel(id, &parcel.sha, &parcel.data);
        let path = store.provider.parcel_data_path(&parcel.sha);
        match store.node(&path) {
            None => assert!(created.is_err(), "{}", n),
            Some(node) => {
                assert!(created.is_ok(), "{}", n);
                assert_eq!(&Node::File(parcel.data.clone()), node);
            }
        }
        if store.actions < start + n {
            steps = store.actions - start;
            break;
        }
    }
    assert_eq!(10, steps);
}

#[test]
fn empty_store_warms() {
    let mut store = Store::new("root");
    assert!(store.warm_index().is_ok());
    assert_eq!(1, store.actions);
    assert!(store.indexed.is_empty());
}

#[test]
fn warming_tells_the_index_of_every_invoice() {
    let scaffold = scaffold();
    let mut store = Store::new("root");
    let names = ["a/1.0.0", "b/1.0.0", "c/2.0.0"];
    for name in names {
        let mut invoice = scaffold.invoice.clone();
        invoice.bindle.id = id_of(name);
        store.create_invoice(&invoice).unwrap();
    }
    store.indexed.clear();
    let nodes = store.nodes.clone();
    // An entry without a name is passed over
    store.listing.push(None);
    store.warm_index().unwrap();
    let mut told: Vec<&str> =
        store.indexed.iter().map(|inv| inv.bindle.id.name.as_str()).collect();
    told.sort();
    assert_eq!(names.to_vec(), told);
    assert_eq!(nodes, store.nodes);
}

#[test]
fn warming_stops_at_a_record_under_another_name() {
    let scaffold = scaffold();
    let mut store = Store::new("root");
    store.nodes.insert("root/invoices".to_owned(), Node::Dir);
    store.nodes.insert("root/invoices/wrong".to_owned(), Node::Dir);
    store.nodes.insert(
        "root/invoices/wrong/invoice.toml".to_owned(),
        Node::File(encode(&scaffold.invoice)),
    );
    match store.warm_index() {
        Err(WarmError::DigestMismatch { sha, digest }) => {
            assert_eq!("wrong", sha);
            assert_eq!(scaffold.invoice.canonical_name(), digest);
            assert_eq!(
                format!(
                    "SHA wrong did not match computed digest {}. Delete this record.",
                    digest
                ),
                mismatch_message(&sha, &digest)
            );
        }
        _ => panic!("the names differ"),
    }
    assert!(store.indexed.is_empty());
}

#[test]
fn warming_stops_at_what_it_cannot_read() {
    let mut store = Store::new("root");
    store.nodes.insert("root/invoices".to_owned(), Node::Dir);
    store.nodes.insert("root/invoices/x".to_owned(), Node::Dir);
    // A missing document is an error here, though a missing directory is none
    match store.warm_index() {
        Err(WarmError::Io(e)) => assert_eq!(IoErrorKind::NotFound, e.kind),
        _ => panic!("there is no document"),
    }
    store
        .nodes
        .insert("root/invoices/x/invoice.toml".to_owned(), Node::File(b"= not toml".to_vec()));
    assert!(matches!(store.warm_index(), Err(WarmError::Malformed(_))));
    for n in 1..=4 {
        let mut store = Store::new("root");
        store.nodes.insert("root/invoices".to_owned(), Node::Dir);
        store.nodes.insert("root/invoices/x".to_owned(), Node::Dir);
        store.fail_at = Some(n);
        match store.warm_index() {
            Err(WarmError::Io(e)) => assert_eq!("injected", e.message),
            _ => panic!("the call fails"),
        }
    }
}

#[test]
fn yanking_again_changes_nothing_stored() {
    let scaffold = scaffold();
    let id = &scaffold.invoice.bindle.id;
    let mut store = Store::new("root");
    store.create_invoice(&scaffold.invoice).unwrap();
    store.yank_invoice(id).unwrap();
    let nodes = store.nodes.clone();
    store.yank_invoice(id).unwrap();
    assert_eq!(nodes, store.nodes);
    // Also with the invoice in the cache
    store.get_yanked_invoice(id).unwrap();
    store.yank_invoice(id).unwrap();
    assert_eq!(nodes, store.nodes);
}

#[test]
fn new_provider_tells_of_what_was_created() {
    let scaffold = scaffold();
    let mut store = Store::new("root");
    for name in ["a/1.0.0", "b/1.0.0", "c/1.0.0", "d/1.0.0"] {
        let mut invoice = scaffold.invoice.clone();
        invoice.bindle.id = id_of(name);
        store.create_invoice(&invoice).unwrap();
    }
    store.yank_invoice(&id_of("b/1.0.0")).unwrap();
    store.get_invoice(&id_of("c/1.0.0")).unwrap();
    store.create_parcel(&id_of("c/1.0.0"), &scaffold.parcel.sha, &scaffold.parcel.data).unwrap();
    store.yank_invoice(&id_of("c/1.0.0")).unwrap();

    let mut fresh = Store::new("root");
    fresh.nodes = store.nodes.clone();
    fresh.warm_index().unwrap();
    let mut told: Vec<(&str, bool)> = fresh
        .indexed
        .iter()
        .map(|inv| (inv.bindle.id.name.as_str(), inv.yanked == Some(true)))
        .collect();
    told.sort();
    assert_eq!(
        vec![("a/1.0.0", false), ("b/1.0.0", true), ("c/1.0.0", true), ("d/1.0.0", false)],
        told
    );
    assert_eq!(store.nodes, fresh.nodes);
}

#[test]
fn index_is_told_once_or_not_at_all() {
    let scaffold = scaffold();
    let id = &scaffold.invoice.bindle.id;
    for n in 1..=12 {
        let mut store = Store::new("root");
        store.fail_at = Some(n);
        let created = store.create_invoice(&scaffold.invoice);
        // The failing answer of the index itself is an answer too
        let told = if n == 11 { 0 } else { 1 };
        assert_eq!(if created.is_ok() { told } else { 0 }, store.indexed.len(), "{}", n);
    }
    for n in 1..=5 {
        let mut store = Store::new("root");
        store.create_invoice(&scaffold.invoice).unwrap();
        store.indexed.clear();
        store.fail_at = Some(store.actions + n);
        let yanked = store.yank_invoice(id);
        assert_eq!(n == 3, yanked.is_ok(), "{}", n);
        assert_eq!(if n > 3 { 1 } else { 0 }, store.indexed.len(), "{}", n);
    }
}

#[test]
fn invoice_once_read_stays_cached() {
    let scaffold = scaffold();
    let id = &scaffold.invoice.bindle.id;
    let mut store = Store::new("root");
    store.create_invoice(&scaffold.invoice).unwrap();
    let mut others = Vec::new();
    for n in 0..50 {
        let mut other = scaffold.invoice.clone();
        other.bindle.id = id_of(&format!("other/{}.0.0", n));
        store.create_invoice(&other).unwrap();
        others.push(other.bindle.id);
    }
    store.get_invoice(id).unwrap();
    // Other bindles are looked up again and again, some are yanked, and some are not there
    for round in 0..3 {
        for other in &others[..49] {
            store.get_yanked_invoice(other).unwrap();
        }
        if round == 1 {
            store.yank_invoice(&others[7]).unwrap();
        }
    }
    assert!(store.get_invoice(&id_of("nothing/1.0.0")).is_err());
    let actions = store.actions;
    store.get_invoice(id).unwrap();
    assert_eq!(actions, store.actions);
    // One bindle more is one too many
    for other in &others {
        store.get_yanked_invoice(other).unwrap();
    }
    let actions = store.actions;
    store.get_invoice(id).unwrap();
    assert_eq!(actions + 2, store.actions);
}

#[test]
fn parcel_is_read_back_under_another_bindle() {
    let scaffold = scaffold();
    let parcel = &scaffold.parcel;
    let mut other = scaffold.invoice.clone();
    other.bindle.id = id_of("other/1.0.0");
    let mut store = Store::new("root");
    store.create_invoice(&scaffold.invoice).unwrap();
    store.create_parcel(&scaffold.invoice.bindle.id, &parcel.sha, &parcel.data).unwrap();
    // The parcel is there already
    assert_eq!(0, store.create_invoice(&other).unwrap().len());
    assert!(store.parcel_exists(&other.bindle.id, &parcel.sha).unwrap());
    assert_eq!(parcel.data, store.get_parcel(&other.bindle.id, &parcel.sha).unwrap());
    assert!(matches!(
        store.create_parcel(&other.bindle.id, &parcel.sha, &parcel.data),
        Err(ProviderError::Exists)
    ));
}

#[test]
fn invoice_exists_whatever_else_was_done_since() {
    let scaffold = scaffold();
    let id = &scaffold.invoice.bindle.id;
    let mut other = scaffold.invoice.clone();
    other.bindle.id = id_of("other/1.0.0");
    let mut store = Store::new("root");
    store.create_invoice(&scaffold.invoice).unwrap();
    store.create_invoice(&other).unwrap();
    store.create_parcel(id, &scaffold.parcel.sha, &scaffold.parcel.data).unwrap();
    store.yank_invoice(id).unwrap();
    let nodes = store.nodes.clone();
    assert!(matches!(store.create_invoice(&scaffold.invoice), Err(ProviderError::Exists)));
    assert_eq!(nodes, store.nodes);
}

#[test]
fn yanking_what_another_provider_yanked_changes_nothing_stored() {
    let scaffold = scaffold();
    let id = &scaffold.invoice.bindle.id;
    let mut store = Store::new("root");
    store.create_invoice(&scaffold.invoice).unwrap();
    // Kept here without the mark
    store.get_invoice(id).unwrap();
    let mut another = Store::new("root");
    another.nodes = store.nodes.clone();
    another.yank_invoice(id).unwrap();
    store.nodes = another.nodes.clone();
    store.yank_invoice(id).unwrap();
    assert_eq!(another.nodes, store.nodes);
}

#[test]
fn warming_takes_four_answers_for_each_entry() {
    let scaffold = scaffold();
    for count in 0..4 {
        let mut store = Store::new("root");
        store.nodes.insert("root".to_owned(), Node::Dir);
        store.nodes.insert("root/invoices".to_owned(), Node::Dir);
        for n in 0..count {
            let mut invoice = scaffold.invoice.clone();
            invoice.bindle.id = id_of(&format!("a/{}.0.0", n));
            store.create_invoice(&invoice).unwrap();
        }
        store.actions = 0;
        store.warm_index().unwrap();
        assert_eq!(4 * count + 3, store.actions);
    }
}
