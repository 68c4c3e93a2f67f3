//! Where things are in the tree: each invoice in a directory under `invoices`, each parcel in a
//! directory under `parcels`.

use crate::path::{join, join_is_injective, lemma_join_relative, lemma_part_path, spec_join, spec_part_path, PART_EXTENSION};
use vstd::prelude::*;

verus! {

/// The folder name for the invoices directory.
pub const INVOICE_DIRECTORY: &'static str = "invoices";

/// The folder name for the parcels directory.
pub const PARCEL_DIRECTORY: &'static str = "parcels";

/// The file that holds an invoice.
pub const INVOICE_TOML: &'static str = "invoice.toml";

/// The file that holds the data of a parcel.
pub const PARCEL_DAT: &'static str = "parcel.dat";

/// The directory of the invoice `invoice_id`.
pub open spec fn spec_invoice_path(root: Seq<char>, invoice_id: Seq<char>) -> Seq<char> {
    spec_join(spec_join(root, INVOICE_DIRECTORY@), invoice_id)
}

/// The file of the invoice `invoice_id`.
pub open spec fn spec_invoice_toml_path(root: Seq<char>, invoice_id: Seq<char>) -> Seq<char> {
    spec_join(spec_invoice_path(root, invoice_id), INVOICE_TOML@)
}

/// The directory of the parcel `parcel_id`.
pub open spec fn spec_parcel_path(root: Seq<char>, parcel_id: Seq<char>) -> Seq<char> {
    spec_join(spec_join(root, PARCEL_DIRECTORY@), parcel_id)
}

/// The file with the data of the parcel `parcel_id`.
pub open spec fn spec_parcel_data_path(root: Seq<char>, parcel_id: Seq<char>) -> Seq<char> {
    spec_join(spec_parcel_path(root, parcel_id), PARCEL_DAT@)
}

/// The directory of the invoice `invoice_id`.
pub fn invoice_path(root: &str, invoice_id: &str) -> (res: String)
    ensures
        res@ == spec_invoice_path(root@, invoice_id@),
{
    join(join(root, INVOICE_DIRECTORY).as_str(), invoice_id)
}

/// The file of the invoice `invoice_id`.
pub fn invoice_toml_path(root: &str, invoice_id: &str) -> (res: String)
    ensures
        res@ == spec_invoice_toml_path(root@, invoice_id@),
{
    join(invoice_path(root, invoice_id).as_str(), INVOICE_TOML)
}

/// The directory of the parcel `parcel_id`.
pub fn parcel_path(root: &str, parcel_id: &str) -> (res: String)
    ensures
        res@ == spec_parcel_path(root@, parcel_id@),
{
    join(join(root, PARCEL_DIRECTORY).as_str(), parcel_id)
}

/// The file with the data of the parcel `parcel_id`.
pub fn parcel_data_path(root: &str, parcel_id: &str) -> (res: String)
    ensures
        res@ == spec_parcel_data_path(root@, parcel_id@),
{
    join(parcel_path(root, parcel_id).as_str(), PARCEL_DAT)
}

/// A name that is one component of a path, as digests are.
pub open spec fn is_component(name: Seq<char>) -> bool {
    name.len() > 0 && !name.contains('/')
}

/// What the store's own names begin and end with.
proof fn lemma_names()
    ensures
        INVOICE_DIRECTORY@.len() > 0 && INVOICE_DIRECTORY@[0] != '/',
        PARCEL_DIRECTORY@.len() > 0 && PARCEL_DIRECTORY@[0] != '/',
        INVOICE_TOML@.len() > 1 && INVOICE_TOML@[0] != '/',
        PARCEL_DAT@.len() > 1 && PARCEL_DAT@[0] != '/',
        INVOICE_TOML@.last() == 'l',
        PARCEL_DAT@.last() == 't',
        PARCEL_DAT@[PARCEL_DAT@.len() - 2] == 'a',
        PART_EXTENSION@ == seq!['p', 'a', 'r', 't'],
{
    reveal_strlit("invoices");
    reveal_strlit("parcels");
    reveal_strlit("invoice.toml");
    reveal_strlit("parcel.dat");
    reveal_strlit("part");
    assert(PART_EXTENSION@ =~= seq!['p', 'a', 'r', 't']);
}

proof fn lemma_stored_file(dir: Seq<char>, file: Seq<char>)
    requires
        file.len() > 1,
        file[0] != '/',
        file.last() != '/',
        file.last() != '.',
    ensures
        ({
            let dest = spec_join(dir, file);
            let part = spec_part_path(dest);
            &&& dest.len() > dir.len() + 1
            &&& dest.take(dir.len() as int) == dir
            &&& dest.last() == file.last()
            &&& dest[dest.len() - 2] == file[file.len() - 2]
            &&& part == dest.push('.') + PART_EXTENSION@
            &&& part.len() > dest.len()
            &&& part.last() == 't'
            &&& part[part.len() - 2] == 'r'
        }),
{
    lemma_names();
    let dest = spec_join(dir, file);
    lemma_join_relative(dir, file);
    assert(dest.skip(dest.len() - file.len())[file.len() - 2] == file[file.len() - 2]);
    lemma_part_path(dest);
}

/// The file of an invoice is in the invoice's directory, and while it is written it is beside
/// it, under its name with `.part` behind it.
pub proof fn lemma_invoice_files(root: Seq<char>, invoice_id: Seq<char>)
    ensures
        ({
            let dir = spec_invoice_path(root, invoice_id);
            let dest = spec_invoice_toml_path(root, invoice_id);
            let part = spec_part_path(dest);
            &&& dest.len() > dir.len() + 1
            &&& dest.take(dir.len() as int) == dir
            &&& dest.last() == 'l'
            &&& part == dest.push('.') + PART_EXTENSION@
            &&& part.len() > dest.len()
            &&& part.last() == 't'
            &&& part[part.len() - 2] == 'r'
        }),
{
    lemma_names();
    lemma_stored_file(spec_invoice_path(root, invoice_id), INVOICE_TOML@);
}

/// The file of a parcel is in the parcel's directory, and while it is written it is beside it,
/// under its name with `.part` behind it.
pub proof fn lemma_parcel_files(root: Seq<char>, parcel_id: Seq<char>)
    ensures
        ({
            let dir = spec_parcel_path(root, parcel_id);
            let dest = spec_parcel_data_path(root, parcel_id);
            let part = spec_part_path(dest);
            &&& dest.len() > dir.len() + 1
            &&& dest.take(dir.len() as int) == dir
            &&& dest.last() == 't'
            &&& dest[dest.len() - 2] == 'a'
            &&& part == dest.push('.') + PART_EXTENSION@
            &&& part.len() > dest.len()
            &&& part.last() == 't'
            &&& part[part.len() - 2] == 'r'
        }),
{
    lemma_names();
    lemma_stored_file(spec_parcel_path(root, parcel_id), PARCEL_DAT@);
}

/// Invoices with different names have different directories and different files.
pub proof fn invoice_paths_are_distinct(root: Seq<char>, a: Seq<char>, b: Seq<char>)
    requires
        is_component(a),
        is_component(b),
        a != b,
    ensures
        spec_invoice_path(root, a) != spec_invoice_path(root, b),
        spec_invoice_toml_path(root, a) != spec_invoice_toml_path(root, b),
{
    let base = spec_join(root, INVOICE_DIRECTORY@);
    lemma_component_files(base, a, b, INVOICE_TOML@);
}

/// Parcels with different names have different directories and different files.
pub proof fn parcel_paths_are_distinct(root: Seq<char>, a: Seq<char>, b: Seq<char>)
    requires
        is_component(a),
        is_component(b),
        a != b,
    ensures
        spec_parcel_path(root, a) != spec_parcel_path(root, b),
        spec_parcel_data_path(root, a) != spec_parcel_data_path(root, b),
{
    let base = spec_join(root, PARCEL_DIRECTORY@);
    lemma_component_files(base, a, b, PARCEL_DAT@);
}

proof fn lemma_component_files(base: Seq<char>, a: Seq<char>, b: Seq<char>, file: Seq<char>)
    requires
        is_component(a),
        is_component(b),
        a != b,
        file == INVOICE_TOML@ || file == PARCEL_DAT@,
    ensures
        spec_join(base, a) != spec_join(base, b),
        spec_join(spec_join(base, a), file) != spec_join(spec_join(base, b), file),
{
    lemma_names();
    assert(a.contains(a[0]) && b.contains(b[0]) && a.contains(a.last()) && b.contains(b.last()));
    if spec_join(base, a) == spec_join(base, b) {
        join_is_injective(base, a, b);
    }
    lemma_join_relative(base, a);
    lemma_join_relative(base, b);
    let da = spec_join(base, a);
    let db = spec_join(base, b);
    let fa = spec_join(da, file);
    let fb = spec_join(db, file);
    assert(da.last() != '/' && db.last() != '/');
    if fa == fb {
        assert(da =~= fa.take(fa.len() - file.len() - 1));
        assert(db =~= fb.take(fb.len() - file.len() - 1));
    }
}

/// The file of an invoice is never the file of a parcel, and neither is ever a file that is
/// still being written.
pub proof fn files_do_not_mix(root: Seq<char>, invoice_id: Seq<char>, parcel_id: Seq<char>)
    ensures
        ({
            let invoice = spec_invoice_toml_path(root, invoice_id);
            let parcel = spec_parcel_data_path(root, parcel_id);
            &&& invoice != parcel
            &&& invoice != spec_part_path(invoice)
            &&& invoice != spec_part_path(parcel)
            &&& parcel != spec_part_path(invoice)
            &&& parcel != spec_part_path(parcel)
        }),
{
    lemma_invoice_files(root, invoice_id);
    lemma_parcel_files(root, parcel_id);
}

} // verus!
