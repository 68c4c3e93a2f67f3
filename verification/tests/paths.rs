use bindle_store::layout;
use bindle_store::path::{join, part_path};
use bindle_store::provider::FileProvider;
use std::path::{Path, PathBuf};

#[test]
fn test_should_generate_paths() {
    let f = FileProvider::new("test", ());
    assert_eq!("test/invoices/123", f.invoice_path("123"));
    assert_eq!("test/invoices/123/invoice.toml", f.invoice_toml_path("123"));
    assert_eq!("test/parcels/123", f.parcel_path("123"));
    assert_eq!("test/parcels/123/parcel.dat", f.parcel_data_path("123"));
}

#[test]
fn empty_id_is_the_directory_of_all() {
    let f = FileProvider::new("test", ());
    assert_eq!("test/invoices/", f.invoice_path(""));
    assert_eq!("test/parcels/", f.parcel_path(""));
    assert_eq!("test/invoices/invoice.toml", f.invoice_toml_path(""));
}

#[test]
fn absolute_id_stands_for_itself() {
    let f = FileProvider::new("test", ());
    assert_eq!("/etc", f.parcel_path("/etc"));
    assert_eq!("/etc/parcel.dat", f.parcel_data_path("/etc"));
}

#[test]
fn join_is_the_join_of_std() {
    let bases = ["", "/", "a", "a/", "a/b", "a//", ".", "..", "/x/y", "h\u{e9}"];
    let names = ["", "/", "n", "n/", "/n", ".", "..", "a/b", "n.toml", "\u{fc}ber"];
    for base in bases {
        for name in names {
            let expected = Path::new(base).join(name);
            assert_eq!(expected.to_str().unwrap(), join(base, name), "{:?} {:?}", base, name);
        }
    }
}

fn std_part_path(dest: &str) -> String {
    let dest = PathBuf::from(dest);
    let extension = match dest.extension() {
        Some(s) => {
            let mut ext = s.to_owned();
            ext.push(".part");
            ext
        }
        None => "part".into(),
    };
    dest.with_extension(extension).to_str().unwrap().to_owned()
}

#[test]
fn part_path_adds_an_extension() {
    let paths = [
        "invoice.toml", "test/invoices/1/invoice.toml", "parcel.dat", "foo", ".foo", "foo.", "foo..",
        ".foo.bar", "...", "a/b.c/d", "a/b.c/.d", "/", "", ".", "..", "./", "../", "/..", "/.", "a/",
        "a//", "a/.", "a/./.", "a/b/./", "a.toml/", "a/..", "a/../", "./.", "\u{fc}.t", "a./.", ". .",
    ];
    for path in paths {
        assert_eq!(std_part_path(path), part_path(path), "{:?}", path);
    }
    assert_eq!("x/invoice.toml.part", part_path("x/invoice.toml"));
    assert_eq!("foo.part", part_path("foo"));
}

#[test]
fn different_names_have_different_files() {
    let names = ["a", "b", "ab", "a.b", "invoice.toml", "parcel.dat", "parcel.dat.part"];
    let mut files = Vec::new();
    for name in names {
        for root in ["", "r", "r/"] {
            files.push(layout::invoice_toml_path(root, name));
            files.push(layout::parcel_data_path(root, name));
            files.push(part_path(&layout::invoice_toml_path(root, name)));
            files.push(part_path(&layout::parcel_data_path(root, name)));
        }
    }
    files.sort();
    files.dedup();
    // "r" and "r/" are the same root
    assert_eq!(names.len() * 2 * 4, files.len());
}
