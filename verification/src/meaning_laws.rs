//! What the words of the other modules mean, said in terms of fields, characters and bytes.

use crate::cache::{distinct_keys, holds, in_order, lookup, slot, touched, with_entry, without, Entries};
use crate::create_invoice::{create_progress_is, missing_labels, spec_start_create, CreateInvoice, CreateInvoiceView, CreateResultView};
use crate::create_parcel::{is_parcel_data, parcel_progress_is, spec_start_parcel, CreateParcel, CreateParcelView};
use crate::digest::{sha256, spec_lower_hex, HEX_DIGITS, MAX_HASHED};
use crate::effect::{found, Action, ActionView, Event, EventView, FileKind, Progress};
use crate::error::{spec_map_io_error, IoError, ProviderError};
use crate::fetch_invoice::{fetch_progress_is, spec_start_fetch, FetchInvoice, FetchInvoiceView, FetchResultView};
use crate::invoice::{Id, Invoice, InvoiceView, Label, Parcel};
use crate::layout::{spec_invoice_path, spec_invoice_toml_path, spec_parcel_data_path, spec_parcel_path};
use crate::path::{last_name, spec_join, spec_part_path, without_trailing};
use crate::read_parcel::spec_existence;
use crate::warm_index::mismatch_text;
use crate::yank_invoice::{spec_start_yank, yank_progress_is, YankInvoice, YankInvoiceView};
use vstd::prelude::*;

verus! {

/// The content of an invoice is the whole of it.
pub proof fn invoice_content_is_whole(invoice: Invoice)
    ensures
        invoice@.bindle == invoice.bindle,
        invoice@.yanked == invoice.yanked,
        invoice@.rest == invoice.rest,
        invoice.parcel is None ==> invoice@.parcel is None,
        invoice.parcel matches Some(ps) ==> invoice@.parcel == Some(ps@),
{
}

/// An invoice goes by the digest of its bindle's identifier.
pub proof fn invoice_goes_by_its_digest(invoice: InvoiceView)
    ensures
        invoice.canonical_name() == invoice.bindle.id.sha@,
{
}

/// An invoice is yanked exactly if it says so.
pub proof fn only_the_mark_makes_yanked(invoice: InvoiceView)
    ensures
        invoice.yanked == Some(true) ==> invoice.is_yanked(),
        invoice.yanked == Some(false) ==> !invoice.is_yanked(),
        invoice.yanked is None ==> !invoice.is_yanked(),
{
}

/// Yanking sets the mark, and keeps everything else that the invoice says.
pub proof fn yanking_only_sets_the_mark(invoice: InvoiceView)
    ensures
        invoice.yank().yanked == Some(true),
        invoice.yank().bindle == invoice.bindle,
        invoice.yank().parcel == invoice.parcel,
        invoice.yank().rest == invoice.rest,
{
}

/// The parcels of an invoice are those in its list, all of them.
pub proof fn parcels_are_the_list(invoice: InvoiceView)
    ensures
        invoice.parcel is None ==> invoice.parcels().len() == 0,
        invoice.parcel matches Some(ps) ==> invoice.parcels() == ps,
{
}

/// An invoice lists the digest of every parcel in its list, and no other.
pub proof fn listed_is_what_is_in_the_list(invoice: InvoiceView, sha: Seq<char>)
    ensures
        invoice.parcel is None ==> !invoice.lists_parcel(sha),
        invoice.parcel matches Some(ps) ==> (invoice.lists_parcel(sha) <==> exists|i: int|
            0 <= i < ps.len() && (#[trigger] ps[i]).label.sha256@ == sha),
{
    if let Some(ps) = invoice.parcel {
        assert(invoice.parcels() == ps);
        if exists|i: int| 0 <= i < ps.len() && (#[trigger] ps[i]).label.sha256@ == sha {
            let i = choose|i: int| 0 <= i < ps.len() && (#[trigger] ps[i]).label.sha256@ == sha;
            assert(invoice.parcels()[i].label.sha256@ == sha);
        }
        if invoice.lists_parcel(sha) {
            let i = choose|i: int|
                0 <= i < invoice.parcels().len() && (
                #[trigger] invoice.parcels()[i]).label.sha256@ == sha;
            assert(ps[i].label.sha256@ == sha);
        }
    }
}

/// Every parcel in the list of an invoice is one that the invoice lists, wherever it stands.
pub proof fn every_parcel_in_the_list_is_listed(invoice: InvoiceView, i: int)
    requires
        invoice.parcel matches Some(ps) && 0 <= i < ps.len(),
    ensures
        invoice.lists_parcel(invoice.parcel->0[i].label.sha256@),
{
    listed_is_what_is_in_the_list(invoice, invoice.parcel->0[i].label.sha256@);
}

/// Of several parcels, the labels of those are missing at whose place no directory was found: all
/// of these, each as often as it is listed, in the order of the list.
pub proof fn missing_are_those_without_a_directory(
    ps: Seq<Parcel>,
    stats: Seq<Result<FileKind, IoError>>,
)
    requires
        ps.len() <= stats.len(),
    ensures
        missing_labels(ps, stats) == Seq::new(ps.len(), |i: int| i).filter(
            |i: int| stats[i] != Ok::<FileKind, IoError>(FileKind::Dir),
        ).map_values(|i: int| ps[i].label),
        forall|i: int|
            0 <= i < ps.len() && (#[trigger] stats[i]) != Ok::<FileKind, IoError>(FileKind::Dir)
                ==> missing_labels(ps, stats).contains(ps[i].label),
        forall|label: Label| #[trigger]
            missing_labels(ps, stats).contains(label) ==> exists|i: int|
                0 <= i < ps.len() && ps[i].label == label && (#[trigger] stats[i]) != Ok::<
                    FileKind,
                    IoError,
                >(FileKind::Dir),
    decreases ps.len(),
{
    reveal(Seq::filter);
    let absent = |i: int| stats[i] != Ok::<FileKind, IoError>(FileKind::Dir);
    let places = Seq::new(ps.len(), |i: int| i);
    if ps.len() == 0 {
        assert(places =~= Seq::<int>::empty());
        assert(places.filter(absent).map_values(|i: int| ps[i].label) =~= Seq::<Label>::empty());
    } else {
        let shorter = ps.drop_last();
        let last = ps.len() - 1;
        let earlier = missing_labels(shorter, stats);
        let now = missing_labels(ps, stats);
        missing_are_those_without_a_directory(shorter, stats);
        let fewer = Seq::new(shorter.len(), |i: int| i);
        assert(places.drop_last() =~= fewer);
        assert(places.last() == last);
        lemma_filter_bounds(fewer, absent, last);
        assert(fewer.filter(absent).map_values(|i: int| shorter[i].label) =~= fewer.filter(
            absent,
        ).map_values(|i: int| ps[i].label));
        assert(places.filter(absent).map_values(|i: int| ps[i].label) =~= now);
        assert forall|i: int|
            0 <= i < ps.len() && (#[trigger] stats[i]) != Ok::<FileKind, IoError>(
                FileKind::Dir,
            ) implies now.contains(ps[i].label) by {
            if i < last {
                assert(shorter[i] == ps[i]);
                let k = choose|k: int| 0 <= k < earlier.len() && earlier[k] == ps[i].label;
                assert(now[k] == ps[i].label);
            } else {
                assert(now.last() == ps[i].label);
            }
        }
        assert forall|label: Label| #[trigger] now.contains(label) implies exists|i: int|
            0 <= i < ps.len() && ps[i].label == label && (#[trigger] stats[i]) != Ok::<
                FileKind,
                IoError,
            >(FileKind::Dir) by {
            let k = choose|k: int| 0 <= k < now.len() && now[k] == label;
            if k < earlier.len() {
                assert(earlier[k] == label);
                assert(earlier.contains(label));
                let i = choose|i: int|
                    0 <= i < shorter.len() && shorter[i].label == label && (
                    #[trigger] stats[i]) != Ok::<FileKind, IoError>(FileKind::Dir);
                assert(ps[i].label == label && stats[i] != Ok::<FileKind, IoError>(FileKind::Dir));
            } else {
                assert(ps[last].label == label && stats[last] != Ok::<FileKind, IoError>(
                    FileKind::Dir,
                ));
            }
        }
    }
}

/// What is left of the numbers up to `end` is still below `end`.
proof fn lemma_filter_bounds(places: Seq<int>, keep: spec_fn(int) -> bool, end: int)
    requires
        forall|k: int| 0 <= k < places.len() ==> 0 <= #[trigger] places[k] < end,
    ensures
        forall|k: int|
            0 <= k < places.filter(keep).len() ==> 0 <= #[trigger] places.filter(keep)[k] < end,
    decreases places.len(),
{
    reveal(Seq::filter);
    if places.len() > 0 {
        let fewer = places.drop_last();
        assert forall|k: int| 0 <= k < fewer.len() implies 0 <= #[trigger] fewer[k] < end by {
            assert(fewer[k] == places[k]);
        }
        lemma_filter_bounds(fewer, keep, end);
        let kept = places.filter(keep);
        assert forall|k: int| 0 <= k < kept.len() implies 0 <= #[trigger] kept[k] < end by {
            if k < fewer.filter(keep).len() {
                assert(kept[k] == fewer.filter(keep)[k]);
            } else {
                assert(kept[k] == places[places.len() - 1]);
            }
        }
    }
}

/// Data is that of a parcel exactly if its SHA-256 digest, in hexadecimal, is the parcel's name.
pub proof fn parcel_data_has_the_digest(data: Seq<u8>, parcel_id: Seq<char>)
    ensures
        is_parcel_data(data, parcel_id) <==> spec_lower_hex(sha256(data)) == parcel_id,
{
}

/// Two characters for each byte, one for its upper and one for its lower half, each a digit or a
/// letter from `a` on.
pub proof fn hex_is_two_digits_for_each_byte(bytes: Seq<u8>, i: int)
    requires
        0 <= i < bytes.len(),
    ensures
        spec_lower_hex(bytes).len() == 2 * bytes.len(),
        ({
            let high = bytes[i] as int / 16;
            let low = bytes[i] as int % 16;
            &&& spec_lower_hex(bytes)[2 * i] as int == (if high < 10 {
                '0' as int + high
            } else {
                'a' as int + high - 10
            })
            &&& spec_lower_hex(bytes)[2 * i + 1] as int == (if low < 10 {
                '0' as int + low
            } else {
                'a' as int + low - 10
            })
        }),
{
    reveal_strlit("0123456789abcdef");
    let d = HEX_DIGITS@;
    assert(d[0] == '0' && d[1] == '1' && d[2] == '2' && d[3] == '3');
    assert(d[4] == '4' && d[5] == '5' && d[6] == '6' && d[7] == '7');
    assert(d[8] == '8' && d[9] == '9' && d[10] == 'a' && d[11] == 'b');
    assert(d[12] == 'c' && d[13] == 'd' && d[14] == 'e' && d[15] == 'f');
    assert((2 * i) / 2 == i && (2 * i + 1) / 2 == i && (2 * i) % 2 == 0 && (2 * i + 1) % 2 == 1);
}

/// Nothing is written for no bytes.
pub proof fn hex_of_nothing_is_empty()
    ensures
        spec_lower_hex(Seq::empty()).len() == 0,
{
}

/// A failed call is passed on as it is, unless it failed for want of the file.
pub proof fn only_a_missing_file_is_not_found(e: IoError)
    ensures
        e.kind is NotFound ==> spec_map_io_error(e) is NotFound,
        !(e.kind is NotFound) ==> spec_map_io_error(e) == ProviderError::Io(e),
{
}

/// A parcel is there exactly if a regular file was found; that nothing was found is an answer, and
/// any other failure is passed on.
pub proof fn existence_is_a_regular_file(stat: Result<FileKind, IoError>)
    ensures
        stat == Ok::<FileKind, IoError>(FileKind::File) ==> spec_existence(stat) == Ok::<
            bool,
            ProviderError,
        >(true),
        stat == Ok::<FileKind, IoError>(FileKind::Dir) || stat == Ok::<FileKind, IoError>(
            FileKind::Other,
        ) ==> spec_existence(stat) == Ok::<bool, ProviderError>(false),
        stat matches Err(e) && e.kind is NotFound ==> spec_existence(stat) == Ok::<
            bool,
            ProviderError,
        >(false),
        stat matches Err(e) && !(e.kind is NotFound) ==> spec_existence(stat) == Err::<
            bool,
            ProviderError,
        >(ProviderError::Io(stat->Err_0)),
{
}

/// Something of a kind was found exactly if a look succeeded with that kind.
pub proof fn found_is_a_successful_look(stat: Result<FileKind, IoError>, kind: FileKind)
    ensures
        found(stat, kind) <==> stat == Ok::<FileKind, IoError>(kind),
{
}

/// The operator is told both names.
pub proof fn mismatch_names_both(sha: Seq<char>, digest: Seq<char>)
    ensures
        mismatch_text(sha, digest) == "SHA "@ + sha + " did not match computed digest "@ + digest
            + ". Delete this record."@,
{
}

/// A name that starts with a separator stands for itself. Any other follows the directory, with
/// one separator between the two where the directory does not end in one.
pub proof fn join_puts_one_separator(base: Seq<char>, name: Seq<char>)
    ensures
        name.len() > 0 && name[0] == '/' ==> spec_join(base, name) == name,
        !(name.len() > 0 && name[0] == '/') && base.len() == 0 ==> spec_join(base, name) == name,
        !(name.len() > 0 && name[0] == '/') && base.len() > 0 && base.last() == '/' ==> spec_join(
            base,
            name,
        ) == base + name,
        !(name.len() > 0 && name[0] == '/') && base.len() > 0 && base.last() != '/' ==> spec_join(
            base,
            name,
        ) == base + seq!['/'] + name,
{
    assert(base + name =~= base + name);
    assert(base.len() == 0 ==> base + name =~= name);
    assert(base.push('/') + name =~= base + seq!['/'] + name);
}

/// The directories and files of invoices and parcels under a root that does not end in a
/// separator, for a name that is one component.
pub proof fn files_are_where_they_belong(root: Seq<char>, name: Seq<char>)
    requires
        root.len() > 0,
        root.last() != '/',
        name.len() > 0,
        !name.contains('/'),
    ensures
        spec_invoice_path(root, name) == root + "/invoices/"@ + name,
        spec_invoice_toml_path(root, name) == root + "/invoices/"@ + name + "/invoice.toml"@,
        spec_parcel_path(root, name) == root + "/parcels/"@ + name,
        spec_parcel_data_path(root, name) == root + "/parcels/"@ + name + "/parcel.dat"@,
{
    lemma_literals();
    assert(name.contains(name[0]) && name.contains(name.last()));
    assert(spec_invoice_path(root, name) =~= root + "/invoices/"@ + name);
    assert(spec_parcel_path(root, name) =~= root + "/parcels/"@ + name);
    assert(spec_invoice_toml_path(root, name) =~= root + "/invoices/"@ + name + "/invoice.toml"@);
    assert(spec_parcel_data_path(root, name) =~= root + "/parcels/"@ + name + "/parcel.dat"@);
}

/// The same for a root that is empty or ends in a separator.
pub proof fn files_are_where_they_belong_below_a_separator(root: Seq<char>, name: Seq<char>)
    requires
        root.len() == 0 || root.last() == '/',
        name.len() > 0,
        !name.contains('/'),
    ensures
        spec_invoice_path(root, name) == root + "invoices/"@ + name,
        spec_invoice_toml_path(root, name) == root + "invoices/"@ + name + "/invoice.toml"@,
        spec_parcel_path(root, name) == root + "parcels/"@ + name,
        spec_parcel_data_path(root, name) == root + "parcels/"@ + name + "/parcel.dat"@,
{
    lemma_literals();
    assert(name.contains(name[0]) && name.contains(name.last()));
    assert(spec_invoice_path(root, name) =~= root + "invoices/"@ + name);
    assert(spec_parcel_path(root, name) =~= root + "parcels/"@ + name);
    assert(spec_invoice_toml_path(root, name) =~= root + "invoices/"@ + name + "/invoice.toml"@);
    assert(spec_parcel_data_path(root, name) =~= root + "parcels/"@ + name + "/parcel.dat"@);
}

/// The same for a name of any form: the file is looked up in the directory, and the directory in
/// the one for all.
pub proof fn files_of_any_name(root: Seq<char>, name: Seq<char>)
    ensures
        spec_invoice_path(root, name) == spec_join(spec_join(root, "invoices"@), name),
        spec_invoice_toml_path(root, name) == spec_join(
            spec_join(spec_join(root, "invoices"@), name),
            "invoice.toml"@,
        ),
        spec_parcel_path(root, name) == spec_join(spec_join(root, "parcels"@), name),
        spec_parcel_data_path(root, name) == spec_join(
            spec_join(spec_join(root, "parcels"@), name),
            "parcel.dat"@,
        ),
{
}

proof fn lemma_literals()
    ensures
        "/invoices/"@ == seq!['/'] + "invoices"@ + seq!['/'],
        "invoices/"@ == "invoices"@ + seq!['/'],
        "/parcels/"@ == seq!['/'] + "parcels"@ + seq!['/'],
        "parcels/"@ == "parcels"@ + seq!['/'],
        "/invoice.toml"@ == seq!['/'] + "invoice.toml"@,
        "/parcel.dat"@ == seq!['/'] + "parcel.dat"@,
        "invoices"@.len() > 0 && "invoices"@[0] != '/' && "invoices"@.last() != '/',
        "parcels"@.len() > 0 && "parcels"@[0] != '/' && "parcels"@.last() != '/',
        "invoice.toml"@.len() > 0 && "invoice.toml"@[0] != '/',
        "parcel.dat"@.len() > 0 && "parcel.dat"@[0] != '/',
        ".part"@ == seq!['.'] + "part"@,
{
    reveal_strlit("/invoices/");
    reveal_strlit("invoices/");
    reveal_strlit("invoices");
    reveal_strlit("/parcels/");
    reveal_strlit("parcels/");
    reveal_strlit("parcels");
    reveal_strlit("/invoice.toml");
    reveal_strlit("invoice.toml");
    reveal_strlit("/parcel.dat");
    reveal_strlit("parcel.dat");
    reveal_strlit(".part");
    reveal_strlit("part");
    assert("/invoices/"@ =~= seq!['/'] + "invoices"@ + seq!['/']);
    assert("invoices/"@ =~= "invoices"@ + seq!['/']);
    assert("/parcels/"@ =~= seq!['/'] + "parcels"@ + seq!['/']);
    assert("parcels/"@ =~= "parcels"@ + seq!['/']);
    assert("/invoice.toml"@ =~= seq!['/'] + "invoice.toml"@);
    assert("/parcel.dat"@ =~= seq!['/'] + "parcel.dat"@);
    assert(".part"@ =~= seq!['.'] + "part"@);
}

/// Whether `end` is made of separators and of single dots behind them.
pub open spec fn is_idle(end: Seq<char>) -> bool {
    forall|i: int|
        0 <= i < end.len() ==> (#[trigger] end[i]) == '/' || (end[i] == '.' && i > 0 && end[i - 1]
            == '/')
}

proof fn lemma_idle_end(path: Seq<char>, end: Seq<char>)
    requires
        is_idle(end),
    ensures
        without_trailing(path + end) == without_trailing(path),
    decreases end.len(),
{
    let whole = path + end;
    if end.len() == 0 {
        assert(whole =~= path);
    } else {
        let shorter = end.drop_last();
        assert(is_idle(shorter)) by {
            assert forall|i: int| 0 <= i < shorter.len() implies (#[trigger] shorter[i]) == '/' || (
            shorter[i] == '.' && i > 0 && shorter[i - 1] == '/') by {
                assert(shorter[i] == end[i]);
                if i > 0 {
                    assert(shorter[i - 1] == end[i - 1]);
                }
            }
        }
        assert(whole.drop_last() =~= path + shorter);
        let k = end.len() - 1;
        assert(whole.last() == end[k]);
        if end[k] != '/' {
            assert(whole[whole.len() - 2] == end[k - 1]);
        }
        lemma_idle_end(path, shorter);
    }
}

proof fn lemma_last_name(stem: Seq<char>, name: Seq<char>)
    requires
        stem.len() == 0 || stem.last() == '/',
        !name.contains('/'),
    ensures
        last_name(stem + name) == name,
    decreases name.len(),
{
    let path = stem + name;
    if name.len() == 0 {
        assert(path =~= stem);
        assert(last_name(path) =~= name);
    } else {
        let shorter = name.drop_last();
        assert(name.contains(name.last()));
        assert(!shorter.contains('/')) by {
            if shorter.contains('/') {
                let i = choose|i: int| 0 <= i < shorter.len() && shorter[i] == '/';
                assert(name[i] == '/');
            }
        }
        assert(path.drop_last() =~= stem + shorter);
        lemma_last_name(stem, shorter);
        assert(shorter.push(name.last()) =~= name);
    }
}

/// The part path of a file is its path, without separators and single dots at the end, with
/// `.part` behind it.
pub proof fn part_path_adds_part(stem: Seq<char>, name: Seq<char>, end: Seq<char>)
    requires
        stem.len() == 0 || stem.last() == '/',
        name.len() > 0,
        !name.contains('/'),
        name != seq!['.'],
        name != seq!['.', '.'],
        is_idle(end),
    ensures
        spec_part_path(stem + name + end) == stem + name + ".part"@,
{
    let path = stem + name;
    lemma_literals();
    assert(name.contains(name.last()));
    lemma_idle_end(path, end);
    if path.len() > 1 && path.last() == '.' && path[path.len() - 2] == '/' {
        if name.len() > 1 {
            assert(name[name.len() - 2] == '/');
        }
        assert(name =~= seq!['.']);
    }
    assert(without_trailing(path) == path);
    lemma_last_name(stem, name);
    assert(path.push('.') + "part"@ =~= path + ".part"@);
}

/// A path that ends in the name of no file has no part path of its own.
pub proof fn part_path_of_no_file_is_itself(stem: Seq<char>, end: Seq<char>)
    requires
        stem.len() == 0 || stem.last() == '/',
        is_idle(end),
    ensures
        spec_part_path(stem + seq!['.', '.'] + end) == stem + seq!['.', '.'] + end,
        spec_part_path(seq!['.'] + end) == seq!['.'] + end,
        spec_part_path(end) == end,
{
    let up = seq!['.', '.'];
    let here = seq!['.'];
    let nothing = Seq::<char>::empty();
    lemma_idle_end(stem + up, end);
    assert((stem + up).last() == '.' && (stem + up)[(stem + up).len() - 2] == '.');
    lemma_last_name(stem, up);
    lemma_idle_end(here, end);
    assert(nothing + here =~= here);
    lemma_last_name(nothing, here);
    lemma_idle_end(nothing, end);
    assert(nothing + end =~= end);
    assert(without_trailing(nothing) == nothing);
    assert(last_name(nothing) =~= nothing);
}

/// An invoice is in the cache exactly if there is an entry for its bindle, and it is the one of
/// that entry.
pub proof fn lookup_finds_the_entry(entries: Entries, key: Seq<char>, i: int)
    requires
        forall|a: int, b: int|
            0 <= a < b < entries.len() ==> (#[trigger] entries[a]).0 != (#[trigger] entries[b]).0,
        0 <= i < entries.len(),
        entries[i].0 == key,
    ensures
        lookup(entries, key) == Some(entries[i].1),
        without(entries, key) == entries.take(i) + entries.skip(i + 1),
        touched(entries, key) == seq![entries[i]] + entries.take(i) + entries.skip(i + 1),
        forall|limit: nat, invoice: InvoiceView| #[trigger]
            with_entry(entries, limit, key, invoice) == seq![(key, invoice)] + entries.take(i)
                + entries.skip(i + 1),
{
    assert(holds(entries, key));
    let s = slot(entries, key);
    assert(entries[s].0 == key);
    assert(s == i);
    assert(without(entries, key) =~= entries.take(i) + entries.skip(i + 1));
    assert(touched(entries, key) =~= seq![entries[i]] + entries.take(i) + entries.skip(i + 1));
    assert forall|limit: nat, invoice: InvoiceView| #[trigger]
        with_entry(entries, limit, key, invoice) == seq![(key, invoice)] + entries.take(i)
            + entries.skip(i + 1) by {
        assert(with_entry(entries, limit, key, invoice) =~= seq![(key, invoice)] + entries.take(i)
            + entries.skip(i + 1));
    }
}

/// Without an entry for a bindle, nothing is found, used or taken out, and a new one comes first:
/// where there is room, before all others, and in a full cache in the place of the last.
pub proof fn lookup_of_nothing(
    entries: Entries,
    limit: nat,
    key: Seq<char>,
    invoice: InvoiceView,
)
    requires
        forall|i: int| 0 <= i < entries.len() ==> (#[trigger] entries[i]).0 != key,
        0 < limit,
        entries.len() <= limit,
    ensures
        lookup(entries, key) is None,
        without(entries, key) == entries,
        touched(entries, key) == entries,
        entries.len() < limit ==> with_entry(entries, limit, key, invoice) == seq![(key, invoice)]
            + entries,
        entries.len() == limit ==> with_entry(entries, limit, key, invoice) == seq![(key, invoice)]
            + entries.take(limit - 1),
{
    assert(!holds(entries, key));
    assert(entries.len() == limit ==> entries.drop_last() =~= entries.take(limit - 1));
}

/// A cache in order has at most fifty entries, no two of them for the same bindle.
pub proof fn order_is_fifty_distinct(entries: Entries)
    ensures
        in_order(entries) <==> entries.len() <= 50 && forall|a: int, b: int|
            0 <= a < b < entries.len() ==> (#[trigger] entries[a]).0 != (#[trigger] entries[b]).0,
{
    if entries.len() <= 50 && forall|a: int, b: int|
        0 <= a < b < entries.len() ==> (#[trigger] entries[a]).0 != (#[trigger] entries[b]).0 {
        assert(distinct_keys(entries)) by {
            assert forall|i: int, j: int|
                0 <= i < entries.len() && 0 <= j < entries.len() && (#[trigger] entries[i]).0 == (
                #[trigger] entries[j]).0 implies i == j by {
                if i < j {
                    assert(entries[i].0 != entries[j].0);
                } else if j < i {
                    assert(entries[j].0 != entries[i].0);
                }
            }
        }
    }
}

/// The content of an action says all that the action says.
pub proof fn action_content_is_whole(action: Action)
    ensures
        match action {
            Action::Stat { path } => action@ == (ActionView::Stat { path: path@ }),
            Action::StatAll { paths } => action@ matches ActionView::StatAll { paths: ps }
                && ps.len() == paths@.len() && forall|i: int|
                0 <= i < ps.len() ==> #[trigger] ps[i] == paths@[i]@,
            Action::CreateDirAll { path } => action@ == (ActionView::CreateDirAll { path: path@ }),
            Action::CreateNew { path } => action@ == (ActionView::CreateNew { path: path@ }),
            Action::Write { data } => action@ == (ActionView::Write { data: data@ }),
            Action::CopyStream => action@ is CopyStream,
            Action::Flush => action@ is Flush,
            Action::Rewind => action@ is Rewind,
            Action::HashFile => action@ is HashFile,
            Action::Rename { from, to } => action@ == (ActionView::Rename { from: from@, to: to@ }),
            Action::WriteFile { path, data } => action@ == (ActionView::WriteFile {
                path: path@,
                data: data@,
            }),
            Action::ReadText { path } => action@ == (ActionView::ReadText { path: path@ }),
            Action::OpenRead { path } => action@ == (ActionView::OpenRead { path: path@ }),
            Action::ReadDir { path } => action@ == (ActionView::ReadDir { path: path@ }),
            Action::NextEntry => action@ is NextEntry,
            Action::Encode { invoice } => action@ == (ActionView::Encode { invoice: invoice@ }),
            Action::Decode { text } => action@ == (ActionView::Decode { text: text@ }),
            Action::Index { invoice } => action@ == (ActionView::Index { invoice: invoice@ }),
            Action::ValidateParcel { bindle_id, parcel_id } => action@
                == (ActionView::ValidateParcel { bindle_id, parcel_id: parcel_id@ }),
        },
{
}

/// The content of an event says all that the event says.
pub proof fn event_content_is_whole(event: Event)
    ensures
        match event {
            Event::Stated(r) => event@ == EventView::Stated(r),
            Event::StatedAll(r) => event@ == EventView::StatedAll(r@),
            Event::Finished(r) => event@ == EventView::Finished(r),
            Event::Opened(r) => event@ == EventView::Opened(r),
            Event::Hashed(Ok(hasher)) => event@ == EventView::Hashed(Ok(hasher@)),
            Event::Hashed(Err(e)) => event@ == EventView::Hashed(Err(e)),
            Event::Text(Ok(text)) => event@ == EventView::Text(Ok(text@)),
            Event::Text(Err(e)) => event@ == EventView::Text(Err(e)),
            Event::Entry(r) => event@ == EventView::Entry(r),
            Event::Encoded(Ok(data)) => event@ == EventView::Encoded(Ok(data@)),
            Event::Encoded(Err(e)) => event@ == EventView::Encoded(Err(e)),
            Event::Decoded(Ok(invoice)) => event@ == EventView::Decoded(Ok(invoice@)),
            Event::Decoded(Err(e)) => event@ == EventView::Decoded(Err(e)),
            Event::Indexed => event@ is Indexed,
            Event::Validated(r) => event@ == EventView::Validated(r),
        },
{
}

/// What an invoice's storing came to is what was expected, in every detail.
pub proof fn create_progress_is_exact(
    progress: Progress<CreateInvoice, Result<Vec<Label>, ProviderError>>,
    expected: Progress<CreateInvoiceView, CreateResultView>,
)
    requires
        create_progress_is(progress, expected),
    ensures
        match expected {
            Progress::Pending(e) => progress matches Progress::Pending(op) && op@ == e,
            Progress::Done(Ok(labels)) => progress matches Progress::Done(Ok(v)) && v@ == labels,
            Progress::Done(Err(e)) => progress == Progress::<
                CreateInvoice,
                Result<Vec<Label>, ProviderError>,
            >::Done(Err(e)),
        },
{
}

/// What an invoice's reading came to is what was expected, in every detail.
pub proof fn fetch_progress_is_exact(
    progress: Progress<FetchInvoice, Result<Invoice, ProviderError>>,
    expected: Progress<FetchInvoiceView, FetchResultView>,
)
    requires
        fetch_progress_is(progress, expected),
    ensures
        match expected {
            Progress::Pending(e) => progress matches Progress::Pending(op) && op@ == e,
            Progress::Done(Ok(invoice)) => progress matches Progress::Done(Ok(v)) && v@ == invoice,
            Progress::Done(Err(e)) => progress == Progress::<
                FetchInvoice,
                Result<Invoice, ProviderError>,
            >::Done(Err(e)),
        },
{
}

/// What an invoice's yanking came to is what was expected, in every detail.
pub proof fn yank_progress_is_exact(
    progress: Progress<YankInvoice, Result<(), ProviderError>>,
    expected: Progress<YankInvoiceView, Result<(), ProviderError>>,
)
    requires
        yank_progress_is(progress, expected),
    ensures
        match expected {
            Progress::Pending(e) => progress matches Progress::Pending(op) && op@ == e,
            Progress::Done(r) => progress == Progress::<
                YankInvoice,
                Result<(), ProviderError>,
            >::Done(r),
        },
{
}

/// What a parcel's storing came to is what was expected, in every detail.
pub proof fn parcel_progress_is_exact(
    progress: Progress<CreateParcel, Result<(), ProviderError>>,
    expected: Progress<CreateParcelView, Result<(), ProviderError>>,
)
    requires
        parcel_progress_is(progress, expected),
    ensures
        match expected {
            Progress::Pending(e) => progress matches Progress::Pending(op) && op@ == e,
            Progress::Done(r) => progress == Progress::<
                CreateParcel,
                Result<(), ProviderError>,
            >::Done(r),
        },
{
}

/// An invoice that says it is yanked is refused at once, and any other is looked for in its
/// directory first.
pub proof fn only_yanked_invoices_are_refused_at_once(root: Seq<char>, invoice: InvoiceView)
    ensures
        invoice.yanked == Some(true) ==> spec_start_create(root, invoice) == Progress::<
            CreateInvoiceView,
            CreateResultView,
        >::Done(Err(ProviderError::CreateYanked)),
        invoice.yanked != Some(true) ==> (spec_start_create(root, invoice) matches Progress::Pending(
            op,
        ) && op.root == root && op.invoice == invoice && op.stage is DirCheck),
{
}

/// Storing a parcel starts with the question whether the bindle has it.
pub proof fn parcels_are_validated_first(root: Seq<char>, bindle_id: Id, parcel_id: Seq<char>)
    ensures
        ({
            let op = spec_start_parcel(root, bindle_id, parcel_id);
            &&& op.root == root
            &&& op.bindle_id == bindle_id
            &&& op.parcel_id == parcel_id
            &&& op.stage is Validate
        }),
{
}

/// An invoice is handed out from the cache, or else read from the file under the digest of the
/// identifier it is asked for under.
pub proof fn invoices_are_read_unless_cached(root: Seq<char>, cache: Entries, id: Id)
    ensures
        lookup(cache, id.name@) matches Some(invoice) ==> spec_start_fetch(root, cache, id)
            == Progress::<FetchInvoiceView, FetchResultView>::Done(Ok(invoice)),
        lookup(cache, id.name@) is None ==> spec_start_fetch(root, cache, id) == Progress::<
            FetchInvoiceView,
            FetchResultView,
        >::Pending(FetchInvoiceView::Reading { root, id }),
{
}

/// An invoice to be yanked is taken from the cache and marked, or else read first.
pub proof fn invoices_are_known_before_they_are_yanked(root: Seq<char>, cache: Entries, id: Id)
    ensures
        lookup(cache, id.name@) matches Some(invoice) ==> (spec_start_yank(root, cache, id)
            matches Progress::Pending(YankInvoiceView::Indexing { root: r, id: i, invoice: v }) && r
            == root && i == id && v.yanked == Some(true) && v.bindle == invoice.bindle && v.parcel
            == invoice.parcel && v.rest == invoice.rest),
        lookup(cache, id.name@) is None ==> spec_start_yank(root, cache, id) == Progress::<
            YankInvoiceView,
            Result<(), ProviderError>,
        >::Pending(
            YankInvoiceView::Fetching { root, id, fetch: FetchInvoiceView::Reading { root, id } },
        ),
{
}

/// A hasher takes as many bytes as there are numbers of bits that it can count.
pub proof fn hasher_takes_all_that_it_can_count()
    ensures
        8 * MAX_HASHED + 7 == u64::MAX,
{
}

} // verus!
