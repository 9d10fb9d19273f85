//! The PAK browser: entries grouped by folder under the current directory
//! (given as path components), or matched by a search, in the chosen order;
//! and the entries a folder selection covers.
use vstd::prelude::*;

use crate::browser::{browser_order, is_permutation, row_order, BrowserSort, RowOrderKey, RowOrderView};
use crate::dzip::paths::{file_name, path_components, spec_file_name, spec_path_components};
use crate::pak::model::{kind_label, spec_kind_label, spec_zip_compression_label, zip_compression_label, PakEntryKind, ZipCompression};
use crate::pak::time::{is_filetime_text, ms_dos_text, timestamp_label, PakTimestamp};
use crate::text::{
    chars_of, contains_infix, decimal, has_infix, join_with, lower, lower_vec, push_decimal, push_str,
    replace_char, replaced, string_of_all, trim, trimmed, views, CharSet,
};

verus! {

/// An archive entry as the browser reads it.
pub struct PakItem {
    /// The entry path, its bytes read as UTF-8 with invalid sequences replaced.
    pub path: String,
    pub kind: PakEntryKind,
    /// The length of the entry's data.
    pub size: u64,
    /// The compression, for an entry read from a ZIP.
    pub zip_compression: Option<ZipCompression>,
    pub timestamp: PakTimestamp,
}

/// What a browser row stands for: a folder by its path components, or an
/// entry by its position.
#[derive(Clone, Debug, PartialEq, Eq)]
pub enum PakSelection {
    Directory(Vec<String>),
    Entry(usize),
}

/// A `PakSelection` as plain values.
pub enum PakSelectionView {
    Directory(Seq<Seq<char>>),
    Entry(usize),
}

impl View for PakSelection {
    type V = PakSelectionView;

    open spec fn view(&self) -> PakSelectionView {
        match self {
            PakSelection::Directory(p) => PakSelectionView::Directory(views(p@)),
            PakSelection::Entry(i) => PakSelectionView::Entry(*i),
        }
    }
}

/// One row of the PAK browser table.
#[derive(Clone, Debug, PartialEq, Eq)]
pub struct PakRow {
    pub key: String,
    pub selection: PakSelection,
    pub name: String,
    pub full_path: String,
    pub kind: PakEntryKind,
    pub size: u64,
    pub detail: String,
}

/// A `PakRow` as plain values.
pub struct PakRowView {
    pub key: Seq<char>,
    pub selection: PakSelectionView,
    pub name: Seq<char>,
    pub full_path: Seq<char>,
    pub kind: PakEntryKind,
    pub size: u64,
    pub detail: Seq<char>,
}

impl View for PakRow {
    type V = PakRowView;

    open spec fn view(&self) -> PakRowView {
        PakRowView {
            key: self.key@,
            selection: self.selection@,
            name: self.name@,
            full_path: self.full_path@,
            kind: self.kind,
            size: self.size,
            detail: self.detail@,
        }
    }
}

/// An entry's path as shown: backslashes turned into slashes.
pub open spec fn shown_path(item: PakItem) -> Seq<char> {
    replace_char(item.path@, '\\', '/')
}

/// How the inspector shows an entry timestamp.
pub open spec fn timestamp_shown(ts: PakTimestamp, text: Seq<char>) -> bool {
    match ts {
        PakTimestamp::Unset => text == "\u{2014}"@,
        PakTimestamp::PopCap(ticks) => is_filetime_text(ticks, text),
        PakTimestamp::ZipMsDos { date, time } => text == ms_dos_text(date, time),
    }
}

/// The detail column of an entry: a ZIP entry's compression, else its timestamp.
pub open spec fn detail_shown(item: PakItem, text: Seq<char>) -> bool {
    match item.zip_compression {
        Some(c) => text == spec_zip_compression_label(c),
        None => timestamp_shown(item.timestamp, text),
    }
}

/// Whether `r` is the row of entry `index`.
pub open spec fn shows_entry(r: PakRowView, items: Seq<PakItem>, index: int) -> bool {
    let item = items[index];
    &&& r.key == "e:"@ + decimal(index as nat)
    &&& r.selection == PakSelectionView::Entry(index as usize)
    &&& r.name == spec_file_name(shown_path(item))
    &&& r.full_path == shown_path(item)
    &&& r.kind == item.kind
    &&& r.size == item.size
    &&& detail_shown(item, r.detail)
}

/// The row of entry `index`.
pub fn entry_row(items: &Vec<PakItem>, index: usize) -> (r: PakRow)
    requires
        index < items@.len(),
    ensures
        shows_entry(r@, items@, index as int),
{
    let item = &items[index];
    let mut key: Vec<char> = Vec::new();
    push_str(&mut key, "e:");
    push_decimal(&mut key, index as u64);
    let path = chars_of(item.path.as_str());
    let full = replaced(&path, '\\', '/');
    let full_text = string_of_all(&full);
    let detail = match item.zip_compression {
        Some(c) => zip_compression_label(c).to_owned(),
        None => timestamp_label(item.timestamp),
    };
    let r = PakRow {
        key: string_of_all(&key),
        selection: PakSelection::Entry(index),
        name: file_name(full_text.as_str()),
        full_path: full_text,
        kind: item.kind,
        size: item.size,
        detail,
    };
    assert(r@.key =~= "e:"@ + decimal(index as nat));
    r
}

/// What the Type column and the folder-first rule read of a row.
pub open spec fn pak_order_view(r: PakRowView) -> RowOrderView {
    RowOrderView {
        directory: r.kind == PakEntryKind::Directory,
        name: r.name,
        type_label: spec_kind_label(r.kind),
        size: r.size,
        key: r.key,
    }
}

/// The parts of `row` that decide its place.
fn order_key(row: &PakRow) -> (k: RowOrderKey)
    ensures
        k@ == pak_order_view(row@),
{
    RowOrderKey {
        directory: row.kind == PakEntryKind::Directory,
        name: row.name.clone(),
        type_label: kind_label(row.kind).to_owned(),
        size: row.size,
        key: row.key.clone(),
    }
}

/// A copy of `row`.
fn copy_row(row: &PakRow) -> (r: PakRow)
    ensures
        r@ == row@,
{
    let selection = match &row.selection {
        PakSelection::Directory(p) => {
            let mut q: Vec<String> = Vec::new();
            let mut k: usize = 0;
            while k < p.len()
                invariant
                    k <= p@.len(),
                    q@.len() == k,
                    forall|j: int| 0 <= j < k ==> #[trigger] q@[j]@ == p@[j]@,
                decreases p@.len() - k,
            {
                q.push(p[k].clone());
                k = k + 1;
            }
            assert(views(q@) =~= views(p@));
            PakSelection::Directory(q)
        },
        PakSelection::Entry(i) => PakSelection::Entry(*i),
    };
    PakRow {
        key: row.key.clone(),
        selection,
        name: row.name.clone(),
        full_path: row.full_path.clone(),
        kind: row.kind,
        size: row.size,
        detail: row.detail.clone(),
    }
}

/// Where an entry shows in the listing of the directory `dir`.
pub enum PakPlace {
    /// Not beneath the directory.
    Outside,
    /// Beneath the named sub-folder; `true` when counted in its total (an
    /// entry deeper down), `false` for the folder's own directory entry.
    Folder(Seq<char>, bool),
    /// Directly inside the directory.
    File,
}

/// Where `item` shows in the listing of `dir`.
pub open spec fn pak_placement(item: PakItem, dir: Seq<Seq<char>>) -> PakPlace {
    let comps = spec_path_components(item.path@);
    if comps.len() <= dir.len() || comps.take(dir.len() as int) != dir {
        PakPlace::Outside
    } else if comps.len() > dir.len() + 1 {
        PakPlace::Folder(comps[dir.len() as int], true)
    } else if item.kind == PakEntryKind::Directory {
        PakPlace::Folder(comps[dir.len() as int], false)
    } else {
        PakPlace::File
    }
}

/// The name of the sub-folder `item` shows under, if any.
pub open spec fn folder_of(item: PakItem, dir: Seq<Seq<char>>) -> Option<Seq<char>> {
    match pak_placement(item, dir) {
        PakPlace::Folder(name, _) => Some(name),
        _ => None,
    }
}

/// The sub-folders of a listing, in the order their first entry comes.
pub open spec fn pak_folder_names(items: Seq<PakItem>, dir: Seq<Seq<char>>) -> Seq<Seq<char>>
    decreases items.len(),
{
    if items.len() == 0 {
        Seq::empty()
    } else {
        let prev = pak_folder_names(items.drop_last(), dir);
        match folder_of(items.last(), dir) {
            Some(f) => if prev.contains(f) {
                prev
            } else {
                prev.push(f)
            },
            None => prev,
        }
    }
}

/// How many entries deeper down the sub-folder `name` holds, and their bytes.
pub open spec fn pak_folder_total(items: Seq<PakItem>, dir: Seq<Seq<char>>, name: Seq<char>) -> (nat, int)
    decreases items.len(),
{
    if items.len() == 0 {
        (0, 0)
    } else {
        let prev = pak_folder_total(items.drop_last(), dir, name);
        if pak_placement(items.last(), dir) == PakPlace::Folder(name, true) {
            (prev.0 + 1, prev.1 + items.last().size)
        } else {
            prev
        }
    }
}

/// The sizes of all entries added up.
pub open spec fn total_size(items: Seq<PakItem>) -> int
    decreases items.len(),
{
    if items.len() == 0 {
        0
    } else {
        total_size(items.drop_last()) + items.last().size
    }
}

/// What a listing row stands for before it is built.
pub enum PakRowSource {
    Folder(Seq<char>),
    Entry(int),
}

/// The entries directly inside `dir`, by position.
pub open spec fn file_sources(items: Seq<PakItem>, dir: Seq<Seq<char>>) -> Seq<PakRowSource>
    decreases items.len(),
{
    if items.len() == 0 {
        Seq::empty()
    } else {
        let prev = file_sources(items.drop_last(), dir);
        if pak_placement(items.last(), dir) == PakPlace::File {
            prev.push(PakRowSource::Entry(items.len() - 1))
        } else {
            prev
        }
    }
}

/// The entries whose lower-case shown path holds `q`, by position.
pub open spec fn search_sources(items: Seq<PakItem>, q: Seq<char>) -> Seq<PakRowSource>
    decreases items.len(),
{
    if items.len() == 0 {
        Seq::empty()
    } else {
        let prev = search_sources(items.drop_last(), q);
        if has_infix(lower(shown_path(items.last())), q) {
            prev.push(PakRowSource::Entry(items.len() - 1))
        } else {
            prev
        }
    }
}

/// What the browser lists before ordering: with a search (the query trimmed
/// and lower-cased), every matching entry; otherwise the sub-folders of
/// `dir`, then its files.
pub open spec fn pak_listing(items: Seq<PakItem>, dir: Seq<Seq<char>>, query: Seq<char>) -> Seq<PakRowSource> {
    let q = lower(trim(query));
    if q.len() > 0 {
        search_sources(items, q)
    } else {
        pak_folder_names(items, dir).map_values(|n: Seq<char>| PakRowSource::Folder(n)) + file_sources(items, dir)
    }
}

/// Whether `r` is the row of the sub-folder `name` of `dir`.
pub open spec fn shows_folder(r: PakRowView, items: Seq<PakItem>, dir: Seq<Seq<char>>, name: Seq<char>) -> bool {
    let path = dir.push(name);
    let total = pak_folder_total(items, dir, name);
    &&& r.key == "d:"@ + join_with(path, '/')
    &&& r.selection == PakSelectionView::Directory(path)
    &&& r.name == name
    &&& r.full_path == join_with(path, '/')
    &&& r.kind == PakEntryKind::Directory
    &&& r.size == total.1
    &&& r.detail == decimal(total.0) + " 个条目"@
}

/// Whether `r` is the row `source` stands for.
pub open spec fn shows(r: PakRowView, source: PakRowSource, items: Seq<PakItem>, dir: Seq<Seq<char>>) -> bool {
    match source {
        PakRowSource::Folder(name) => shows_folder(r, items, dir, name),
        PakRowSource::Entry(i) => 0 <= i < items.len() && shows_entry(r, items, i),
    }
}

/// `pak_placement` computed: the folder name and whether it is counted, or
/// whether the entry is a file of the listing.
enum Placed {
    Outside,
    Folder(String, bool),
    File,
}

/// Where `item` shows in the listing of `dir`.
fn place_item(item: &PakItem, dir: &Vec<String>) -> (r: Placed)
    ensures
        match r {
            Placed::Outside => pak_placement(*item, views(dir@)) == PakPlace::Outside,
            Placed::Folder(n, c) => pak_placement(*item, views(dir@)) == PakPlace::Folder(n@, c),
            Placed::File => pak_placement(*item, views(dir@)) == PakPlace::File,
        },
{
    let comps = path_components(item.path.as_str());
    let ghost sc = spec_path_components(item.path@);
    let ghost d = views(dir@);
    assert(views(comps@).len() == comps@.len());
    if comps.len() <= dir.len() {
        return Placed::Outside;
    }
    let mut k: usize = 0;
    while k < dir.len()
        invariant
            k <= dir@.len(),
            dir@.len() < comps@.len(),
            views(comps@) == sc,
            sc == spec_path_components(item.path@),
            d == views(dir@),
            forall|j: int| 0 <= j < k ==> #[trigger] sc[j] == d[j],
        decreases dir@.len() - k,
    {
        let same = comps[k] == dir[k];
        if !same {
            assert(sc[k as int] == comps@[k as int]@);
            assert(d[k as int] == dir@[k as int]@);
            assert(d.len() == dir@.len());
            assert(sc.take(d.len() as int)[k as int] != d[k as int]);
            assert(sc.take(d.len() as int) != d);

            return Placed::Outside;
        }
        assert(sc[k as int] == comps@[k as int]@);
        assert(d[k as int] == dir@[k as int]@);
        k = k + 1;
    }
    assert(sc.take(dir@.len() as int) =~= d);
    let name = comps[dir.len()].clone();
    if comps.len() > dir.len() + 1 {
        Placed::Folder(name, true)
    } else if item.kind == PakEntryKind::Directory {
        Placed::Folder(name, false)
    } else {
        Placed::File
    }
}

/// The rows of the entries whose lower-case shown path holds `q`.
fn search_listing(items: &Vec<PakItem>, q: &Vec<char>, dir: Ghost<Seq<Seq<char>>>) -> (rows: Vec<PakRow>)
    ensures
        rows@.len() == search_sources(items@, q@).len(),
        forall|k: int| 0 <= k < rows@.len() ==> shows(#[trigger] rows@[k]@, search_sources(items@, q@)[k], items@, dir@),
{
    let mut rows: Vec<PakRow> = Vec::new();
    let mut i: usize = 0;
    while i < items.len()
        invariant
            i <= items@.len(),
            rows@.len() == search_sources(items@.take(i as int), q@).len(),
            forall|k: int|
                0 <= k < rows@.len() ==> shows(#[trigger] rows@[k]@, search_sources(items@.take(i as int), q@)[k], items@, dir@),
        decreases items@.len() - i,
    {
        let ghost s1 = items@.take(i + 1);
        assert(s1.drop_last() =~= items@.take(i as int));
        assert(s1.last() == items@[i as int]);
        let path = chars_of(items[i].path.as_str());
        let full = replaced(&path, '\\', '/');
        let lowered = lower_vec(&full);
        if contains_infix(&lowered, q) {
            let row = entry_row(items, i);
            rows.push(row);
        }
        i = i + 1;
    }
    assert(items@.take(items@.len() as int) =~= items@);
    rows
}

/// The entries before `i` hold no more bytes than all entries.
proof fn lemma_total_size_prefix(items: Seq<PakItem>, i: int)
    requires
        0 <= i <= items.len(),
    ensures
        total_size(items.take(i)) <= total_size(items),
        total_size(items) >= 0,
    decreases items.len(),
{
    if items.len() > 0 {
        if i < items.len() {
            assert(items.take(i) =~= items.drop_last().take(i));
            lemma_total_size_prefix(items.drop_last(), i);
        } else {
            assert(items.take(i) =~= items);
            lemma_total_size_prefix(items.drop_last(), 0);
        }
    } else {
        assert(items.take(i) =~= items);
    }
}

/// A folder holds no more bytes than the whole listing.
proof fn lemma_folder_bytes_bounded(items: Seq<PakItem>, dir: Seq<Seq<char>>, name: Seq<char>)
    ensures
        0 <= pak_folder_total(items, dir, name).1 <= total_size(items),
        pak_folder_total(items, dir, name).0 <= items.len(),
    decreases items.len(),
{
    if items.len() > 0 {
        lemma_folder_bytes_bounded(items.drop_last(), dir, name);
    }
}

/// A folder that no entry lies beneath counts nothing.
proof fn lemma_pak_folder_unseen(items: Seq<PakItem>, dir: Seq<Seq<char>>, name: Seq<char>)
    requires
        !pak_folder_names(items, dir).contains(name),
    ensures
        pak_folder_total(items, dir, name) == (0nat, 0int),
    decreases items.len(),
{
    if items.len() > 0 {
        let prev = pak_folder_names(items.drop_last(), dir);
        let names = pak_folder_names(items, dir);
        if folder_of(items.last(), dir) == Some(name) {
            if prev.contains(name) {
                assert(names == prev);
            } else {
                assert(names[names.len() - 1] == name);
            }
        }
        if prev.contains(name) {
            let k = choose|k: int| 0 <= k < prev.len() && prev[k] == name;
            assert(names[k] == name);
        }
        lemma_pak_folder_unseen(items.drop_last(), dir, name);
    }
}

/// Where `name` is in `names`.
fn find_string(names: &Vec<String>, name: &String) -> (r: Option<usize>)
    ensures
        r matches Some(j) ==> j < names@.len() && names@[j as int]@ == name@,
        r is None ==> forall|k: int| 0 <= k < names@.len() ==> names@[k]@ != name@,
{
    let mut k: usize = 0;
    while k < names.len()
        invariant
            k <= names@.len(),
            forall|j: int| 0 <= j < k ==> names@[j]@ != name@,
        decreases names@.len() - k,
    {
        if names[k] == *name {
            return Some(k);
        }
        k = k + 1;
    }
    None
}

/// The row of the sub-folder `name` of `dir`, from its tally.
fn folder_row(dir: &Vec<String>, name: &String, count: usize, bytes: u64) -> (r: PakRow)
    ensures
        ({
            let path = views(dir@).push(name@);
            &&& r@.key == "d:"@ + join_with(path, '/')
            &&& r@.selection == PakSelectionView::Directory(path)
            &&& r@.name == name@
            &&& r@.full_path == join_with(path, '/')
            &&& r@.kind == PakEntryKind::Directory
            &&& r@.size == bytes
            &&& r@.detail == decimal(count as nat) + " 个条目"@
        }),
{
    let mut path: Vec<String> = Vec::new();
    let mut k: usize = 0;
    while k < dir.len()
        invariant
            k <= dir@.len(),
            path@.len() == k,
            forall|j: int| 0 <= j < k ==> #[trigger] path@[j]@ == dir@[j]@,
        decreases dir@.len() - k,
    {
        path.push(dir[k].clone());
        k = k + 1;
    }
    path.push(name.clone());
    assert(views(path@) =~= views(dir@).push(name@));
    let joined = crate::text::join_parts(&path, '/');
    let mut key: Vec<char> = Vec::new();
    push_str(&mut key, "d:");
    push_str(&mut key, joined.as_str());
    let mut detail: Vec<char> = Vec::new();
    push_decimal(&mut detail, count as u64);
    push_str(&mut detail, " 个条目");
    PakRow {
        key: string_of_all(&key),
        selection: PakSelection::Directory(path),
        name: name.clone(),
        full_path: joined,
        kind: PakEntryKind::Directory,
        size: bytes,
        detail: string_of_all(&detail),
    }
}

/// Whether the running tally `t` holds the folder total `total`.
pub open spec fn tally_is(t: (usize, u64), total: (nat, int)) -> bool {
    t.0 == total.0 && t.1 == total.1
}

/// The listing of `dir`: its sub-folders, then the entries directly in it.
fn directory_listing(items: &Vec<PakItem>, dir: &Vec<String>) -> (rows: Vec<PakRow>)
    requires
        total_size(items@) <= u64::MAX,
    ensures
        ({
            let listing = pak_listing(items@, views(dir@), Seq::empty());
            let sources = pak_folder_names(items@, views(dir@)).map_values(|n: Seq<char>| PakRowSource::Folder(n))
                + file_sources(items@, views(dir@));
            &&& rows@.len() == sources.len()
            &&& forall|k: int| 0 <= k < rows@.len() ==> shows(#[trigger] rows@[k]@, sources[k], items@, views(dir@))
        }),
{
    let ghost d = views(dir@);
    let mut names: Vec<String> = Vec::new();
    let mut tallies: Vec<(usize, u64)> = Vec::new();
    let mut files: Vec<PakRow> = Vec::new();
    let mut i: usize = 0;
    while i < items.len()
        invariant
            i <= items@.len(),
            d == views(dir@),
            total_size(items@) <= u64::MAX,
            names@.len() == tallies@.len(),
            names@.len() == pak_folder_names(items@.take(i as int), d).len(),
            forall|k: int| 0 <= k < names@.len() ==> #[trigger] names@[k]@ == pak_folder_names(items@.take(i as int), d)[k],
            forall|k: int, l: int| 0 <= k < l < names@.len() ==> names@[k]@ != names@[l]@,
            forall|k: int|
                0 <= k < tallies@.len() ==> tally_is(#[trigger] tallies@[k], pak_folder_total(items@.take(i as int), d, names@[k]@)),
            files@.len() == file_sources(items@.take(i as int), d).len(),
            forall|k: int| 0 <= k < files@.len() ==> shows(#[trigger] files@[k]@, file_sources(items@.take(i as int), d)[k], items@, d),
        decreases items@.len() - i,
    {
        let ghost s0 = items@.take(i as int);
        let ghost s1 = items@.take(i + 1);
        assert(s1.drop_last() =~= s0);
        assert(s1.last() == items@[i as int]);
        let ghost old_names = pak_folder_names(s0, d);
        let ghost old_tallies = tallies@;
        let ghost old_exec_names = names@;
        proof {
            lemma_total_size_prefix(items@, i + 1);
        }
        match place_item(&items[i], dir) {
            Placed::Outside => {
                assert forall|k: int| 0 <= k < tallies@.len() implies tally_is(#[trigger] tallies@[k], pak_folder_total(s1, d, names@[k]@)) by {
                    assert(pak_folder_total(s1, d, names@[k]@) == pak_folder_total(s0, d, names@[k]@));
                }
            },
            Placed::File => {
                let row = entry_row(items, i);
                files.push(row);
                assert forall|k: int| 0 <= k < tallies@.len() implies tally_is(#[trigger] tallies@[k], pak_folder_total(s1, d, names@[k]@)) by {
                    assert(pak_folder_total(s1, d, names@[k]@) == pak_folder_total(s0, d, names@[k]@));
                }
            },
            Placed::Folder(name, counted) => {
                match find_string(&names, &name) {
                    Some(j) => {
                        assert(old_names[j as int] == name@);
                        assert(old_names.contains(name@));
                        assert(pak_folder_names(s1, d) == old_names);
                        if counted {
                            proof {
                                lemma_folder_bytes_bounded(s1, d, name@);
                                lemma_folder_bytes_bounded(s0, d, name@);
                            }
                            let (c, b) = tallies[j];
                            assert(pak_folder_total(s1, d, name@).1 == b + items@[i as int].size);
                            tallies.set(j, (c + 1, b + items[i].size));
                        }
                        assert forall|k: int| 0 <= k < tallies@.len() implies tally_is(#[trigger] tallies@[k], pak_folder_total(s1, d, names@[k]@)) by {
                            if k != j as int {
                                assert(names@[k]@ != name@);
                                assert(tallies@[k] == old_tallies[k]);
                                assert(pak_folder_total(s1, d, names@[k]@) == pak_folder_total(s0, d, names@[k]@));
                            }
                        }
                    },
                    None => {
                        assert(!old_names.contains(name@)) by {
                            if old_names.contains(name@) {
                                let k = choose|k: int| 0 <= k < old_names.len() && old_names[k] == name@;
                                assert(names@[k]@ == name@);
                            }
                        }
                        proof {
                            lemma_pak_folder_unseen(s0, d, name@);
                            lemma_folder_bytes_bounded(s1, d, name@);
                        }
                        assert(pak_folder_names(s1, d) == old_names.push(name@));
                        let t = if counted {
                            (1usize, items[i].size)
                        } else {
                            (0usize, 0u64)
                        };
                        names.push(name);
                        tallies.push(t);
                        assert forall|k: int| 0 <= k < tallies@.len() implies tally_is(#[trigger] tallies@[k], pak_folder_total(s1, d, names@[k]@)) by {
                            if k < old_tallies.len() {
                                assert(names@[k] == old_exec_names[k]);
                                assert(names@[k]@ != names@[old_tallies.len() as int]@);
                                assert(tallies@[k] == old_tallies[k]);
                                assert(pak_folder_total(s1, d, names@[k]@) == pak_folder_total(s0, d, names@[k]@));
                            }
                        }
                    },
                }
            },
        }
        i = i + 1;
    }
    assert(items@.take(items@.len() as int) =~= items@);
    let ghost folder_sources = pak_folder_names(items@, d).map_values(|n: Seq<char>| PakRowSource::Folder(n));
    let mut rows: Vec<PakRow> = Vec::new();
    let mut k: usize = 0;
    while k < names.len()
        invariant
            k <= names@.len(),
            d == views(dir@),
            names@.len() == tallies@.len(),
            names@.len() == pak_folder_names(items@, d).len(),
            folder_sources == pak_folder_names(items@, d).map_values(|n: Seq<char>| PakRowSource::Folder(n)),
            forall|j: int| 0 <= j < names@.len() ==> #[trigger] names@[j]@ == pak_folder_names(items@, d)[j],
            forall|j: int|
                0 <= j < tallies@.len() ==> tally_is(#[trigger] tallies@[j], pak_folder_total(items@, d, names@[j]@)),
            rows@.len() == k,
            forall|j: int| 0 <= j < k ==> shows(#[trigger] rows@[j]@, folder_sources[j], items@, d),
        decreases names@.len() - k,
    {
        let (c, b) = tallies[k];
        let row = folder_row(dir, &names[k], c, b);
        rows.push(row);
        k = k + 1;
    }
    let ghost nf = rows@.len();
    let mut m: usize = 0;
    while m < files.len()
        invariant
            m <= files@.len(),
            nf == folder_sources.len(),
            rows@.len() == nf + m,
            forall|j: int| 0 <= j < nf ==> shows(#[trigger] rows@[j]@, folder_sources[j], items@, d),
            forall|j: int| 0 <= j < m ==> #[trigger] rows@[nf + j]@ == files@[j]@,
        decreases files@.len() - m,
    {
        let row = copy_row(&files[m]);
        rows.push(row);
        m = m + 1;
    }
    let ghost sources = folder_sources + file_sources(items@, d);
    assert forall|j: int| 0 <= j < rows@.len() implies shows(#[trigger] rows@[j]@, sources[j], items@, d) by {
        if j >= nf {
            assert(rows@[nf + (j - nf)]@ == files@[j - nf]@);
        }
    }
    rows
}

/// The rows the browser shows, in order: `pak_listing` rearranged so that
/// every row comes no later than the rows after it under `sort`.
pub fn browser_rows(items: &Vec<PakItem>, dir: &Vec<String>, query: &str, sort: BrowserSort) -> (r: Vec<PakRow>)
    requires
        total_size(items@) <= u64::MAX,
    ensures
        ({
            let listing = pak_listing(items@, views(dir@), query@);
            &&& r@.len() == listing.len()
            &&& exists|order: Seq<usize>|
                is_permutation(order, listing.len()) && forall|k: int|
                    0 <= k < order.len() ==> shows(#[trigger] r@[k]@, listing[order[k] as int], items@, views(dir@))
            &&& forall|k: int, l: int|
                0 <= k < l < r@.len() ==> row_order(sort, pak_order_view(#[trigger] r@[k]@), pak_order_view(#[trigger] r@[l]@))
                    <= 0
        }),
{
    let ghost d = views(dir@);
    let qv = chars_of(query);
    let qt = trimmed(&qv, CharSet::Whitespace);
    let q = lower_vec(&qt);
    let ghost listing = pak_listing(items@, d, query@);
    let rows = if q.len() > 0 {
        search_listing(items, &q, Ghost(d))
    } else {
        directory_listing(items, dir)
    };
    assert(rows@.len() == listing.len());
    assert(forall|k: int| 0 <= k < rows@.len() ==> shows(#[trigger] rows@[k]@, listing[k], items@, d));
    let mut keys: Vec<RowOrderKey> = Vec::new();
    let mut k: usize = 0;
    while k < rows.len()
        invariant
            k <= rows@.len(),
            keys@.len() == k,
            forall|j: int| 0 <= j < k ==> #[trigger] keys@[j]@ == pak_order_view(rows@[j]@),
        decreases rows@.len() - k,
    {
        keys.push(order_key(&rows[k]));
        k = k + 1;
    }
    let order = browser_order(&keys, sort);
    let mut out: Vec<PakRow> = Vec::new();
    let mut m: usize = 0;
    while m < order.len()
        invariant
            m <= order@.len(),
            order@.len() == rows@.len(),
            is_permutation(order@, keys@.len()),
            keys@.len() == rows@.len(),
            out@.len() == m,
            forall|j: int| 0 <= j < m ==> #[trigger] out@[j]@ == rows@[order@[j] as int]@,
        decreases order@.len() - m,
    {
        let row = copy_row(&rows[order[m]]);
        out.push(row);
        m = m + 1;
    }
    assert forall|k: int| 0 <= k < order@.len() implies shows(#[trigger] out@[k]@, listing[order@[k] as int], items@, d) by {
        assert(shows(rows@[order@[k] as int]@, listing[order@[k] as int], items@, d));
    }
    assert forall|k: int, l: int|
        0 <= k < l < out@.len() implies row_order(sort, pak_order_view(#[trigger] out@[k]@), pak_order_view(#[trigger] out@[l]@))
        <= 0 by {
        assert(keys@[order@[k] as int]@ == pak_order_view(rows@[order@[k] as int]@));
        assert(keys@[order@[l] as int]@ == pak_order_view(rows@[order@[l] as int]@));
    }
    out
}


/// The data bytes of the archive's files and symlinks, directories left out.
pub open spec fn file_bytes(items: Seq<PakItem>) -> int
    decreases items.len(),
{
    if items.len() == 0 {
        0
    } else {
        file_bytes(items.drop_last()) + if items.last().kind == PakEntryKind::Directory {
            0
        } else {
            items.last().size as int
        }
    }
}

proof fn lemma_file_bytes_prefix(items: Seq<PakItem>, i: int)
    requires
        0 <= i <= items.len(),
    ensures
        file_bytes(items.take(i)) <= file_bytes(items),
    decreases items.len(),
{
    if i < items.len() {
        assert(items.drop_last().take(i) =~= items.take(i));
        lemma_file_bytes_prefix(items.drop_last(), i);
    } else {
        assert(items.take(i) =~= items);
    }
}

/// The raw size shown for an archive: the data of its files and symlinks.
pub fn archive_file_bytes(items: &Vec<PakItem>) -> (total: u64)
    requires
        file_bytes(items@) <= u64::MAX,
    ensures
        total == file_bytes(items@),
{
    let mut total: u64 = 0;
    let mut i: usize = 0;
    while i < items.len()
        invariant
            i <= items@.len(),
            total == file_bytes(items@.take(i as int)),
            file_bytes(items@) <= u64::MAX,
        decreases items@.len() - i,
    {
        assert(items@.take(i + 1).drop_last() =~= items@.take(i as int));
        proof {
            lemma_file_bytes_prefix(items@, i + 1);
        }
        match items[i].kind {
            PakEntryKind::Directory => {},
            _ => {
                total = total + items[i].size;
            },
        }
        i = i + 1;
    }
    assert(items@.take(i as int) =~= items@);
    total
}

/// `item` lies deeper beneath the sub-folder `name` of `dir`: its path runs
/// through the components of `dir`, then `name`, then at least one more.
pub open spec fn lies_beneath(item: PakItem, dir: Seq<Seq<char>>, name: Seq<char>) -> bool {
    let comps = spec_path_components(item.path@);
    &&& comps.len() > dir.len() + 1
    &&& comps.take(dir.len() as int) == dir
    &&& comps[dir.len() as int] == name
}

/// A folder's total of one entry: one entry and its bytes when the entry
/// lies deeper beneath the folder, nothing otherwise (the folder's own
/// directory entry included).
pub proof fn lemma_pak_folder_total_single(item: PakItem, dir: Seq<Seq<char>>, name: Seq<char>)
    ensures
        pak_folder_total(seq![item], dir, name) == (if lies_beneath(item, dir, name) {
            (1nat, item.size as int)
        } else {
            (0nat, 0int)
        }),
{
    let s = seq![item];
    assert(s.drop_last() =~= Seq::<PakItem>::empty());
    assert(s.last() == item);
    assert(pak_folder_total(s.drop_last(), dir, name) == (0nat, 0int));
    assert((pak_placement(item, dir) == PakPlace::Folder(name, true)) == lies_beneath(item, dir, name));
}

/// A folder's total over two runs of entries is the sum of its totals over
/// each: the entries beneath it are counted and their bytes added up, each
/// once, wherever they stand.
pub proof fn lemma_pak_folder_total_append(a: Seq<PakItem>, b: Seq<PakItem>, dir: Seq<Seq<char>>, name: Seq<char>)
    ensures
        pak_folder_total(a + b, dir, name) == (
            pak_folder_total(a, dir, name).0 + pak_folder_total(b, dir, name).0,
            pak_folder_total(a, dir, name).1 + pak_folder_total(b, dir, name).1,
        ),
    decreases b.len(),
{
    if b.len() == 0 {
        assert(a + b =~= a);
    } else {
        assert((a + b).drop_last() =~= a + b.drop_last());
        assert((a + b).last() == b.last());
        lemma_pak_folder_total_append(a, b.drop_last(), dir, name);
    }
}

} // verus!
