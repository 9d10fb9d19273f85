//! The DZip browser listing: the rows shown for a directory or a search,
//! folders summed up from the entries beneath them, in the chosen order.
use vstd::prelude::*;

use crate::browser::{
    browser_order, is_permutation, lemma_sorted_rows_follow_column, lex_order, row_order, BrowserSort, BrowserSortDirection,
    BrowserSortKey, RowOrderKey, RowOrderView,
};
use crate::dzip::archive::{compression_label, spec_compression_label, DraftEntry};
use crate::dzip::paths::{file_name, join_chars, spec_file_name, spec_join_path};
use crate::text::{
    chars_of, contains_infix, decimal, first_index, has_infix, has_prefix, lower, lower_vec, position_of,
    push_decimal, push_range, push_str, starts_with, string_of_all, trim, trim_set, trimmed, CharSet,
};

verus! {

/// What a browser row stands for.
#[derive(Clone, Debug, PartialEq, Eq)]
pub enum BrowserSelection {
    Directory(String),
    Entry(u64),
}

/// A `BrowserSelection` as plain values.
pub enum SelectionView {
    Directory(Seq<char>),
    Entry(u64),
}

impl View for BrowserSelection {
    type V = SelectionView;

    open spec fn view(&self) -> SelectionView {
        match self {
            BrowserSelection::Directory(p) => SelectionView::Directory(p@),
            BrowserSelection::Entry(id) => SelectionView::Entry(*id),
        }
    }
}

/// Folder or file.
#[derive(Clone, Copy, Debug, PartialEq, Eq, Structural)]
pub enum BrowserRowKind {
    Directory,
    File,
}

/// One row of the browser table.
#[derive(Clone, Debug, PartialEq, Eq)]
pub struct BrowserRow {
    pub key: String,
    pub selection: BrowserSelection,
    pub kind: BrowserRowKind,
    pub name: String,
    pub full_path: String,
    pub size: u64,
    pub packed_size: Option<u64>,
    pub compression: Option<crate::dzip::archive::Compression>,
    pub volume: Option<u16>,
    pub detail: String,
}

/// A `BrowserRow` as plain values.
pub struct BrowserRowView {
    pub key: Seq<char>,
    pub selection: SelectionView,
    pub kind: BrowserRowKind,
    pub name: Seq<char>,
    pub full_path: Seq<char>,
    pub size: u64,
    pub packed_size: Option<u64>,
    pub compression: Option<crate::dzip::archive::Compression>,
    pub volume: Option<u16>,
    pub detail: Seq<char>,
}

impl View for BrowserRow {
    type V = BrowserRowView;

    open spec fn view(&self) -> BrowserRowView {
        BrowserRowView {
            key: self.key@,
            selection: self.selection@,
            kind: self.kind,
            name: self.name@,
            full_path: self.full_path@,
            size: self.size,
            packed_size: self.packed_size,
            compression: self.compression,
            volume: self.volume,
            detail: self.detail@,
        }
    }
}

/// The row of a file entry.
pub open spec fn entry_row_view(e: DraftEntry) -> BrowserRowView {
    BrowserRowView {
        key: "e:"@ + decimal(e.id as nat),
        selection: SelectionView::Entry(e.id),
        kind: BrowserRowKind::File,
        name: spec_file_name(e.path@),
        full_path: e.path@,
        size: e.size,
        packed_size: e.packed_size,
        compression: Some(e.compression),
        volume: Some(e.volume),
        detail: spec_compression_label(e.compression) + " · Volume "@ + decimal(e.volume as nat),
    }
}

/// What the Type column shows for a row.
pub open spec fn type_label(r: BrowserRowView) -> Seq<char> {
    match r.compression {
        Some(c) => spec_compression_label(c),
        None => "目录"@,
    }
}

/// The parts of a row that decide its place.
pub open spec fn order_view(r: BrowserRowView) -> RowOrderView {
    RowOrderView {
        directory: r.kind == BrowserRowKind::Directory,
        name: r.name,
        type_label: type_label(r),
        size: r.size,
        key: r.key,
    }
}

/// The row of a file entry.
pub fn entry_row(entry: &DraftEntry) -> (r: BrowserRow)
    ensures
        r@ == entry_row_view(*entry),
{
    let mut key: Vec<char> = Vec::new();
    push_str(&mut key, "e:");
    push_decimal(&mut key, entry.id);
    let mut detail: Vec<char> = Vec::new();
    push_str(&mut detail, compression_label(entry.compression));
    push_str(&mut detail, " · Volume ");
    push_decimal(&mut detail, entry.volume as u64);
    let r = BrowserRow {
        key: string_of_all(&key),
        selection: BrowserSelection::Entry(entry.id),
        kind: BrowserRowKind::File,
        name: file_name(entry.path.as_str()),
        full_path: entry.path.clone(),
        size: entry.size,
        packed_size: entry.packed_size,
        compression: Some(entry.compression),
        volume: Some(entry.volume),
        detail: string_of_all(&detail),
    };
    assert(r@.key =~= entry_row_view(*entry).key);
    assert(r@.detail =~= entry_row_view(*entry).detail);
    r
}

/// A copy of `row`.
fn copy_row(row: &BrowserRow) -> (r: BrowserRow)
    ensures
        r@ == row@,
{
    let selection = match &row.selection {
        BrowserSelection::Directory(p) => BrowserSelection::Directory(p.clone()),
        BrowserSelection::Entry(id) => BrowserSelection::Entry(*id),
    };
    BrowserRow {
        key: row.key.clone(),
        selection,
        kind: row.kind,
        name: row.name.clone(),
        full_path: row.full_path.clone(),
        size: row.size,
        packed_size: row.packed_size,
        compression: row.compression,
        volume: row.volume,
        detail: row.detail.clone(),
    }
}

/// The parts of `row` that decide its place.
fn order_key(row: &BrowserRow) -> (k: RowOrderKey)
    ensures
        k@ == order_view(row@),
{
    let label = match row.compression {
        Some(c) => compression_label(c),
        None => "目录",
    };
    RowOrderKey {
        directory: row.kind == BrowserRowKind::Directory,
        name: row.name.clone(),
        type_label: label.to_owned(),
        size: row.size,
        key: row.key.clone(),
    }
}

/// Where an entry shows in the listing of a directory.
pub enum Placement {
    /// Not beneath the directory (or an empty name part).
    Outside,
    /// Beneath the named sub-folder.
    Folder(Seq<char>),
    /// Directly inside the directory.
    File,
}

/// What a path must start with to lie beneath the directory `d` (already
/// trimmed of slashes): nothing for the root, else `d/`.
pub open spec fn listing_prefix(d: Seq<char>) -> Seq<char> {
    if d.len() == 0 {
        Seq::empty()
    } else {
        d + "/"@
    }
}

/// Where the entry at `path` shows in the listing whose prefix is `prefix`.
pub open spec fn placement(path: Seq<char>, prefix: Seq<char>) -> Placement {
    let t = trim_set(path, CharSet::Slash);
    if !has_prefix(t, prefix) {
        Placement::Outside
    } else {
        let rel = t.skip(prefix.len() as int);
        let k = first_index(rel, '/');
        if k == 0 {
            Placement::Outside
        } else if k > 0 {
            Placement::Folder(rel.take(k))
        } else if rel.len() == 0 {
            Placement::Outside
        } else {
            Placement::File
        }
    }
}

/// The sub-folders of a listing, in the order their first entry comes.
pub open spec fn folder_names(entries: Seq<DraftEntry>, prefix: Seq<char>) -> Seq<Seq<char>>
    decreases entries.len(),
{
    if entries.len() == 0 {
        Seq::empty()
    } else {
        let prev = folder_names(entries.drop_last(), prefix);
        match placement(entries.last().path@, prefix) {
            Placement::Folder(f) => if prev.contains(f) {
                prev
            } else {
                prev.push(f)
            },
            _ => prev,
        }
    }
}

/// What a folder row sums up of the entries beneath it.
pub struct FolderTotal {
    pub count: nat,
    /// The sizes added up, saturating.
    pub size: u64,
    /// The packed sizes added up, saturating; unknown once one is unknown.
    pub packed: Option<u64>,
    /// The volume, while all entries share the first one's.
    pub volume: Option<u16>,
}

/// The total of no entries.
pub open spec fn no_total() -> FolderTotal {
    FolderTotal { count: 0, size: 0, packed: Some(0), volume: None }
}

/// `total` with the entry `e` added.
pub open spec fn add_to_total(total: FolderTotal, e: DraftEntry) -> FolderTotal {
    let volume = if total.count == 0 {
        Some(e.volume)
    } else {
        total.volume
    };
    FolderTotal {
        count: total.count + 1,
        size: total.size.saturating_add(e.size),
        packed: match (total.packed, e.packed_size) {
            (Some(t), Some(p)) => Some(t.saturating_add(p)),
            _ => None,
        },
        volume: if volume == Some(e.volume) {
            volume
        } else {
            None
        },
    }
}

/// The total of the entries beneath the sub-folder `f`.
pub open spec fn folder_total(entries: Seq<DraftEntry>, prefix: Seq<char>, f: Seq<char>) -> FolderTotal
    decreases entries.len(),
{
    if entries.len() == 0 {
        no_total()
    } else {
        let prev = folder_total(entries.drop_last(), prefix, f);
        if placement(entries.last().path@, prefix) == Placement::Folder(f) {
            add_to_total(prev, entries.last())
        } else {
            prev
        }
    }
}

/// The row of the sub-folder `name` of the directory `d`.
pub open spec fn folder_row_view(d: Seq<char>, name: Seq<char>, total: FolderTotal) -> BrowserRowView {
    let full = spec_join_path(d, name);
    BrowserRowView {
        key: "d:"@ + full,
        selection: SelectionView::Directory(full),
        kind: BrowserRowKind::Directory,
        name: name,
        full_path: full,
        size: total.size,
        packed_size: total.packed,
        compression: None,
        volume: total.volume,
        detail: decimal(total.count) + " 个文件"@,
    }
}

/// The folder rows of the listing of `d`.
pub open spec fn listed_folders(entries: Seq<DraftEntry>, d: Seq<char>) -> Seq<BrowserRowView> {
    let prefix = listing_prefix(d);
    let names = folder_names(entries, prefix);
    Seq::new(names.len(), |k: int| folder_row_view(d, names[k], folder_total(entries, prefix, names[k])))
}

/// The file rows of the listing whose prefix is `prefix`, in entry order.
pub open spec fn listed_files(entries: Seq<DraftEntry>, prefix: Seq<char>) -> Seq<BrowserRowView>
    decreases entries.len(),
{
    if entries.len() == 0 {
        Seq::empty()
    } else {
        let prev = listed_files(entries.drop_last(), prefix);
        if placement(entries.last().path@, prefix) == Placement::File {
            prev.push(entry_row_view(entries.last()))
        } else {
            prev
        }
    }
}

/// The rows of the entries whose lower-case path holds `q`, in entry order.
pub open spec fn search_rows(entries: Seq<DraftEntry>, q: Seq<char>) -> Seq<BrowserRowView>
    decreases entries.len(),
{
    if entries.len() == 0 {
        Seq::empty()
    } else {
        let prev = search_rows(entries.drop_last(), q);
        if has_infix(lower(entries.last().path@), q) {
            prev.push(entry_row_view(entries.last()))
        } else {
            prev
        }
    }
}

/// The rows the browser shows before ordering: with a search (the query
/// trimmed and lower-cased), every entry whose lower-case path holds it;
/// otherwise the sub-folders of `directory` and then its files.
pub open spec fn listing_rows(entries: Seq<DraftEntry>, directory: Seq<char>, query: Seq<char>) -> Seq<
    BrowserRowView,
> {
    let q = lower(trim(query));
    if q.len() > 0 {
        search_rows(entries, q)
    } else {
        let d = trim_set(directory, CharSet::Slash);
        listed_folders(entries, d) + listed_files(entries, listing_prefix(d))
    }
}

/// The views of a sequence of rows.
pub open spec fn row_views(rows: Seq<BrowserRow>) -> Seq<BrowserRowView> {
    rows.map_values(|r: BrowserRow| r@)
}

/// The rows of the entries whose lower-case path holds `q`.
fn search_listing(entries: &Vec<DraftEntry>, q: &Vec<char>) -> (rows: Vec<BrowserRow>)
    ensures
        row_views(rows@) == search_rows(entries@, q@),
{
    let mut rows: Vec<BrowserRow> = Vec::new();
    let mut i: usize = 0;
    while i < entries.len()
        invariant
            i <= entries@.len(),
            row_views(rows@) == search_rows(entries@.take(i as int), q@),
        decreases entries@.len() - i,
    {
        let ghost before = rows@;
        let path = chars_of(entries[i].path.as_str());
        let lowered = lower_vec(&path);
        assert(entries@.take(i + 1).drop_last() =~= entries@.take(i as int));
        assert(entries@.take(i + 1).last() == entries@[i as int]);
        if contains_infix(&lowered, q) {
            let row = entry_row(&entries[i]);
            rows.push(row);
            assert(row_views(rows@) =~= row_views(before).push(row@));
        }
        i = i + 1;
    }
    assert(entries@.take(entries@.len() as int) =~= entries@);
    rows
}

/// `placement` computed: where an entry shows in a listing.
enum Place {
    Outside,
    Folder(Vec<char>),
    File,
}

/// Where the entry at `path` shows in the listing whose prefix is `prefix`.
fn place_of(path: &str, prefix: &Vec<char>) -> (r: Place)
    ensures
        match r {
            Place::Outside => placement(path@, prefix@) == Placement::Outside,
            Place::Folder(f) => placement(path@, prefix@) == Placement::Folder(f@),
            Place::File => placement(path@, prefix@) == Placement::File,
        },
{
    let p = chars_of(path);
    let t = trimmed(&p, CharSet::Slash);
    if !starts_with(&t, prefix) {
        return Place::Outside;
    }
    let mut rel: Vec<char> = Vec::new();
    push_range(&mut rel, &t, prefix.len(), t.len());
    assert(rel@ =~= t@.skip(prefix@.len() as int));
    proof {
        crate::text::lemma_first_index(rel@, '/');
    }
    match position_of(&rel, '/') {
        Some(k) => {
            if k == 0 {
                Place::Outside
            } else {
                let mut f: Vec<char> = Vec::new();
                push_range(&mut f, &rel, 0, k);
                assert(f@ =~= rel@.take(k as int));
                Place::Folder(f)
            }
        },
        None => {
            if rel.len() == 0 {
                Place::Outside
            } else {
                Place::File
            }
        },
    }
}

/// A folder that no entry lies beneath has the empty total.
proof fn lemma_folder_total_unseen(entries: Seq<DraftEntry>, prefix: Seq<char>, f: Seq<char>)
    requires
        !folder_names(entries, prefix).contains(f),
    ensures
        folder_total(entries, prefix, f) == no_total(),
    decreases entries.len(),
{
    if entries.len() > 0 {
        let prev = folder_names(entries.drop_last(), prefix);
        let names = folder_names(entries, prefix);
        if placement(entries.last().path@, prefix) == Placement::Folder(f) {
            if prev.contains(f) {
                assert(names == prev);
            } else {
                assert(names == prev.push(f));
                assert(names[names.len() - 1] == f);
            }
        }
        if prev.contains(f) {
            let k = choose|k: int| 0 <= k < prev.len() && prev[k] == f;
            assert(names[k] == f);
        }
        lemma_folder_total_unseen(entries.drop_last(), prefix, f);
    }
}

/// Whether `names` holds `name`, and where.
fn find_name(names: &Vec<Vec<char>>, name: &Vec<char>) -> (r: Option<usize>)
    ensures
        r matches Some(j) ==> j < names@.len() && names@[j as int]@ == name@,
        r is None ==> forall|k: int| 0 <= k < names@.len() ==> names@[k]@ != name@,
{
    let mut k: usize = 0;
    while k < names.len()
        invariant
            k <= names@.len(),
            forall|j: int| 0 <= j < k ==> names@[j]@ != name@,
        decreases names@.len() - k,
    {
        let candidate = &names[k];
        assert(candidate@.subrange(0, candidate@.len() as int) =~= candidate@);
        if crate::text::range_equals(candidate, 0, candidate.len(), name) {
            return Some(k);
        }
        k = k + 1;
    }
    None
}

/// A running total as plain numbers: count, size, packed size, volume.
type Tally = (usize, u64, Option<u64>, Option<u16>);

/// Whether `t` holds `total`.
pub open spec fn tally_is(t: (usize, u64, Option<u64>, Option<u16>), total: FolderTotal) -> bool {
    t.0 == total.count && t.1 == total.size && t.2 == total.packed && t.3 == total.volume
}

/// `t` with the entry `e` added.
fn add_entry(t: Tally, e: &DraftEntry) -> (r: Tally)
    requires
        t.0 < usize::MAX,
    ensures
        r.0 == t.0 + 1,
        forall|total: FolderTotal| tally_is(t, total) ==> tally_is(r, add_to_total(total, *e)),
{
    let volume = if t.0 == 0 {
        Some(e.volume)
    } else {
        t.3
    };
    let packed = match (t.2, e.packed_size) {
        (Some(a), Some(b)) => Some(a.saturating_add(b)),
        _ => None,
    };
    let same = match volume {
        Some(v) => v == e.volume,
        None => false,
    };
    (t.0 + 1, t.1.saturating_add(e.size), packed, if same {
        volume
    } else {
        None
    })
}

/// The row of the sub-folder `name` of `d`.
fn folder_row(d: &Vec<char>, name: &Vec<char>, t: Tally) -> (r: BrowserRow)
    ensures
        forall|total: FolderTotal| tally_is(t, total) ==> r@ == folder_row_view(d@, name@, total),
{
    let full = join_chars(d, name);
    let mut key: Vec<char> = Vec::new();
    push_str(&mut key, "d:");
    push_range(&mut key, &full, 0, full.len());
    let mut detail: Vec<char> = Vec::new();
    push_decimal(&mut detail, t.0 as u64);
    push_str(&mut detail, " 个文件");
    assert(full@.subrange(0, full@.len() as int) =~= full@);
    assert(key@ =~= "d:"@ + full@);
    BrowserRow {
        key: string_of_all(&key),
        selection: BrowserSelection::Directory(string_of_all(&full)),
        kind: BrowserRowKind::Directory,
        name: string_of_all(name),
        full_path: string_of_all(&full),
        size: t.1,
        packed_size: t.2,
        compression: None,
        volume: t.3,
        detail: string_of_all(&detail),
    }
}

/// The listing of the directory `d` (trimmed of slashes): its sub-folders,
/// then its files.
fn directory_listing(entries: &Vec<DraftEntry>, d: &Vec<char>) -> (rows: Vec<BrowserRow>)
    ensures
        row_views(rows@) == listed_folders(entries@, d@) + listed_files(entries@, listing_prefix(d@)),
{
    let mut prefix: Vec<char> = Vec::new();
    if d.len() > 0 {
        push_range(&mut prefix, d, 0, d.len());
        prefix.push('/');
        proof {
            reveal_strlit("/");
        }
        assert(d@.subrange(0, d@.len() as int) =~= d@);
    }
    assert(prefix@ =~= listing_prefix(d@));
    let ghost pre = prefix@;
    let mut names: Vec<Vec<char>> = Vec::new();
    let mut tallies: Vec<Tally> = Vec::new();
    let mut files: Vec<BrowserRow> = Vec::new();
    let mut i: usize = 0;
    while i < entries.len()
        invariant
            i <= entries@.len(),
            pre == prefix@,
            pre == listing_prefix(d@),
            names@.len() == tallies@.len(),
            names@.len() == folder_names(entries@.take(i as int), pre).len(),
            forall|k: int| 0 <= k < names@.len() ==> #[trigger] names@[k]@ == folder_names(entries@.take(i as int), pre)[k],
            forall|k: int, l: int| 0 <= k < l < names@.len() ==> names@[k]@ != names@[l]@,
            forall|k: int|
                0 <= k < tallies@.len() ==> tally_is(
                    #[trigger] tallies@[k],
                    folder_total(entries@.take(i as int), pre, names@[k]@),
                ),
            forall|k: int| 0 <= k < tallies@.len() ==> #[trigger] tallies@[k].0 <= i,
            row_views(files@) == listed_files(entries@.take(i as int), pre),
        decreases entries@.len() - i,
    {
        let ghost s0 = entries@.take(i as int);
        let ghost s1 = entries@.take(i + 1);
        assert(s1.drop_last() =~= s0);
        assert(s1.last() == entries@[i as int]);
        let ghost old_names = folder_names(s0, pre);
        let ghost before_files = files@;
        let ghost old_tallies = tallies@;
        let ghost old_exec_names = names@;
        let e = &entries[i];
        match place_of(e.path.as_str(), &prefix) {
            Place::Outside => {
                assert forall|k: int| 0 <= k < tallies@.len() implies tally_is(
                    #[trigger] tallies@[k],
                    folder_total(s1, pre, names@[k]@),
                ) by {
                    assert(folder_total(s1, pre, names@[k]@) == folder_total(s0, pre, names@[k]@));
                }
            },
            Place::File => {
                let row = entry_row(e);
                files.push(row);
                assert(row_views(files@) =~= row_views(before_files).push(row@));
                assert forall|k: int| 0 <= k < tallies@.len() implies tally_is(
                    #[trigger] tallies@[k],
                    folder_total(s1, pre, names@[k]@),
                ) by {
                    assert(folder_total(s1, pre, names@[k]@) == folder_total(s0, pre, names@[k]@));
                }
            },
            Place::Folder(f) => {
                match find_name(&names, &f) {
                    Some(j) => {
                        assert(old_names[j as int] == f@);
                        assert(old_names.contains(f@));
                        let t = tallies[j];
                        let t2 = add_entry(t, e);
                        assert(tally_is(t2, add_to_total(folder_total(s0, pre, f@), entries@[i as int])));
                        tallies.set(j, t2);
                        assert(folder_names(s1, pre) == old_names);
                        assert forall|k: int| 0 <= k < tallies@.len() implies tally_is(
                            #[trigger] tallies@[k],
                            folder_total(s1, pre, names@[k]@),
                        ) by {
                            if k == j as int {
                                assert(folder_total(s1, pre, f@) == add_to_total(folder_total(s0, pre, f@), entries@[i as int]));
                            } else {
                                assert(names@[k]@ != f@);
                                assert(tallies@[k] == old_tallies[k]);
                                assert(folder_total(s1, pre, names@[k]@) == folder_total(s0, pre, names@[k]@));
                            }
                        }
                    },
                    None => {
                        assert(!old_names.contains(f@)) by {
                            if old_names.contains(f@) {
                                let k = choose|k: int| 0 <= k < old_names.len() && old_names[k] == f@;
                                assert(names@[k]@ == f@);
                            }
                        }
                        proof {
                            lemma_folder_total_unseen(s0, pre, f@);
                        }
                        let t2 = add_entry((0, 0, Some(0), None), e);
                        assert(tally_is((0, 0, Some(0), None), no_total()));
                        assert(tally_is(t2, add_to_total(no_total(), entries@[i as int])));
                        assert(folder_names(s1, pre) == old_names.push(f@));
                        names.push(f);
                        tallies.push(t2);
                        assert forall|k: int| 0 <= k < tallies@.len() implies tally_is(
                            #[trigger] tallies@[k],
                            folder_total(s1, pre, names@[k]@),
                        ) by {
                            if k == old_tallies.len() {
                                assert(folder_total(s1, pre, f@) == add_to_total(no_total(), entries@[i as int]));
                            } else {
                                assert(names@[k] == old_exec_names[k]);
                                assert(names@[k]@ != f@);
                                assert(tallies@[k] == old_tallies[k]);
                                assert(folder_total(s1, pre, names@[k]@) == folder_total(s0, pre, names@[k]@));
                            }
                        }
                    },
                }
            },
        }
        i = i + 1;
    }
    assert(entries@.take(entries@.len() as int) =~= entries@);
    let ghost all_names = folder_names(entries@, pre);
    let mut rows: Vec<BrowserRow> = Vec::new();
    let mut k: usize = 0;
    while k < names.len()
        invariant
            k <= names@.len(),
            names@.len() == tallies@.len(),
            names@.len() == all_names.len(),
            all_names == folder_names(entries@, pre),
            pre == listing_prefix(d@),
            forall|j: int| 0 <= j < names@.len() ==> #[trigger] names@[j]@ == all_names[j],
            forall|j: int|
                0 <= j < tallies@.len() ==> tally_is(#[trigger] tallies@[j], folder_total(entries@, pre, names@[j]@)),
            rows@.len() == k,
            forall|j: int| 0 <= j < k ==> #[trigger] rows@[j]@ == listed_folders(entries@, d@)[j],
        decreases names@.len() - k,
    {
        let row = folder_row(d, &names[k], tallies[k]);
        rows.push(row);
        k = k + 1;
    }
    assert(row_views(rows@) =~= listed_folders(entries@, d@));
    let ghost folder_views = row_views(rows@);
    let mut m: usize = 0;
    while m < files.len()
        invariant
            m <= files@.len(),
            rows@.len() == folder_views.len() + m,
            forall|j: int| 0 <= j < folder_views.len() ==> #[trigger] rows@[j]@ == folder_views[j],
            forall|j: int| 0 <= j < m ==> #[trigger] rows@[folder_views.len() + j]@ == files@[j]@,
        decreases files@.len() - m,
    {
        let row = copy_row(&files[m]);
        rows.push(row);
        m = m + 1;
    }
    assert forall|j: int| 0 <= j < rows@.len() implies row_views(rows@)[j] == (folder_views + row_views(files@))[j] by {
        if j >= folder_views.len() {
            assert(rows@[folder_views.len() + (j - folder_views.len())]@ == files@[j - folder_views.len()]@);
        }
    }
    assert(row_views(rows@) =~= folder_views + row_views(files@));
    rows
}

/// The rows the browser shows, in order: `listing_rows` rearranged so that
/// every row comes no later than the rows after it under `sort`.
pub fn browser_rows(entries: &Vec<DraftEntry>, directory: &str, query: &str, sort: BrowserSort) -> (r: Vec<
    BrowserRow,
>)
    ensures
        ({
            let listed = listing_rows(entries@, directory@, query@);
            &&& r@.len() == listed.len()
            &&& exists|order: Seq<usize>|
                is_permutation(order, listed.len()) && forall|k: int|
                    0 <= k < order.len() ==> #[trigger] r@[k]@ == listed[order[k] as int]
            &&& forall|k: int, l: int|
                0 <= k < l < r@.len() ==> row_order(sort, order_view(#[trigger] r@[k]@), order_view(#[trigger] r@[l]@))
                    <= 0
        }),
{
    let qv = chars_of(query);
    let qt = trimmed(&qv, CharSet::Whitespace);
    let q = lower_vec(&qt);
    let rows = if q.len() > 0 {
        search_listing(entries, &q)
    } else {
        let dv = chars_of(directory);
        let d = trimmed(&dv, CharSet::Slash);
        directory_listing(entries, &d)
    };
    let ghost listed = listing_rows(entries@, directory@, query@);
    assert(row_views(rows@) == listed);
    let mut keys: Vec<RowOrderKey> = Vec::new();
    let mut k: usize = 0;
    while k < rows.len()
        invariant
            k <= rows@.len(),
            keys@.len() == k,
            forall|j: int| 0 <= j < k ==> #[trigger] keys@[j]@ == order_view(rows@[j]@),
        decreases rows@.len() - k,
    {
        keys.push(order_key(&rows[k]));
        k = k + 1;
    }
    let order = browser_order(&keys, sort);
    let mut out: Vec<BrowserRow> = Vec::new();
    let mut m: usize = 0;
    while m < order.len()
        invariant
            m <= order@.len(),
            order@.len() == rows@.len(),
            is_permutation(order@, keys@.len()),
            keys@.len() == rows@.len(),
            out@.len() == m,
            forall|j: int| 0 <= j < m ==> #[trigger] out@[j]@ == rows@[order@[j] as int]@,
        decreases order@.len() - m,
    {
        let row = copy_row(&rows[order[m]]);
        out.push(row);
        m = m + 1;
    }
    assert forall|k: int| 0 <= k < order@.len() implies #[trigger] out@[k]@ == listed[order@[k] as int] by {
        assert(row_views(rows@)[order@[k] as int] == rows@[order@[k] as int]@);
    }
    assert forall|k: int, l: int|
        0 <= k < l < out@.len() implies row_order(sort, order_view(#[trigger] out@[k]@), order_view(#[trigger] out@[l]@))
        <= 0 by {
        assert(keys@[order@[k] as int]@ == order_view(rows@[order@[k] as int]@));
        assert(keys@[order@[l] as int]@ == order_view(rows@[order@[l] as int]@));
    }
    out
}

/// A folder's packed size is unknown as soon as one entry beneath it has an
/// unknown packed size (one imported since the archive was opened, say):
/// the total cannot be known before the archive is rebuilt.
pub proof fn lemma_folder_packed_unknown(entries: Seq<DraftEntry>, prefix: Seq<char>, f: Seq<char>, i: int)
    requires
        0 <= i < entries.len(),
        placement(entries[i].path@, prefix) == Placement::Folder(f),
        entries[i].packed_size is None,
    ensures
        folder_total(entries, prefix, f).packed is None,
    decreases entries.len(),
{
    if i < entries.len() - 1 {
        lemma_folder_packed_unknown(entries.drop_last(), prefix, f, i);
    }
}

/// A folder row of a listing shows no packed size when some entry beneath
/// that folder has an unknown packed size.
pub proof fn lemma_listed_folder_packed_unknown(entries: Seq<DraftEntry>, d: Seq<char>, k: int, i: int)
    requires
        0 <= k < listed_folders(entries, d).len(),
        0 <= i < entries.len(),
        placement(entries[i].path@, listing_prefix(d)) == Placement::Folder(listed_folders(entries, d)[k].name),
        entries[i].packed_size is None,
    ensures
        listed_folders(entries, d)[k].packed_size is None,
{
    let prefix = listing_prefix(d);
    let name = folder_names(entries, prefix)[k];
    lemma_folder_packed_unknown(entries, prefix, name, i);
}

/// Sorted by type, browser rows of the same kind follow their Type labels:
/// of two files (or two folders) whose labels differ ignoring ASCII case,
/// the one whose label comes first is listed first (last when descending),
/// whatever their names.
pub proof fn lemma_rows_follow_type_labels(sort: BrowserSort, r: Seq<BrowserRowView>)
    requires
        sort.key == BrowserSortKey::Type,
        forall|k: int, l: int|
            0 <= k < l < r.len() ==> row_order(sort, order_view(#[trigger] r[k]), order_view(#[trigger] r[l])) <= 0,
    ensures
        forall|k: int, l: int|
            0 <= k < l < r.len() && (#[trigger] r[k]).kind == (#[trigger] r[l]).kind && lower(type_label(r[k]))
                != lower(type_label(r[l])) ==> if sort.direction == BrowserSortDirection::Ascending {
                lex_order(lower(type_label(r[k])), lower(type_label(r[l]))) < 0
            } else {
                lex_order(lower(type_label(r[k])), lower(type_label(r[l]))) > 0
            },
{
    let views = Seq::new(r.len(), |k: int| order_view(r[k]));
    assert forall|k: int, l: int| 0 <= k < l < views.len() implies row_order(sort, #[trigger] views[k], #[trigger] views[l]) <= 0 by {
        assert(views[k] == order_view(r[k]) && views[l] == order_view(r[l]));
    }
    lemma_sorted_rows_follow_column(sort, views);
    assert forall|k: int, l: int|
        0 <= k < l < r.len() && (#[trigger] r[k]).kind == (#[trigger] r[l]).kind && lower(type_label(r[k]))
            != lower(type_label(r[l])) implies if sort.direction == BrowserSortDirection::Ascending {
        lex_order(lower(type_label(r[k])), lower(type_label(r[l]))) < 0
    } else {
        lex_order(lower(type_label(r[k])), lower(type_label(r[l]))) > 0
    } by {
        assert(views[k] == order_view(r[k]) && views[l] == order_view(r[l]));
    }
}

} // verus!
