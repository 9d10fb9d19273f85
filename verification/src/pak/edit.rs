//! What the PAK workspace's edits do to an archive, planned as plain
//! values: the new paths of renamed entries, the entries a deletion removes,
//! the path of a new folder, and which workspace opens an entry.
use vstd::prelude::*;

use crate::dzip::paths::{file_name, path_components, spec_file_name, spec_path_components};
use crate::pak::browser::{PakItem, PakSelection, PakSelectionView};
use crate::pak::model::{PakEntryKind, PakFormat};
use crate::text::{
    after_last, chars_of, contains_any, holds_any, join_with, lower, lower_vec, push_str, string_of_all, trim,
    trimmed, views, CharSet,
};

verus! {

/// Whether the entry's path components start with `dir`: the entry lies in
/// the folder `dir` or is that folder.
pub open spec fn covers(item: PakItem, dir: Seq<Seq<char>>) -> bool {
    let comps = spec_path_components(item.path@);
    comps.len() >= dir.len() && comps.take(dir.len() as int) == dir
}

/// Whether `item`'s path components start with `dir`.
fn starts_with_components(item: &PakItem, dir: &Vec<String>) -> (r: bool)
    ensures
        r == covers(*item, views(dir@)),
{
    let comps = path_components(item.path.as_str());
    let ghost sc = spec_path_components(item.path@);
    let ghost d = views(dir@);
    assert(sc.len() == comps@.len());
    if comps.len() < dir.len() {
        return false;
    }
    let mut k: usize = 0;
    while k < dir.len()
        invariant
            k <= dir@.len(),
            dir@.len() <= comps@.len(),
            views(comps@) == sc,
            sc == spec_path_components(item.path@),
            d == views(dir@),
            forall|j: int| 0 <= j < k ==> #[trigger] sc[j] == d[j],
        decreases dir@.len() - k,
    {
        let same = comps[k] == dir[k];
        assert(sc[k as int] == comps@[k as int]@);
        assert(d[k as int] == dir@[k as int]@);
        if !same {
            assert(sc.take(d.len() as int)[k as int] != d[k as int]);
            return false;
        }
        k = k + 1;
    }
    assert(sc.take(d.len() as int) =~= d);
    true
}

/// The positions of the entries a folder selection covers, in order.
pub fn indices_for_directory(items: &Vec<PakItem>, directory: &Vec<String>) -> (r: Vec<usize>)
    ensures
        forall|k: int| 0 <= k < r@.len() ==> #[trigger] r@[k] < items@.len() && covers(items@[r@[k] as int], views(directory@)),
        forall|k: int, l: int| 0 <= k < l < r@.len() ==> r@[k] < r@[l],
        forall|i: int| 0 <= i < items@.len() && covers(#[trigger] items@[i], views(directory@)) ==> r@.contains(i as usize),
{
    let mut r: Vec<usize> = Vec::new();
    let mut i: usize = 0;
    while i < items.len()
        invariant
            i <= items@.len(),
            forall|k: int| 0 <= k < r@.len() ==> #[trigger] r@[k] < i && covers(items@[r@[k] as int], views(directory@)),
            forall|k: int, l: int| 0 <= k < l < r@.len() ==> r@[k] < r@[l],
            forall|x: int| 0 <= x < i && covers(#[trigger] items@[x], views(directory@)) ==> r@.contains(x as usize),
        decreases items@.len() - i,
    {
        if starts_with_components(&items[i], directory) {
            let ghost before = r@;
            r.push(i);
            assert(r@[before.len() as int] == i);
            assert forall|x: int| 0 <= x < i && covers(#[trigger] items@[x], views(directory@)) implies r@.contains(x as usize) by {
                let w = choose|w: int| 0 <= w < before.len() && before[w] == x as usize;
                assert(r@[w] == x as usize);
            }
        }
        i = i + 1;
    }
    r
}

/// How many entries are not folders.
pub open spec fn spec_file_count(items: Seq<PakItem>) -> nat
    decreases items.len(),
{
    if items.len() == 0 {
        0
    } else {
        spec_file_count(items.drop_last()) + if items.last().kind != PakEntryKind::Directory {
            1nat
        } else {
            0nat
        }
    }
}

/// How many entries are not folders.
pub fn file_count(items: &Vec<PakItem>) -> (n: usize)
    ensures
        n == spec_file_count(items@),
{
    let mut n: usize = 0;
    let mut i: usize = 0;
    while i < items.len()
        invariant
            i <= items@.len(),
            n == spec_file_count(items@.take(i as int)),
            n <= i,
        decreases items@.len() - i,
    {
        assert(items@.take(i + 1).drop_last() =~= items@.take(i as int));
        if items[i].kind != PakEntryKind::Directory {
            n = n + 1;
        }
        i = i + 1;
    }
    assert(items@.take(items@.len() as int) =~= items@);
    n
}

/// A folder path as shown: its components joined with `/`.
pub fn archive_path_label(path: &Vec<String>) -> (s: String)
    ensures
        s@ == join_with(views(path@), '/'),
{
    crate::text::join_parts(path, '/')
}

/// The name of a folder: its last component, or the root's name.
pub fn directory_name(path: &Vec<String>) -> (s: String)
    ensures
        path@.len() > 0 ==> s@ == path@.last()@,
        path@.len() == 0 ==> s@ == "根目录"@,
{
    if path.len() > 0 {
        path[path.len() - 1].clone()
    } else {
        "根目录".to_owned()
    }
}

/// The path of `name` inside the folder `directory`.
pub open spec fn spec_pak_join(directory: Seq<Seq<char>>, name: Seq<char>) -> Seq<char> {
    if directory.len() == 0 {
        name
    } else {
        join_with(directory, '/') + "/"@ + name
    }
}

/// The path of `name` inside the folder `directory`.
pub fn join_path(directory: &Vec<String>, name: &str) -> (s: String)
    ensures
        s@ == spec_pak_join(views(directory@), name@),
{
    if directory.len() == 0 {
        name.to_owned()
    } else {
        let joined = crate::text::join_parts(directory, '/');
        let mut v = chars_of(joined.as_str());
        push_str(&mut v, "/");
        push_str(&mut v, name);
        proof {
            assert(v@ =~= joined@ + "/"@ + name@);
        }
        string_of_all(&v)
    }
}

/// Why an edit was refused.
#[derive(Clone, Copy, Debug, PartialEq, Eq, Structural)]
pub enum PakEditError {
    /// The name is empty once trimmed, or holds a path separator.
    InvalidName,
    /// The selected entry does not exist.
    MissingEntry,
    /// The selected entry has an empty path.
    EmptyPath,
    /// The root folder cannot be renamed.
    RootRename,
    /// Flat archives cannot hold empty folders.
    FlatFolder,
}

/// Whether `value` can name a file or folder: something is left once it is
/// trimmed, and no separator.
pub open spec fn valid_name(value: Seq<char>) -> bool {
    trim(value).len() > 0 && !holds_any(trim(value), CharSet::Separators)
}

/// `value` trimmed, when it can name a file or folder.
fn checked_name(value: &str) -> (r: Option<Vec<char>>)
    ensures
        r matches Some(n) ==> valid_name(value@) && n@ == trim(value@),
        r is None ==> !valid_name(value@),
{
    let raw = chars_of(value);
    let name = trimmed(&raw, CharSet::Whitespace);
    if name.len() == 0 || contains_any(&name, CharSet::Separators) {
        None
    } else {
        Some(name)
    }
}

/// The path of a new folder `value` inside `directory`; only TV ZIP
/// archives can hold an empty folder.
pub fn new_folder_path(directory: &Vec<String>, value: &str, format: PakFormat) -> (r: Result<String, PakEditError>)
    ensures
        !valid_name(value@) ==> r == Err::<String, PakEditError>(PakEditError::InvalidName),
        valid_name(value@) && format is Flat ==> r == Err::<String, PakEditError>(PakEditError::FlatFolder),
        valid_name(value@) && format is TvZip ==> (r matches Ok(p) && p@ == spec_pak_join(views(directory@), trim(value@))),
{
    let name = match checked_name(value) {
        Some(n) => string_of_all(&n),
        None => {
            return Err(PakEditError::InvalidName);
        },
    };
    match format {
        PakFormat::TvZip { .. } => Ok(join_path(directory, name.as_str())),
        PakFormat::Flat { .. } => Err(PakEditError::FlatFolder),
    }
}

/// A path from components, with a trailing `/` for a folder entry.
pub open spec fn entry_path_text(components: Seq<Seq<char>>, kind: PakEntryKind) -> Seq<char> {
    if kind == PakEntryKind::Directory {
        join_with(components, '/') + "/"@
    } else {
        join_with(components, '/')
    }
}

/// The components joined with `/`, and a trailing `/` for a folder entry.
fn entry_path_string(components: &Vec<String>, kind: PakEntryKind) -> (s: String)
    ensures
        s@ == entry_path_text(views(components@), kind),
{
    let joined = crate::text::join_parts(components, '/');
    if kind == PakEntryKind::Directory {
        let mut v = chars_of(joined.as_str());
        push_str(&mut v, "/");
        string_of_all(&v)
    } else {
        joined
    }
}

/// The path an entry gets when the component at `pos` becomes `value`.
pub open spec fn renamed_path(item: PakItem, pos: int, value: Seq<char>) -> Seq<char> {
    entry_path_text(spec_path_components(item.path@).update(pos, value), item.kind)
}

/// Whether `edit` renames an entry before `bound` that the folder `dir`
/// covers, giving `value` at the folder's depth.
pub open spec fn folder_edit(edit: (usize, String), items: Seq<PakItem>, dir: Seq<Seq<char>>, value: Seq<char>, bound: int) -> bool {
    &&& edit.0 < bound
    &&& covers(items[edit.0 as int], dir)
    &&& edit.1@ == renamed_path(items[edit.0 as int], dir.len() - 1, value)
}

/// The renames that renaming `target` to `value` (trimmed) takes: for an
/// entry, its last component; for a folder, that component in every entry
/// it covers. Each rename is a position and the new path.
pub fn rename_plan(items: &Vec<PakItem>, target: &PakSelection, value: &str) -> (r: Result<Vec<(usize, String)>, PakEditError>)
    ensures
        !valid_name(value@) ==> r == Err::<Vec<(usize, String)>, PakEditError>(PakEditError::InvalidName),
        valid_name(value@) ==> match target@ {
            PakSelectionView::Entry(index) => {
                &&& index >= items@.len() ==> r == Err::<Vec<(usize, String)>, PakEditError>(PakEditError::MissingEntry)
                &&& index < items@.len() && spec_path_components(items@[index as int].path@).len() == 0 ==> r
                    == Err::<Vec<(usize, String)>, PakEditError>(PakEditError::EmptyPath)
                &&& index < items@.len() && spec_path_components(items@[index as int].path@).len() > 0 ==> (r matches Ok(
                    edits,
                ) && edits@.len() == 1 && edits@[0].0 == index && edits@[0].1@ == renamed_path(
                    items@[index as int],
                    spec_path_components(items@[index as int].path@).len() - 1,
                    trim(value@),
                ))
            },
            PakSelectionView::Directory(dir) => {
                &&& dir.len() == 0 ==> r == Err::<Vec<(usize, String)>, PakEditError>(PakEditError::RootRename)
                &&& dir.len() > 0 ==> (r matches Ok(edits) && (forall|k: int|
                    0 <= k < edits@.len() ==> folder_edit(#[trigger] edits@[k], items@, dir, trim(value@), items@.len() as int))
                    && (forall|k: int, l: int| 0 <= k < l < edits@.len() ==> edits@[k].0 < edits@[l].0) && (forall|i: int|
                    0 <= i < items@.len() && covers(#[trigger] items@[i], dir) ==> exists|k: int|
                        0 <= k < edits@.len() && edits@[k].0 == i))
            },
        },
{
    let name = match checked_name(value) {
        Some(n) => string_of_all(&n),
        None => {
            return Err(PakEditError::InvalidName);
        },
    };
    match target {
        PakSelection::Entry(index) => {
            if *index >= items.len() {
                return Err(PakEditError::MissingEntry);
            }
            let item = &items[*index];
            let mut comps = path_components(item.path.as_str());
            assert(views(comps@).len() == comps@.len());
            if comps.len() == 0 {
                return Err(PakEditError::EmptyPath);
            }
            let last = comps.len() - 1;
            let ghost before = views(comps@);
            comps.set(last, name);
            assert(views(comps@) =~= before.update(last as int, trim(value@)));
            let path = entry_path_string(&comps, item.kind);
            let mut edits: Vec<(usize, String)> = Vec::new();
            edits.push((*index, path));
            Ok(edits)
        },
        PakSelection::Directory(dir) => {
            if dir.len() == 0 {
                return Err(PakEditError::RootRename);
            }
            let pos = dir.len() - 1;
            let mut edits: Vec<(usize, String)> = Vec::new();
            let mut i: usize = 0;
            while i < items.len()
                invariant
                    i <= items@.len(),
                    dir@.len() > 0,
                    pos == dir@.len() - 1,
                    name@ == trim(value@),
                    forall|k: int| 0 <= k < edits@.len() ==> folder_edit(#[trigger] edits@[k], items@, views(dir@), trim(value@), i as int),
                    forall|k: int, l: int| 0 <= k < l < edits@.len() ==> edits@[k].0 < edits@[l].0,
                    forall|x: int|
                        0 <= x < i && covers(#[trigger] items@[x], views(dir@)) ==> exists|k: int|
                            0 <= k < edits@.len() && edits@[k].0 == x,
                decreases items@.len() - i,
            {
                let item = &items[i];
                if starts_with_components(item, dir) {
                    let mut comps = path_components(item.path.as_str());
                    let ghost before = views(comps@);
                    assert(before.len() == comps@.len());
                    comps.set(pos, name.clone());
                    assert(views(comps@) =~= before.update(pos as int, trim(value@)));
                    let path = entry_path_string(&comps, item.kind);
                    let ghost old_edits = edits@;
                    edits.push((i, path));
                    assert forall|x: int|
                        0 <= x < i + 1 && covers(#[trigger] items@[x], views(dir@)) implies exists|k: int|
                        0 <= k < edits@.len() && edits@[k].0 == x by {
                        if x < i {
                            let k = choose|k: int| 0 <= k < old_edits.len() && old_edits[k].0 == x;
                            assert(edits@[k].0 == x);
                        } else {
                            assert(edits@[old_edits.len() as int].0 == x);
                        }
                    }
                }
                i = i + 1;
            }
            assert(forall|k: int| 0 <= k < edits@.len() ==> folder_edit(#[trigger] edits@[k], items@, views(dir@), trim(value@), items@.len() as int));
            assert(forall|k: int, l: int| 0 <= k < l < edits@.len() ==> edits@[k].0 < edits@[l].0);
            assert(forall|x: int|
                        0 <= x < items@.len() && covers(#[trigger] items@[x], views(dir@)) ==> exists|k: int|
                            0 <= k < edits@.len() && edits@[k].0 == x);
            Ok(edits)
        },
    }
}

/// The positions a deletion removes, highest first: the entry itself, or
/// every entry the folder covers.
pub fn delete_plan(items: &Vec<PakItem>, target: &PakSelection) -> (r: Vec<usize>)
    ensures
        forall|k: int, l: int| 0 <= k < l < r@.len() ==> r@[k] > r@[l],
        match target@ {
            PakSelectionView::Entry(index) => r@ == seq![index],
            PakSelectionView::Directory(dir) => {
                &&& forall|k: int| 0 <= k < r@.len() ==> #[trigger] r@[k] < items@.len() && covers(items@[r@[k] as int], dir)
                &&& forall|i: int| 0 <= i < items@.len() && covers(#[trigger] items@[i], dir) ==> r@.contains(i as usize)
            },
        },
{
    match target {
        PakSelection::Entry(index) => {
            let mut r: Vec<usize> = Vec::new();
            r.push(*index);
            assert(r@ =~= seq![*index]);
            r
        },
        PakSelection::Directory(dir) => {
            let ascending = indices_for_directory(items, dir);
            let mut r: Vec<usize> = Vec::new();
            let mut k: usize = ascending.len();
            while k > 0
                invariant
                    k <= ascending@.len(),
                    r@.len() == ascending@.len() - k,
                    forall|j: int| 0 <= j < r@.len() ==> #[trigger] r@[j] == ascending@[ascending@.len() - 1 - j],
                decreases k,
            {
                k = k - 1;
                r.push(ascending[k]);
            }
            assert forall|i: int| 0 <= i < items@.len() && covers(#[trigger] items@[i], views(dir@)) implies r@.contains(i as usize) by {
                let w = choose|w: int| 0 <= w < ascending@.len() && ascending@[w] == i as usize;
                assert(r@[ascending@.len() - 1 - w] == i as usize);
            }
            assert forall|k: int| 0 <= k < r@.len() implies #[trigger] r@[k] < items@.len() && covers(items@[r@[k] as int], views(dir@)) by {
                assert(r@[k] == ascending@[ascending@.len() - 1 - k]);
            }
            r
        },
    }
}

/// Which workspace opens an entry, by its extension.
#[derive(Clone, Copy, Debug, PartialEq, Eq, Structural)]
pub enum PreviewKind {
    Rton,
    Wem,
    Newton,
}

/// The workspace that opens a file named `name`: by its lower-case extension
/// (after the last `.`), `rton`, `wem` or `newton`.
pub fn preview_kind(name: &str) -> (r: Option<PreviewKind>)
    ensures
        ({
            let ext = lower(after_last(name@, CharSet::Dot));
            &&& (holds_any(name@, CharSet::Dot) && ext == "rton"@) ==> r == Some(PreviewKind::Rton)
            &&& (holds_any(name@, CharSet::Dot) && ext == "wem"@) ==> r == Some(PreviewKind::Wem)
            &&& (holds_any(name@, CharSet::Dot) && ext == "newton"@) ==> r == Some(PreviewKind::Newton)
            &&& (!holds_any(name@, CharSet::Dot) || (ext != "rton"@ && ext != "wem"@ && ext != "newton"@))
                ==> r is None
        }),
{
    let v = chars_of(name);
    if !contains_any(&v, CharSet::Dot) {
        return None;
    }
    let start = crate::text::last_segment_start(&v, 0, v.len(), CharSet::Dot);
    let mut ext: Vec<char> = Vec::new();
    crate::text::push_range(&mut ext, &v, start, v.len());
    assert(v@.subrange(0, v@.len() as int) =~= v@);
    let lowered = lower_vec(&ext);
    let l = string_of_all(&lowered);
    proof {
        reveal_strlit("rton");
        reveal_strlit("wem");
        reveal_strlit("newton");
        assert("rton"@.len() != "wem"@.len());
        assert("rton"@.len() != "newton"@.len());
        assert("wem"@.len() != "newton"@.len());
    }
    if l == "rton".to_owned() {
        Some(PreviewKind::Rton)
    } else if l == "wem".to_owned() {
        Some(PreviewKind::Wem)
    } else if l == "newton".to_owned() {
        Some(PreviewKind::Newton)
    } else {
        None
    }
}


/// The reason an edit of an entry or folder was refused, as the status bar
/// words it.
pub open spec fn pak_edit_reason(e: PakEditError) -> Seq<char> {
    match e {
        PakEditError::InvalidName => "名称不能为空，也不能包含路径分隔符"@,
        PakEditError::MissingEntry => "条目不存在"@,
        PakEditError::EmptyPath => "条目路径为空"@,
        PakEditError::RootRename => "不能重命名根目录"@,
        PakEditError::FlatFolder => "Flat PAK 无法保存空目录；请直接添加带目录路径的文件，或转换为 TV ZIP"@,
    }
}

impl PakEditError {
    fn reason(self) -> (s: String)
        ensures
            s@ == pak_edit_reason(self),
    {
        match self {
            PakEditError::InvalidName => "名称不能为空，也不能包含路径分隔符".to_string(),
            PakEditError::MissingEntry => "条目不存在".to_string(),
            PakEditError::EmptyPath => "条目路径为空".to_string(),
            PakEditError::RootRename => "不能重命名根目录".to_string(),
            PakEditError::FlatFolder => "Flat PAK 无法保存空目录；请直接添加带目录路径的文件，或转换为 TV ZIP".to_string(),
        }
    }

    /// The message shown when a rename is refused: a bad name on its own,
    /// any other reason after `重命名失败：`.
    pub fn rename_message(self) -> (s: String)
        ensures
            self == PakEditError::InvalidName ==> s@ == pak_edit_reason(self),
            self != PakEditError::InvalidName ==> s@ == "重命名失败："@ + pak_edit_reason(self),
    {
        if self == PakEditError::InvalidName {
            self.reason()
        } else {
            let mut v = chars_of("重命名失败：");
            push_str(&mut v, self.reason().as_str());
            string_of_all(&v)
        }
    }

    /// The message shown when a new folder is refused.
    pub fn folder_message(self) -> (s: String)
        ensures
            self == PakEditError::InvalidName ==> s@ == "文件夹名称不能为空，也不能包含路径分隔符"@,
            self != PakEditError::InvalidName ==> s@ == pak_edit_reason(self),
    {
        if self == PakEditError::InvalidName {
            "文件夹名称不能为空，也不能包含路径分隔符".to_string()
        } else {
            self.reason()
        }
    }
}

} // verus!
