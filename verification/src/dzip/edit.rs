//! Edits the DZip browser makes to the archive being built: renaming and
//! deleting files and folders, changing an entry's compression, volume or
//! content, and adding files.
use vstd::prelude::*;

use crate::dzip::archive::{Compression, DraftEntry};
use crate::dzip::browser::{BrowserSelection, SelectionView};
use crate::dzip::paths::{
    file_name, join_chars, parent_directory, replace_file_name, spec_file_name, spec_join_path,
    spec_parent_directory, spec_replace_file_name,
};
use crate::text::{
    chars_of, contains_any, has_prefix, holds_any, push_range, push_str, starts_with, string_of_all, trim,
    trim_set, trimmed, CharSet,
};

verus! {

/// Whether `a` and `b` agree on everything but the path.
pub open spec fn same_but_path(a: DraftEntry, b: DraftEntry) -> bool {
    &&& a.id == b.id
    &&& a.source_id == b.source_id
    &&& a.bytes == b.bytes
    &&& a.size == b.size
    &&& a.packed_size == b.packed_size
    &&& a.compression == b.compression
    &&& a.volume == b.volume
    &&& a.segments == b.segments
}

/// The position of the first entry with identifier `id`, or -1.
pub open spec fn index_of_id(entries: Seq<DraftEntry>, id: u64) -> int
    decreases entries.len(),
{
    if entries.len() == 0 {
        -1
    } else if entries[0].id == id {
        0
    } else {
        let r = index_of_id(entries.drop_first(), id);
        if r < 0 {
            -1
        } else {
            r + 1
        }
    }
}

/// `index_of_id` finds the first entry with the identifier.
pub proof fn lemma_index_of_id(entries: Seq<DraftEntry>, id: u64)
    ensures
        -1 <= index_of_id(entries, id) < entries.len(),
        index_of_id(entries, id) >= 0 ==> entries[index_of_id(entries, id)].id == id,
        index_of_id(entries, id) >= 0 ==> forall|j: int| 0 <= j < index_of_id(entries, id) ==> entries[j].id != id,
        index_of_id(entries, id) < 0 ==> forall|j: int| 0 <= j < entries.len() ==> entries[j].id != id,
    decreases entries.len(),
{
    if entries.len() > 0 {
        lemma_index_of_id(entries.drop_first(), id);
        assert forall|j: int| 1 <= j < entries.len() implies entries[j] == entries.drop_first()[j - 1] by {}
    }
}

/// Where the first entry with identifier `id` is.
pub fn find_entry(entries: &Vec<DraftEntry>, id: u64) -> (r: Option<usize>)
    ensures
        r matches Some(j) ==> j == index_of_id(entries@, id) && j < entries@.len(),
        r is None ==> index_of_id(entries@, id) == -1,
        -1 <= index_of_id(entries@, id) < entries@.len(),
{
    proof {
        lemma_index_of_id(entries@, id);
    }
    let mut i: usize = 0;
    while i < entries.len()
        invariant
            i <= entries@.len(),
            forall|j: int| 0 <= j < i ==> entries@[j].id != id,
            -1 <= index_of_id(entries@, id) < entries@.len(),
            index_of_id(entries@, id) >= 0 ==> entries@[index_of_id(entries@, id)].id == id,
            index_of_id(entries@, id) >= 0 ==> forall|j: int|
                0 <= j < index_of_id(entries@, id) ==> entries@[j].id != id,
            index_of_id(entries@, id) < 0 ==> forall|j: int| 0 <= j < entries@.len() ==> entries@[j].id != id,
        decreases entries@.len() - i,
    {
        if entries[i].id == id {
            proof {
                let f = index_of_id(entries@, id);
                if f < 0 {
                    assert(entries@[i as int].id != id);
                } else if f < i {
                    assert(entries@[f].id != id);
                } else if f > i {
                    assert(entries@[i as int].id != id);
                }
            }
            return Some(i);
        }
        i = i + 1;
    }
    None
}

/// The entries after `id`'s compression is set to `compression`.
pub fn set_entry_compression(entries: &mut Vec<DraftEntry>, id: u64, compression: Compression) -> (changed: bool)
    ensures
        ({
            let j = index_of_id(old(entries)@, id);
            &&& j < 0 ==> final(entries)@ == old(entries)@ && !changed
            &&& j >= 0 ==> {
                let (o, n) = (old(entries)@[j], final(entries)@[j]);
                &&& final(entries)@ == old(entries)@.update(j, n)
                &&& changed == (o.compression != compression)
                &&& n.compression == compression
                &&& (o.compression == compression ==> n == o)
                &&& (o.compression != compression ==> n.packed_size is None && n.segments is None)
                &&& n.id == o.id && n.source_id == o.source_id && n.path == o.path && n.bytes == o.bytes
                    && n.size == o.size && n.volume == o.volume
            }
        }),
{
    match find_entry(entries, id) {
        None => false,
        Some(j) => {
            let previous = entries[j].compression;
            entries[j].replace_compression(compression);
            previous != compression
        },
    }
}

/// The entries after `id` is moved to `volume`; nothing changes when the
/// archive has no such volume.
pub fn set_entry_volume(entries: &mut Vec<DraftEntry>, id: u64, volume: u16, volume_count: usize) -> (changed: bool)
    ensures
        ({
            let j = index_of_id(old(entries)@, id);
            &&& (j < 0 || volume >= volume_count) ==> final(entries)@ == old(entries)@ && !changed
            &&& (j >= 0 && volume < volume_count) ==> {
                let (o, n) = (old(entries)@[j], final(entries)@[j]);
                &&& final(entries)@ == old(entries)@.update(j, n)
                &&& changed == (o.volume != volume)
                &&& n.volume == volume
                &&& (o.volume == volume ==> n == o)
                &&& (o.volume != volume ==> n.packed_size is None && n.segments is None)
                &&& n.id == o.id && n.source_id == o.source_id && n.path == o.path && n.bytes == o.bytes
                    && n.size == o.size && n.compression == o.compression
            }
        }),
{
    if volume as usize >= volume_count {
        return false;
    }
    match find_entry(entries, id) {
        None => false,
        Some(j) => {
            let previous = entries[j].volume;
            entries[j].replace_volume(volume);
            previous != volume
        },
    }
}

/// The entries after `id`'s content is replaced by `bytes`; whether there
/// was such an entry.
pub fn replace_entry_bytes(entries: &mut Vec<DraftEntry>, id: u64, bytes: Vec<u8>) -> (found: bool)
    ensures
        ({
            let j = index_of_id(old(entries)@, id);
            &&& found == (j >= 0)
            &&& j < 0 ==> final(entries)@ == old(entries)@
            &&& j >= 0 ==> {
                let (o, n) = (old(entries)@[j], final(entries)@[j]);
                &&& final(entries)@ == old(entries)@.update(j, n)
                &&& n.bytes matches Some(b) && b@ == bytes@
                &&& n.size == bytes@.len()
                &&& n.packed_size is None && n.segments is None
                &&& n.id == o.id && n.source_id == o.source_id && n.path == o.path
                    && n.compression == o.compression && n.volume == o.volume
            }
        }),
{
    match find_entry(entries, id) {
        None => false,
        Some(j) => {
            entries[j].replace_bytes(bytes);
            true
        },
    }
}

/// The name shown for what `target` selects: a folder's or file's last
/// path component.
pub fn target_name(entries: &Vec<DraftEntry>, target: &BrowserSelection) -> (r: Option<String>)
    ensures
        match target@ {
            SelectionView::Directory(p) => r matches Some(n) && n@ == spec_file_name(p),
            SelectionView::Entry(id) => {
                let j = index_of_id(entries@, id);
                &&& j < 0 ==> r is None
                &&& j >= 0 ==> (r matches Some(n) && n@ == spec_file_name(entries@[j].path@))
            },
        },
{
    match target {
        BrowserSelection::Directory(path) => Some(file_name(path.as_str())),
        BrowserSelection::Entry(id) => match find_entry(entries, *id) {
            Some(j) => Some(file_name(entries[j].path.as_str())),
            None => None,
        },
    }
}

/// Why a new name was refused.
#[derive(Clone, Copy, Debug, PartialEq, Eq, Structural)]
pub enum NameError {
    /// Empty once trimmed, or holding a path separator.
    Invalid,
}

/// What a folder's entries start with once trimmed of slashes: the folder's
/// own trimmed path and a `/`.
pub open spec fn folder_prefix(folder: Seq<char>) -> Seq<char> {
    trim_set(folder, CharSet::Slash) + "/"@
}

/// Whether `value` can name a file or folder: something is left once it is
/// trimmed, and no separator.
pub open spec fn valid_name(value: Seq<char>) -> bool {
    trim(value).len() > 0 && !holds_any(trim(value), CharSet::Separators)
}

/// The path of an entry after the folder `folder` is renamed to the path
/// `replacement`: entries beneath the folder move with it.
pub open spec fn moved_path(path: Seq<char>, folder: Seq<char>, replacement: Seq<char>) -> Seq<char> {
    let t = trim_set(path, CharSet::Slash);
    let p = folder_prefix(folder);
    if has_prefix(t, p) {
        spec_join_path(replacement, t.skip(p.len() as int))
    } else {
        path
    }
}

/// Whether `n` is the entry `o` after the folder `folder` is renamed to `replacement`.
pub open spec fn moved_entry(n: DraftEntry, o: DraftEntry, folder: Seq<char>, replacement: Seq<char>) -> bool {
    n.path@ == moved_path(o.path@, folder, replacement) && same_but_path(n, o)
}

/// The directory the browser shows after the folder `folder` is renamed
/// to `replacement`: inside the folder, the browser follows it.
pub open spec fn moved_directory(directory: Seq<char>, folder: Seq<char>, replacement: Seq<char>) -> Seq<char> {
    if directory == folder || has_prefix(directory, folder_prefix(folder)) {
        let suffix = if has_prefix(directory, folder) {
            directory.skip(folder.len() as int)
        } else {
            Seq::empty()
        };
        trim_set(replacement + suffix, CharSet::Slash)
    } else {
        directory
    }
}

/// The characters of `v` equal to those of `w`.
fn same_chars(v: &Vec<char>, w: &Vec<char>) -> (r: bool)
    ensures
        r == (v@ == w@),
{
    assert(v@.subrange(0, v@.len() as int) =~= v@);
    crate::text::range_equals(v, 0, v.len(), w)
}

/// Renames what `target` selects to `value` (trimmed): a file keeps its
/// folder, a folder takes its entries along, and the browser's `directory`
/// follows a renamed folder it is in. Returns whether an entry changed.
pub fn rename_target(entries: &mut Vec<DraftEntry>, directory: &mut String, target: &BrowserSelection, value: &str) -> (r:
    Result<bool, NameError>)
    ensures
        !valid_name(value@) ==> r == Err::<bool, NameError>(NameError::Invalid) && final(entries)@ == old(
            entries,
        )@ && final(directory)@ == old(directory)@,
        valid_name(value@) ==> match target@ {
            SelectionView::Entry(id) => {
                let j = index_of_id(old(entries)@, id);
                &&& final(directory)@ == old(directory)@
                &&& j < 0 ==> final(entries)@ == old(entries)@ && r == Ok::<bool, NameError>(false)
                &&& j >= 0 ==> {
                    let (o, n) = (old(entries)@[j], final(entries)@[j]);
                    &&& final(entries)@ == old(entries)@.update(j, n)
                    &&& n.path@ == spec_replace_file_name(o.path@, trim(value@))
                    &&& same_but_path(n, o)
                    &&& r == Ok::<bool, NameError>(true)
                }
            },
            SelectionView::Directory(folder) => {
                let replacement = spec_join_path(spec_parent_directory(folder), trim(value@));
                &&& final(entries)@.len() == old(entries)@.len()
                &&& forall|i: int|
                    0 <= i < old(entries)@.len() ==> moved_entry(
                        #[trigger] final(entries)@[i],
                        old(entries)@[i],
                        folder,
                        replacement,
                    )
                &&& r == Ok::<bool, NameError>(
                    exists|i: int|
                        0 <= i < old(entries)@.len() && has_prefix(
                            trim_set(#[trigger] old(entries)@[i].path@, CharSet::Slash),
                            folder_prefix(folder),
                        ),
                )
                &&& final(directory)@ == moved_directory(old(directory)@, folder, replacement)
            },
        },
{
    let raw = chars_of(value);
    let name = trimmed(&raw, CharSet::Whitespace);
    if name.len() == 0 || contains_any(&name, CharSet::Separators) {
        return Err(NameError::Invalid);
    }
    let name_text = string_of_all(&name);
    match target {
        BrowserSelection::Entry(id) => match find_entry(entries, *id) {
            None => Ok(false),
            Some(j) => {
                let renamed = replace_file_name(entries[j].path.as_str(), name_text.as_str());
                entries[j].path = renamed;
                Ok(true)
            },
        },
        BrowserSelection::Directory(folder) => {
            let parent = parent_directory(folder.as_str());
            let parent_chars = chars_of(parent.as_str());
            let replacement = join_chars(&parent_chars, &name);
            let folder_chars = chars_of(folder.as_str());
            let mut prefix = trimmed(&folder_chars, CharSet::Slash);
            prefix.push('/');
            proof {
                reveal_strlit("/");
            }
            assert(prefix@ =~= folder_prefix(folder@));
            let ghost old_entries = entries@;
            let mut changed = false;
            let mut i: usize = 0;
            while i < entries.len()
                invariant
                    i <= entries@.len(),
                    entries@.len() == old_entries.len(),
                    prefix@ == folder_prefix(folder@),
                    replacement@ == spec_join_path(spec_parent_directory(folder@), trim(value@)),
                    forall|k: int| 0 <= k < i ==> moved_entry(#[trigger] entries@[k], old_entries[k], folder@, replacement@),
                    forall|k: int| i <= k < entries@.len() ==> #[trigger] entries@[k] == old_entries[k],
                    changed == exists|k: int|
                        0 <= k < i && has_prefix(
                            trim_set(#[trigger] old_entries[k].path@, CharSet::Slash),
                            folder_prefix(folder@),
                        ),
                decreases entries@.len() - i,
            {
                let ghost at_start = entries@;
                let p = chars_of(entries[i].path.as_str());
                let t = trimmed(&p, CharSet::Slash);
                if starts_with(&t, &prefix) {
                    let mut suffix: Vec<char> = Vec::new();
                    push_range(&mut suffix, &t, prefix.len(), t.len());
                    assert(suffix@ =~= t@.skip(prefix@.len() as int));
                    let moved = join_chars(&replacement, &suffix);
                    entries[i].path = string_of_all(&moved);
                    changed = true;
                }
                assert(old_entries[i as int].path@ == p@);
                assert(moved_entry(entries@[i as int], old_entries[i as int], folder@, replacement@));
                assert forall|k: int| 0 <= k < i implies moved_entry(#[trigger] entries@[k], old_entries[k], folder@, replacement@) by {
                    assert(entries@[k] == at_start[k]);
                }
                i = i + 1;
            }
            let dir_chars = chars_of(directory.as_str());
            let inside = same_chars(&dir_chars, &folder_chars) || starts_with(&dir_chars, &prefix);
            if inside {
                let mut joined: Vec<char> = Vec::new();
                push_range(&mut joined, &replacement, 0, replacement.len());
                if starts_with(&dir_chars, &folder_chars) {
                    push_range(&mut joined, &dir_chars, folder_chars.len(), dir_chars.len());
                    assert(dir_chars@.subrange(folder_chars@.len() as int, dir_chars@.len() as int) =~= dir_chars@.skip(
                        folder@.len() as int,
                    ));
                } else {
                    assert(Seq::<char>::empty() =~= dir_chars@.subrange(0, 0));
                }
                assert(replacement@.subrange(0, replacement@.len() as int) =~= replacement@);
                let moved_dir = trimmed(&joined, CharSet::Slash);
                *directory = string_of_all(&moved_dir);
            }
            Ok(changed)
        },
    }
}

/// Whether deleting `target` removes the entry `e`: the entry itself, or
/// every entry beneath the folder.
pub open spec fn doomed(e: DraftEntry, target: SelectionView) -> bool {
    match target {
        SelectionView::Entry(id) => e.id == id,
        SelectionView::Directory(folder) => has_prefix(trim_set(e.path@, CharSet::Slash), folder_prefix(folder)),
    }
}

/// The entries that deleting `target` keeps, in order.
pub open spec fn survivors(entries: Seq<DraftEntry>, target: SelectionView) -> Seq<DraftEntry>
    decreases entries.len(),
{
    if entries.len() == 0 {
        entries
    } else {
        let rest = survivors(entries.drop_first(), target);
        if doomed(entries[0], target) {
            rest
        } else {
            seq![entries[0]] + rest
        }
    }
}

/// Deletes what `target` selects; a browser inside a deleted folder moves
/// to the folder's parent. Returns how many entries were removed.
pub fn delete_target(entries: &mut Vec<DraftEntry>, directory: &mut String, target: &BrowserSelection) -> (removed:
    usize)
    ensures
        final(entries)@ == survivors(old(entries)@, target@),
        removed == old(entries)@.len() - final(entries)@.len(),
        match target@ {
            SelectionView::Entry(_) => final(directory)@ == old(directory)@,
            SelectionView::Directory(folder) => if old(directory)@ == folder || has_prefix(
                old(directory)@,
                folder_prefix(folder),
            ) {
                final(directory)@ == spec_parent_directory(folder)
            } else {
                final(directory)@ == old(directory)@
            },
        },
{
    let ghost old_entries = entries@;
    let before_len = entries.len();
    let mut prefix: Vec<char> = Vec::new();
    match target {
        BrowserSelection::Directory(folder) => {
            let folder_chars = chars_of(folder.as_str());
            prefix = trimmed(&folder_chars, CharSet::Slash);
            prefix.push('/');
            proof {
                reveal_strlit("/");
            }
            assert(prefix@ =~= folder_prefix(folder@));
        },
        BrowserSelection::Entry(_) => {},
    }
    let mut i: usize = entries.len();
    assert(old_entries.skip(old_entries.len() as int) =~= Seq::<DraftEntry>::empty());
    assert(old_entries.take(old_entries.len() as int) =~= old_entries);
    while i > 0
        invariant
            i <= old_entries.len(),
            entries@ == old_entries.take(i as int) + survivors(old_entries.skip(i as int), target@),
            target@ matches SelectionView::Directory(folder) ==> prefix@ == folder_prefix(folder),
        decreases i,
    {
        let k = i - 1;
        let ghost tail = old_entries.skip(k as int);
        assert(tail.drop_first() =~= old_entries.skip(i as int));
        assert(tail[0] == old_entries[k as int]);
        assert(entries@[k as int] == old_entries[k as int]);
        let gone = match target {
            BrowserSelection::Entry(id) => entries[k].id == *id,
            BrowserSelection::Directory(_) => {
                let p = chars_of(entries[k].path.as_str());
                let t = trimmed(&p, CharSet::Slash);
                starts_with(&t, &prefix)
            },
        };
        let ghost before = entries@;
        if gone {
            entries.remove(k);
            assert(entries@ =~= old_entries.take(k as int) + survivors(tail, target@));
        } else {
            assert(before =~= old_entries.take(k as int) + survivors(tail, target@));
        }
        i = k;
    }
    assert(old_entries.take(0) + survivors(old_entries.skip(0), target@) =~= survivors(old_entries, target@));
    proof {
        lemma_survivors_len(old_entries, target@);
    }
    let removed = before_len - entries.len();
    match target {
        BrowserSelection::Directory(folder) => {
            let folder_chars = chars_of(folder.as_str());
            let dir_chars = chars_of(directory.as_str());
            if same_chars(&dir_chars, &folder_chars) || starts_with(&dir_chars, &prefix) {
                *directory = parent_directory(folder.as_str());
            }
        },
        BrowserSelection::Entry(_) => {},
    }
    removed
}

/// Deleting never adds entries.
proof fn lemma_survivors_len(entries: Seq<DraftEntry>, target: SelectionView)
    ensures
        survivors(entries, target).len() <= entries.len(),
    decreases entries.len(),
{
    if entries.len() > 0 {
        lemma_survivors_len(entries.drop_first(), target);
    }
}

} // verus!
