//! Packing files into a ZIP archive for download: the DZip volumes and
//! extracted files (stored) and the extracted PAK entries (deflated).
use std::io::Cursor;

use vstd::prelude::*;
use zip::result::ZipError;
use zip::ZipWriter;

use crate::dzip::service::{archive_stem as dzip_archive_stem, spec_dzip_archive_stem};
use crate::pak::model::{archive_stem as pak_archive_stem, spec_archive_stem, PakEntryKind};
use crate::text::{chars_of, push_str, replace_char, replaced, string_of_all};

verus! {

/// A ZIP writer over an in-memory buffer. What it holds is known to proofs
/// only through `zip_members` and `zip_sound`.
#[verifier::external_body]
pub struct ZipBuffer {
    writer: ZipWriter<Cursor<Vec<u8>>>,
}

#[verifier::external_type_specification]
#[verifier::external_body]
pub struct ExZipError(ZipError);

/// The entries a ZIP writer holds, in the order they were started: name,
/// whether it is a directory, whether its data is deflated (else stored), and
/// the data written to it.
pub uninterp spec fn zip_members(w: ZipBuffer) -> Seq<(Seq<char>, bool, bool, Seq<u8>)>;

/// Whether every call made on a ZIP writer so far has succeeded: the writer
/// is still open, and where its last entry is a file, that file still takes
/// data.
pub uninterp spec fn zip_sound(w: ZipBuffer) -> bool;

/// The name a directory entry is stored under: a slash is added unless the
/// name ends with a slash or a backslash.
pub open spec fn directory_entry_name(name: Seq<char>) -> Seq<char> {
    if name.len() > 0 && (name.last() == '/' || name.last() == '\\') {
        name
    } else {
        name + "/"@
    }
}

/// A name the ZIP library takes for an entry: the 30 bytes of a local header
/// and the name in UTF-8 stay under 65535 bytes.
pub open spec fn zip_name_fits(name: Seq<char>) -> bool {
    vstd::utf8::encode_utf8(name).len() + 30 < 65535
}

/// An entry's data the ZIP library writes without its large-file option:
/// stored data under 0xFFFF_FFFF bytes; deflated data under 2 GiB, so that
/// its deflated form stays under 4 GiB too.
pub open spec fn zip_data_fits(m: (Seq<char>, bool, bool, Seq<u8>)) -> bool {
    if m.2 {
        m.3.len() < 0x8000_0000
    } else {
        m.3.len() < 0xFFFF_FFFF
    }
}

/// No entry of `members` is named `name`.
pub open spec fn zip_name_unused(members: Seq<(Seq<char>, bool, bool, Seq<u8>)>, name: Seq<char>) -> bool {
    forall|k: int| #![trigger members[k]] 0 <= k < members.len() ==> members[k].0 != name
}

/// The data of every entry of `members` fits.
pub open spec fn zip_data_all_fit(members: Seq<(Seq<char>, bool, bool, Seq<u8>)>) -> bool {
    forall|k: int| #![trigger members[k]] 0 <= k < members.len() ==> zip_data_fits(members[k])
}

/// Entries the ZIP library takes one after another: no two under one name,
/// each name and each entry's data within the library's limits.
pub open spec fn zip_acceptable(members: Seq<(Seq<char>, bool, bool, Seq<u8>)>) -> bool {
    &&& forall|i: int, j: int|
        #![trigger members[i], members[j]]
        0 <= i < members.len() && 0 <= j < members.len() && i != j ==> members[i].0 != members[j].0
    &&& forall|k: int|
        #![trigger members[k]]
        0 <= k < members.len() ==> zip_name_fits(members[k].0) && zip_data_fits(members[k])
}

/// `ZipWriter::new` on an empty in-memory buffer: a writer with no entries.
#[verifier::external_body]
fn new_zip_writer() -> (w: ZipBuffer)
    ensures
        zip_members(w) == Seq::<(Seq<char>, bool, bool, Seq<u8>)>::empty(),
        zip_sound(w),
{
    ZipBuffer { writer: ZipWriter::new(Cursor::new(Vec::new())) }
}

/// `ZipWriter::start_file` with the default options and the stored or deflated
/// method. On success the writer holds one more entry, a file named `name`
/// with no data yet. It first closes the file written last, which fails only
/// when that file's data is too large, and refuses only a name already taken
/// or too long; writing into memory does not fail.
#[verifier::external_body]
fn zip_start_file(w: &mut ZipBuffer, name: String, deflated: bool) -> (r: Result<(), ZipError>)
    ensures
        r is Ok ==> zip_members(*final(w)) == zip_members(*old(w)).push((name@, false, deflated, seq![])),
        zip_sound(*old(w)) && zip_name_unused(zip_members(*old(w)), name@) && zip_name_fits(name@)
            && zip_data_all_fit(zip_members(*old(w))) ==> r is Ok,
        zip_sound(*old(w)) && r is Ok ==> zip_sound(*final(w)),
{
    let method = if deflated {
        zip::CompressionMethod::Deflated
    } else {
        zip::CompressionMethod::Stored
    };
    w.writer.start_file(name, zip::write::SimpleFileOptions::default().compression_method(method))
}

/// `ZipWriter::add_directory` with the default options. On success the
/// writer holds one more entry, a stored directory named by
/// `directory_entry_name`; it fails only as `zip_start_file` does.
#[verifier::external_body]
fn zip_add_directory(w: &mut ZipBuffer, name: String) -> (r: Result<(), ZipError>)
    ensures
        r is Ok ==> zip_members(*final(w)) == zip_members(*old(w)).push(
            (directory_entry_name(name@), true, false, seq![]),
        ),
        zip_sound(*old(w)) && zip_name_unused(zip_members(*old(w)), directory_entry_name(name@))
            && zip_name_fits(directory_entry_name(name@)) && zip_data_all_fit(zip_members(*old(w))) ==> r is Ok,
        zip_sound(*old(w)) && r is Ok ==> zip_sound(*final(w)),
{
    w.writer.add_directory(name, zip::write::SimpleFileOptions::default())
}

/// `Write::write_all` on a ZIP writer. Writing nothing succeeds and changes
/// nothing. Otherwise, on success, the data is appended to the file started
/// last; it fails when no file is open or when the file's data grows past
/// what the writer takes without its large-file option.
#[verifier::external_body]
fn zip_write_all(w: &mut ZipBuffer, data: &[u8]) -> (r: Result<(), std::io::Error>)
    ensures
        data@.len() == 0 ==> r is Ok && zip_members(*final(w)) == zip_members(*old(w)),
        r is Ok && data@.len() > 0 ==> ({
            let before = zip_members(*old(w));
            let last = before.last();
            &&& before.len() > 0
            &&& !last.1
            &&& zip_members(*final(w)) == before.update(before.len() - 1, (last.0, last.1, last.2, last.3 + data@))
        }),
        ({
            let before = zip_members(*old(w));
            let last = before.last();
            zip_sound(*old(w)) && before.len() > 0 && !last.1 && zip_data_fits((last.0, last.1, last.2, last.3 + data@))
        }) ==> r is Ok,
        zip_sound(*old(w)) && r is Ok ==> zip_sound(*final(w)),
{
    std::io::Write::write_all(&mut w.writer, data)
}

/// The writer's deflate output for `data`: the compressed form a deflated
/// entry holds in place of its data.
pub uninterp spec fn zip_deflated(data: Seq<u8>) -> Seq<u8>;

/// What follows an entry's 30-byte local header: its name in UTF-8, then,
/// for a file, its data as stored (`deflated` standing for the compressed
/// form of a deflated file's data). A directory has no data.
pub open spec fn local_part(m: (Seq<char>, bool, bool, Seq<u8>), deflated: Seq<u8>) -> Seq<u8> {
    vstd::utf8::encode_utf8(m.0) + if m.1 {
        Seq::<u8>::empty()
    } else if m.2 {
        deflated
    } else {
        m.3
    }
}

/// The local parts of `members`, in order, each deflated file's data
/// compressed by the writer.
pub open spec fn member_parts(members: Seq<(Seq<char>, bool, bool, Seq<u8>)>) -> Seq<Seq<u8>> {
    Seq::new(members.len(), |k: int| local_part(members[k], zip_deflated(members[k].3)))
}

/// Where part `k` of an archive's entries starts: the entries follow one
/// another from the start of the archive, each a 30-byte local header and
/// then its part.
pub open spec fn part_start(parts: Seq<Seq<u8>>, k: int) -> int
    decreases k,
{
    if k <= 0 {
        30
    } else {
        part_start(parts, k - 1) + parts[k - 1].len() + 30
    }
}

/// What every finished archive whose entries have the local parts `parts`
/// holds, on any machine: from its start, each entry in order, its part
/// right after its 30-byte header, and at least the 22 bytes of the
/// end-of-central-directory record.
pub open spec fn archive_holds(bytes: Seq<u8>, parts: Seq<Seq<u8>>) -> bool {
    &&& bytes.len() >= 22
    &&& forall|k: int|
        #![trigger parts[k]]
        0 <= k < parts.len() ==> part_start(parts, k) + parts[k].len() <= bytes.len() && bytes.subrange(
            part_start(parts, k),
            part_start(parts, k) + parts[k].len(),
        ) == parts[k]
}

/// `ZipWriter::finish` and the buffer's contents: the bytes of the archive.
/// On a writer on which every call succeeded, the entries start the archive
/// in the order they were started, each a 30-byte local header (no extra
/// fields with the default options), its name in UTF-8 and its data, stored
/// as written or deflated by the writer; the central directory and the end
/// record follow. The headers themselves are not claimed: the library stamps
/// each entry with the host system it was built for, so the same entries
/// give different headers on different machines. Finishing closes the file
/// written last, which fails only when its data is too large; writing the
/// directory into memory does not fail.
#[verifier::external_body]
fn zip_finish(w: ZipBuffer) -> (r: Result<Vec<u8>, ZipError>)
    ensures
        zip_sound(w) ==> (r matches Ok(bytes) ==> archive_holds(
            bytes@,
            Seq::new(
                zip_members(w).len(),
                |k: int| local_part(zip_members(w)[k], zip_deflated(zip_members(w)[k].3)),
            ),
        )),
        zip_sound(w) && zip_data_all_fit(zip_members(w)) ==> r is Ok,
{
    w.writer.finish().map(Cursor::into_inner)
}

/// The message of a ZIP error, as its `Display` implementation writes it.
#[verifier::external_body]
fn zip_error_text(error: &ZipError) -> String {
    error.to_string()
}

#[verifier::external_type_specification]
#[verifier::external_body]
pub struct ExIoError(std::io::Error);

/// The message of an I/O error, as its `Display` implementation writes it.
#[verifier::external_body]
fn io_error_text(error: &std::io::Error) -> String {
    error.to_string()
}

/// Why a ZIP archive could not be made, with the ZIP library's message (for
/// a write, the I/O error's).
#[derive(Clone, Debug, PartialEq, Eq)]
pub enum ZipExportError {
    /// A directory entry could not be added.
    Directory(String),
    /// A file entry could not be started.
    StartFile(String),
    /// A file's data could not be written.
    Write(String),
    /// The archive could not be finished.
    Finish(String),
}

/// The message shown when packing DZip files for download fails: the step
/// that failed, then the library's message.
pub open spec fn stored_zip_message(e: ZipExportError) -> Seq<char> {
    match e {
        ZipExportError::Directory(detail) => "无法创建 ZIP 条目："@ + detail@,
        ZipExportError::StartFile(detail) => "无法创建 ZIP 条目："@ + detail@,
        ZipExportError::Write(detail) => "无法写入 ZIP 条目："@ + detail@,
        ZipExportError::Finish(detail) => "无法完成 ZIP："@ + detail@,
    }
}

/// The message shown when exporting PAK entries fails: the step that
/// failed, then the library's message.
pub open spec fn pak_zip_message(e: ZipExportError) -> Seq<char> {
    match e {
        ZipExportError::Directory(detail) => "无法创建导出目录："@ + detail@,
        ZipExportError::StartFile(detail) => "无法创建导出文件："@ + detail@,
        ZipExportError::Write(detail) => "无法写入导出文件："@ + detail@,
        ZipExportError::Finish(detail) => "无法完成导出 ZIP："@ + detail@,
    }
}

/// `prefix` followed by `detail`.
fn prefixed(prefix: &str, detail: &String) -> (s: String)
    ensures
        s@ == prefix@ + detail@,
{
    let mut v = chars_of(prefix);
    push_str(&mut v, detail.as_str());
    string_of_all(&v)
}

impl ZipExportError {
    /// The message shown when packing DZip files for download fails.
    pub fn stored_message(&self) -> (s: String)
        ensures
            s@ == stored_zip_message(*self),
    {
        match self {
            ZipExportError::Directory(detail) => prefixed("无法创建 ZIP 条目：", detail),
            ZipExportError::StartFile(detail) => prefixed("无法创建 ZIP 条目：", detail),
            ZipExportError::Write(detail) => prefixed("无法写入 ZIP 条目：", detail),
            ZipExportError::Finish(detail) => prefixed("无法完成 ZIP：", detail),
        }
    }

    /// The message shown when exporting PAK entries fails.
    pub fn pak_message(&self) -> (s: String)
        ensures
            s@ == pak_zip_message(*self),
    {
        match self {
            ZipExportError::Directory(detail) => prefixed("无法创建导出目录：", detail),
            ZipExportError::StartFile(detail) => prefixed("无法创建导出文件：", detail),
            ZipExportError::Write(detail) => prefixed("无法写入导出文件：", detail),
            ZipExportError::Finish(detail) => prefixed("无法完成导出 ZIP：", detail),
        }
    }
}

/// A named file to pack.
pub struct NamedBytes {
    pub name: String,
    pub bytes: Vec<u8>,
}

/// Archive entry names use forward slashes.
fn zip_entry_name(name: &str) -> (out: String)
    ensures
        out@ == replace_char(name@, '\\', '/'),
{
    let v = chars_of(name);
    string_of_all(&replaced(&v, '\\', '/'))
}

/// The entries a stored ZIP of `files` holds: each file under its name with
/// forward slashes, stored.
pub open spec fn stored_members(files: Seq<NamedBytes>) -> Seq<(Seq<char>, bool, bool, Seq<u8>)> {
    Seq::new(files.len(), |i: int| (replace_char(files[i].name@, '\\', '/'), false, false, files[i].bytes@))
}

/// A ZIP writer holding `files`, in order, each stored under its name with
/// forward slashes. The ZIP library refuses an entry only where two files
/// share a name, a name is too long or a file too large; the error says which
/// step failed.
pub fn stored_zip_writer(files: &Vec<NamedBytes>) -> (r: Result<ZipBuffer, ZipExportError>)
    ensures
        r matches Ok(w) ==> zip_members(w) == stored_members(files@) && zip_sound(w),
        zip_acceptable(stored_members(files@)) ==> r is Ok,
        r matches Err(e) ==> (e is StartFile || e is Write),
{
    let mut w = new_zip_writer();
    let ghost all = stored_members(files@);
    let mut i: usize = 0;
    while i < files.len()
        invariant
            i <= files@.len(),
            all == stored_members(files@),
            zip_members(w) == stored_members(files@.take(i as int)),
            zip_sound(w),
        decreases files@.len() - i,
    {
        let name = zip_entry_name(files[i].name.as_str());
        proof {
            if zip_acceptable(all) {
                assert(all[i as int].0 == name@);
                assert forall|k: int| #![trigger zip_members(w)[k]] 0 <= k < zip_members(w).len() implies
                    zip_members(w)[k].0 != name@ && zip_data_fits(zip_members(w)[k]) by {
                    assert(zip_members(w)[k] == all[k]);
                }
            }
        }
        if let Err(error) = zip_start_file(&mut w, name, false) {
            return Err(ZipExportError::StartFile(zip_error_text(&error)));
        }
        let ghost started = zip_members(w);
        proof {
            let last = started.last();
            assert(last.3 + files@[i as int].bytes@ =~= files@[i as int].bytes@);
        }
        if let Err(error) = zip_write_all(&mut w, files[i].bytes.as_slice()) {
            return Err(ZipExportError::Write(io_error_text(&error)));
        }
        assert(zip_members(w) =~= stored_members(files@.take(i + 1)));
        i = i + 1;
    }
    assert(files@.take(i as int) =~= files@);
    Ok(w)
}

/// The bytes of the finished archive, or the ZIP library's message. A writer
/// on which every call succeeded, holding no entry too large, is finished.
pub fn finish_zip(w: ZipBuffer) -> (r: Result<Vec<u8>, ZipExportError>)
    ensures
        zip_sound(w) ==> (r matches Ok(b) ==> archive_holds(b@, member_parts(zip_members(w)))),
        zip_sound(w) && zip_data_all_fit(zip_members(w)) ==> r is Ok,
        r matches Err(e) ==> e is Finish,
{
    assert(member_parts(zip_members(w)) =~= Seq::new(
        zip_members(w).len(),
        |k: int| local_part(zip_members(w)[k], zip_deflated(zip_members(w)[k].3)),
    ));
    match zip_finish(w) {
        Ok(bytes) => Ok(bytes),
        Err(error) => Err(ZipExportError::Finish(zip_error_text(&error))),
    }
}

/// Packs `files` into a stored ZIP archive: the writer of `stored_zip_writer`,
/// finished. The exact bytes depend on the host system; what every archive
/// holding the files has is stated. Distinct names after the slashes are
/// turned, none too long, and no file of 4 GiB or more: then packing succeeds.
pub fn store_zip(files: &Vec<NamedBytes>) -> (r: Result<Vec<u8>, ZipExportError>)
    ensures
        r matches Ok(b) ==> archive_holds(b@, member_parts(stored_members(files@))),
        zip_acceptable(stored_members(files@)) ==> r is Ok,
        r matches Err(e) ==> (e is StartFile || e is Write || e is Finish),
{
    let w = stored_zip_writer(files)?;
    proof {
        if zip_acceptable(stored_members(files@)) {
            assert forall|k: int| #![trigger zip_members(w)[k]] 0 <= k < zip_members(w).len() implies
                zip_data_fits(zip_members(w)[k]) by {
                assert(zip_members(w)[k] == stored_members(files@)[k]);
            }
        }
    }
    finish_zip(w)
}

/// One PAK entry to extract: its path as text, its kind and its data.
pub struct PakExportEntry {
    pub path: String,
    pub kind: PakEntryKind,
    pub data: Vec<u8>,
}

/// The ZIP entry one PAK entry becomes: a directory is stored, a file or a
/// symlink (as its target text) is deflated, all under the path with forward
/// slashes.
pub open spec fn pak_member(e: PakExportEntry) -> (Seq<char>, bool, bool, Seq<u8>) {
    let name = replace_char(e.path@, '\\', '/');
    match e.kind {
        PakEntryKind::Directory => (directory_entry_name(name), true, false, seq![]),
        _ => (name, false, true, e.data@),
    }
}

/// The ZIP entries of the PAK entries that were found, in order.
pub open spec fn pak_members(items: Seq<Option<PakExportEntry>>) -> Seq<(Seq<char>, bool, bool, Seq<u8>)>
    decreases items.len(),
{
    if items.len() == 0 {
        seq![]
    } else {
        pak_members(items.drop_last()) + match items.last() {
            Some(e) => seq![pak_member(e)],
            None => seq![],
        }
    }
}

/// How many of the found PAK entries are files or symlinks.
pub open spec fn pak_file_count(items: Seq<Option<PakExportEntry>>) -> nat
    decreases items.len(),
{
    if items.len() == 0 {
        0
    } else {
        pak_file_count(items.drop_last()) + match items.last() {
            Some(e) => if e.kind == PakEntryKind::Directory { 0nat } else { 1nat },
            None => 0nat,
        }
    }
}

/// The ZIP entries of two runs of PAK entries, one after the other, are
/// those of each run in turn.
proof fn lemma_pak_members_append(a: Seq<Option<PakExportEntry>>, b: Seq<Option<PakExportEntry>>)
    ensures
        pak_members(a + b) == pak_members(a) + pak_members(b),
    decreases b.len(),
{
    if b.len() == 0 {
        assert(a + b =~= a);
        assert(pak_members(a) + pak_members(b) =~= pak_members(a));
    } else {
        assert((a + b).drop_last() =~= a + b.drop_last());
        assert((a + b).last() == b.last());
        lemma_pak_members_append(a, b.drop_last());
        let tail: Seq<(Seq<char>, bool, bool, Seq<u8>)> = match b.last() {
            Some(e) => seq![pak_member(e)],
            None => seq![],
        };
        assert(pak_members(a) + pak_members(b.drop_last()) + tail =~= pak_members(a) + (pak_members(
            b.drop_last(),
        ) + tail));
    }
}

/// A ZIP writer holding the selected PAK entries, for download. `items`
/// holds, in selection order, each selected entry or `None` where the archive
/// has no entry at that position (skipped). Also returns how many files it
/// holds. The ZIP library refuses an entry only where two share a name, a
/// name is too long or a file too large.
pub fn pak_zip_writer(items: &Vec<Option<PakExportEntry>>) -> (r: Result<(ZipBuffer, usize), ZipExportError>)
    ensures
        r matches Ok((w, written)) ==> zip_members(w) == pak_members(items@) && written == pak_file_count(items@)
            && zip_sound(w),
        zip_acceptable(pak_members(items@)) ==> r is Ok,
        r matches Err(e) ==> !(e is Finish),
{
    let mut w = new_zip_writer();
    let ghost all = pak_members(items@);
    let mut written: usize = 0;
    let mut i: usize = 0;
    while i < items.len()
        invariant
            i <= items@.len(),
            all == pak_members(items@),
            zip_members(w) == pak_members(items@.take(i as int)),
            written == pak_file_count(items@.take(i as int)),
            written <= i,
            zip_sound(w),
        decreases items@.len() - i,
    {
        assert(items@.take(i + 1).drop_last() =~= items@.take(i as int));
        proof {
            let before = items@.take(i as int);
            let step = items@.take(i + 1);
            assert(items@ =~= step + items@.skip(i + 1));
            lemma_pak_members_append(step, items@.skip(i + 1));
            if zip_acceptable(all) {
                assert forall|k: int| #![trigger zip_members(w)[k]] 0 <= k < zip_members(w).len() implies
                    zip_data_fits(zip_members(w)[k]) && zip_members(w)[k] == all[k] by {
                    assert(pak_members(step)[k] == all[k]);
                }
                if items@[i as int] is Some {
                    let idx = zip_members(w).len() as int;
                    assert(pak_members(step)[idx] == all[idx]);
                    assert(pak_members(step)[idx] == pak_member(items@[i as int]->0));
                }
            }
        }
        match &items[i] {
            None => {},
            Some(entry) => {
                let name = zip_entry_name(entry.path.as_str());
                match entry.kind {
                    PakEntryKind::Directory => {
                        if let Err(error) = zip_add_directory(&mut w, name) {
                            return Err(ZipExportError::Directory(zip_error_text(&error)));
                        }
                    },
                    _ => {
                        if let Err(error) = zip_start_file(&mut w, name, true) {
                            return Err(ZipExportError::StartFile(zip_error_text(&error)));
                        }
                        let ghost started = zip_members(w);
                        proof {
                            let last = started.last();
                            assert(last.3 + entry.data@ =~= entry.data@);
                        }
                        if let Err(error) = zip_write_all(&mut w, entry.data.as_slice()) {
                            return Err(ZipExportError::Write(io_error_text(&error)));
                        }
                        proof {
                            let last = started.last();
                            assert(zip_members(w) =~= started.update(started.len() - 1, (last.0, last.1, last.2, entry.data@)));
                        }
                        written = written + 1;
                    },
                }
            },
        }
        assert(zip_members(w) =~= pak_members(items@.take(i + 1)));
        i = i + 1;
    }
    assert(items@.take(i as int) =~= items@);
    Ok((w, written))
}

/// Packs the selected PAK entries into a ZIP archive for download: the
/// writer of `pak_zip_writer`, finished, and how many files it holds. Found
/// entries under distinct names after the slashes are turned, none too long,
/// and no file of 2 GiB or more: then packing succeeds.
pub fn pak_export_zip(items: &Vec<Option<PakExportEntry>>) -> (r: Result<(Vec<u8>, usize), ZipExportError>)
    ensures
        r matches Ok((b, written)) ==> archive_holds(b@, member_parts(pak_members(items@))) && written == pak_file_count(
            items@,
        ),
        zip_acceptable(pak_members(items@)) ==> r is Ok,
{
    let (w, written) = pak_zip_writer(items)?;
    proof {
        if zip_acceptable(pak_members(items@)) {
            assert forall|k: int| #![trigger zip_members(w)[k]] 0 <= k < zip_members(w).len() implies
                zip_data_fits(zip_members(w)[k]) by {
                assert(zip_members(w)[k] == pak_members(items@)[k]);
            }
        }
    }
    let bytes = finish_zip(w)?;
    Ok((bytes, written))
}

/// The file name under which several DZip volumes are downloaded together:
/// the main volume's name without `.dz`/`.dzip`, then `-volumes.zip`.
pub fn volumes_download_name(main_name: &str) -> (out: String)
    ensures
        out@ == spec_dzip_archive_stem(main_name@) + "-volumes.zip"@,
{
    let stem = dzip_archive_stem(main_name);
    let mut v = chars_of(stem.as_str());
    push_str(&mut v, "-volumes.zip");
    string_of_all(&v)
}

/// The file name under which entries extracted from a PAK archive are
/// downloaded: the archive's name up to its last dot, then `-extracted.zip`.
pub fn extracted_download_name(archive_name: &str) -> (out: String)
    ensures
        out@ == spec_archive_stem(archive_name@) + "-extracted.zip"@,
{
    let stem = pak_archive_stem(archive_name);
    let mut v = chars_of(stem.as_str());
    push_str(&mut v, "-extracted.zip");
    string_of_all(&v)
}


/// How built DZip volumes are saved: one volume as a single file, several
/// together (into a chosen folder, or bundled in one ZIP for download).
#[derive(Clone, Copy, Debug, PartialEq, Eq, Structural)]
pub enum VolumeSaving {
    Single,
    Together,
}

/// How `count` built volumes are saved; `None` when there is none, which
/// is an error.
pub fn volume_saving(count: usize) -> (r: Option<VolumeSaving>)
    ensures
        count == 0 ==> r is None,
        count == 1 ==> r == Some(VolumeSaving::Single),
        count > 1 ==> r == Some(VolumeSaving::Together),
{
    if count == 0 {
        None
    } else if count == 1 {
        Some(VolumeSaving::Single)
    } else {
        Some(VolumeSaving::Together)
    }
}

} // verus!
