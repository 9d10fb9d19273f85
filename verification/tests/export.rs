use std::io::{Cursor, Read};

use toolkit_logic::export::{
    extracted_download_name, finish_zip, pak_export_zip, pak_zip_writer, store_zip, stored_zip_writer, volume_saving, volumes_download_name, NamedBytes,
    PakExportEntry, VolumeSaving, ZipExportError,
};
use toolkit_logic::pak::model::{archive_stem, PakEntryKind};

fn read_back(bytes: Vec<u8>) -> Vec<(String, Vec<u8>)> {
    let mut archive = zip::ZipArchive::new(Cursor::new(bytes)).unwrap();
    let mut out = Vec::new();
    for index in 0..archive.len() {
        let mut file = archive.by_index(index).unwrap();
        let mut data = Vec::new();
        file.read_to_end(&mut data).unwrap();
        out.push((file.name().unwrap().to_string(), data));
    }
    out
}

#[test]
fn stored_zip_holds_each_file_under_a_portable_name() {
    let files = vec![
        NamedBytes { name: "game.dz".to_string(), bytes: vec![1, 2, 3] },
        NamedBytes { name: "sub\\game.001".to_string(), bytes: b"volume".to_vec() },
    ];
    let bytes = store_zip(&files).unwrap();
    assert_eq!(&bytes[..4], b"PK\x03\x04");
    assert_eq!(
        read_back(bytes),
        vec![
            ("game.dz".to_string(), vec![1, 2, 3]),
            ("sub/game.001".to_string(), b"volume".to_vec()),
        ]
    );
}

#[test]
fn stored_zip_refuses_a_repeated_name() {
    let files = vec![
        NamedBytes { name: "a/b".to_string(), bytes: vec![1] },
        NamedBytes { name: "a\\b".to_string(), bytes: vec![2] },
    ];
    assert!(matches!(store_zip(&files), Err(ZipExportError::StartFile(_))));
}

#[test]
fn pak_export_packs_found_entries_and_counts_files() {
    let items = vec![
        Some(PakExportEntry { path: "data".to_string(), kind: PakEntryKind::Directory, data: Vec::new() }),
        None,
        Some(PakExportEntry { path: "data\\a.txt".to_string(), kind: PakEntryKind::File, data: b"hello hello hello".to_vec() }),
        Some(PakExportEntry { path: "link".to_string(), kind: PakEntryKind::Symlink, data: b"data/a.txt".to_vec() }),
    ];
    let (bytes, written) = pak_export_zip(&items).unwrap();
    assert_eq!(written, 2);
    assert_eq!(
        read_back(bytes),
        vec![
            ("data/".to_string(), Vec::new()),
            ("data/a.txt".to_string(), b"hello hello hello".to_vec()),
            ("link".to_string(), b"data/a.txt".to_vec()),
        ]
    );
    let (empty, none_written) = pak_export_zip(&vec![None]).unwrap();
    assert_eq!(none_written, 0);
    assert!(read_back(empty).is_empty());
}

#[test]
fn download_names_drop_the_archive_extension() {
    assert_eq!(volumes_download_name("game.DZIP"), "game-volumes.zip");
    assert_eq!(volumes_download_name("game.dz"), "game-volumes.zip");
    assert_eq!(volumes_download_name("game"), "game-volumes.zip");
    assert_eq!(archive_stem("main.tar.pak"), "main.tar");
    assert_eq!(archive_stem("noext"), "noext");
    assert_eq!(archive_stem(".hidden"), "");
    assert_eq!(extracted_download_name("assets.pak"), "assets-extracted.zip");
}

#[test]
fn volumes_are_saved_singly_or_together() {
    assert_eq!(volume_saving(0), None);
    assert_eq!(volume_saving(1), Some(VolumeSaving::Single));
    assert_eq!(volume_saving(3), Some(VolumeSaving::Together));
}

#[test]
fn writers_finish_into_readable_archives() {
    let files = vec![NamedBytes { name: "x\\y.bin".to_string(), bytes: vec![9; 40] }];
    let bytes = finish_zip(stored_zip_writer(&files).unwrap()).unwrap();
    assert_eq!(read_back(bytes), vec![("x/y.bin".to_string(), vec![9; 40])]);
    let items = vec![Some(PakExportEntry { path: "d\\".to_string(), kind: PakEntryKind::Directory, data: Vec::new() })];
    let (writer, written) = pak_zip_writer(&items).unwrap();
    assert_eq!(written, 0);
    assert_eq!(read_back(finish_zip(writer).unwrap()), vec![("d/".to_string(), Vec::new())]);
}

#[test]
fn zip_errors_read_as_the_workspace_words_them() {
    let start = ZipExportError::StartFile("Duplicate filename".to_string());
    assert_eq!(start.stored_message(), "无法创建 ZIP 条目：Duplicate filename");
    assert_eq!(start.pak_message(), "无法创建导出文件：Duplicate filename");
    let write = ZipExportError::Write("Large file option has not been set".to_string());
    assert_eq!(write.stored_message(), "无法写入 ZIP 条目：Large file option has not been set");
    assert_eq!(write.pak_message(), "无法写入导出文件：Large file option has not been set");
    let finish = ZipExportError::Finish("x".to_string());
    assert_eq!(finish.stored_message(), "无法完成 ZIP：x");
    assert_eq!(finish.pak_message(), "无法完成导出 ZIP：x");
    assert_eq!(ZipExportError::Directory("y".to_string()).pak_message(), "无法创建导出目录：y");
}

#[test]
fn a_repeated_pak_name_is_refused_when_started() {
    let items = vec![
        Some(PakExportEntry { path: "a.txt".to_string(), kind: PakEntryKind::File, data: vec![1] }),
        Some(PakExportEntry { path: "a.txt".to_string(), kind: PakEntryKind::Symlink, data: vec![2] }),
    ];
    let error = pak_export_zip(&items).unwrap_err();
    assert!(matches!(error, ZipExportError::StartFile(_)));
    assert!(error.pak_message().starts_with("无法创建导出文件："));
    let dirs = vec![
        Some(PakExportEntry { path: "d".to_string(), kind: PakEntryKind::Directory, data: Vec::new() }),
        Some(PakExportEntry { path: "d/".to_string(), kind: PakEntryKind::Directory, data: Vec::new() }),
    ];
    assert!(matches!(pak_export_zip(&dirs), Err(ZipExportError::Directory(_))));
}

#[test]
fn a_name_past_the_header_limit_is_refused() {
    let files = vec![NamedBytes { name: "n".repeat(65505), bytes: vec![1] }];
    assert!(matches!(store_zip(&files), Err(ZipExportError::StartFile(_))));
    let files = vec![NamedBytes { name: "n".repeat(65504), bytes: vec![1] }];
    assert!(store_zip(&files).is_ok());
}

#[test]
fn each_entry_follows_its_header_in_order() {
    let files = vec![
        NamedBytes { name: "a".to_string(), bytes: vec![1, 2, 3] },
        NamedBytes { name: "b\\c".to_string(), bytes: vec![4, 5] },
    ];
    let bytes = store_zip(&files).unwrap();
    assert_eq!(&bytes[30..34], &[b'a', 1, 2, 3]);
    assert_eq!(&bytes[64..69], &[b'b', b'/', b'c', 4, 5]);
    let items = vec![
        Some(PakExportEntry { path: "d".to_string(), kind: PakEntryKind::Directory, data: Vec::new() }),
        Some(PakExportEntry { path: "x".to_string(), kind: PakEntryKind::File, data: vec![7; 100] }),
    ];
    let (bytes, _) = pak_export_zip(&items).unwrap();
    assert_eq!(&bytes[30..32], b"d/");
    assert_eq!(bytes[62], b'x');
    let mut archive = zip::ZipArchive::new(Cursor::new(bytes.clone())).unwrap();
    let mut raw = Vec::new();
    archive.by_index_raw(1).unwrap().read_to_end(&mut raw).unwrap();
    assert!(!raw.is_empty());
    assert_eq!(&bytes[63..63 + raw.len()], &raw[..]);
}
