use toolkit_logic::browser::{BrowserSort, BrowserSortDirection, BrowserSortKey};
use toolkit_logic::pak::browser::{archive_file_bytes, browser_rows, PakItem, PakSelection};
use toolkit_logic::pak::edit::{
    delete_plan, directory_name, file_count, indices_for_directory, join_path, new_folder_path,
    preview_kind, rename_plan, PakEditError, PreviewKind,
};
use toolkit_logic::pak::model::{
    compression_level_code, format_code, format_label, grid_class, normalized_pak_name, parse_compression_level,
    parse_format, parse_separator, separator_code, tab_class, unix_mode_label, CompressionLevel,
    FlatProfile, PakCompression, PakEntryKind, PakFormat, PathSeparator, ZipCompression,
};
use toolkit_logic::pak::time::PakTimestamp;
use toolkit_logic::pak::tree::all_directories;

fn file(path: &str, size: u64) -> PakItem {
    PakItem {
        path: path.to_string(),
        kind: PakEntryKind::File,
        size,
        zip_compression: None,
        timestamp: PakTimestamp::Unset,
    }
}

fn folder(path: &str) -> PakItem {
    PakItem {
        path: path.to_string(),
        kind: PakEntryKind::Directory,
        size: 0,
        zip_compression: None,
        timestamp: PakTimestamp::Unset,
    }
}

#[test]
fn browser_groups_nested_paths() {
    let items = vec![file("a/b.txt", 1), file("root.txt", 2)];
    let rows = browser_rows(&items, &Vec::new(), "", BrowserSort::default());
    assert_eq!(rows.len(), 2);
    assert!(matches!(rows[0].selection, PakSelection::Directory(_)));
}

#[test]
fn app_browser_sort_keeps_directories_first_and_uses_raw_sizes() {
    let items = vec![file("z-small.bin", 1), file("a-large.bin", 2_048), file("folder/item.bin", 16)];
    let sort = BrowserSort {
        key: BrowserSortKey::Size,
        direction: BrowserSortDirection::Descending,
    };

    let rows = browser_rows(&items, &Vec::new(), "", sort);
    assert!(matches!(rows[0].selection, PakSelection::Directory(_)));
    assert_eq!(rows[1].name, "a-large.bin");
    assert_eq!(rows[2].name, "z-small.bin");
}

#[test]
fn app_browser_sort_toggles_active_key_direction() {
    let sort = BrowserSort::default().toggled(BrowserSortKey::Name);
    assert_eq!(sort.direction, BrowserSortDirection::Descending);
    let sort = sort.toggled(BrowserSortKey::Type);
    assert_eq!(sort.key, BrowserSortKey::Type);
    assert_eq!(sort.direction, BrowserSortDirection::Ascending);
}

#[test]
fn directory_selection_covers_descendants_only() {
    let items = vec![file("a/one", 0), file("ab/two", 0)];
    assert_eq!(indices_for_directory(&items, &vec!["a".to_string()]), vec![0]);
}

#[test]
fn folders_count_nested_entries_and_their_bytes() {
    let mut items = vec![file("Data\\x.bin", 3), file("data/y/z.bin", 4), folder("data/empty/"), file("data/w.bin", 5)];
    items[0].zip_compression = Some(ZipCompression::Deflated);
    let dir = vec!["data".to_string()];
    let rows = browser_rows(&items, &dir, "", BrowserSort::default());
    assert_eq!(rows.len(), 3);
    assert_eq!(rows[0].name, "empty");
    assert_eq!(rows[0].detail, "0 个条目");
    assert_eq!(rows[1].name, "y");
    assert_eq!(rows[1].size, 4);
    assert_eq!(rows[1].key, "d:data/y");
    assert_eq!(rows[1].selection, PakSelection::Directory(vec!["data".to_string(), "y".to_string()]));
    assert_eq!(rows[2].name, "w.bin");
    assert_eq!(rows[2].key, "e:3");
    assert_eq!(rows[2].detail, "—");

    let found = browser_rows(&items, &dir, " X.BIN ", BrowserSort::default());
    assert_eq!(found.len(), 1);
    assert_eq!(found[0].full_path, "Data/x.bin");
    assert_eq!(found[0].detail, "Deflate");
    assert_eq!(file_count(&items), 3);
}

#[test]
fn folder_tree_orders_by_components() {
    let items = vec![file("b/c/x", 0), file("a\\y", 0), folder("b/d/"), file("b-z/q", 0), file("top", 0)];
    let dirs = all_directories(&items);
    let joined: Vec<String> = dirs.iter().map(|d| d.join("/")).collect();
    assert_eq!(joined, ["a", "b", "b/c", "b/d", "b-z"]);
}

#[test]
fn renames_and_deletions_are_planned_on_paths() {
    let items = vec![file("a/one", 0), folder("a/sub/"), file("ab/two", 0), file("a/sub/three", 0)];
    let plan = rename_plan(&items, &PakSelection::Directory(vec!["a".to_string()]), " b ").unwrap();
    let paths: Vec<(usize, String)> = plan;
    assert_eq!(paths, vec![(0, "b/one".to_string()), (1, "b/sub/".to_string()), (3, "b/sub/three".to_string())]);
    let single = rename_plan(&items, &PakSelection::Entry(2), "three").unwrap();
    assert_eq!(single, vec![(2, "ab/three".to_string())]);
    assert_eq!(rename_plan(&items, &PakSelection::Entry(9), "x"), Err(PakEditError::MissingEntry));
    assert_eq!(rename_plan(&items, &PakSelection::Directory(Vec::new()), "x"), Err(PakEditError::RootRename));
    assert_eq!(rename_plan(&items, &PakSelection::Entry(0), "a/b"), Err(PakEditError::InvalidName));
    assert_eq!(delete_plan(&items, &PakSelection::Directory(vec!["a".to_string()])), vec![3, 1, 0]);
    assert_eq!(delete_plan(&items, &PakSelection::Entry(2)), vec![2]);
}

#[test]
fn new_folders_need_a_tv_zip_archive() {
    let dir = vec!["data".to_string(), "img".to_string()];
    let zip = PakFormat::TvZip { compression: ZipCompression::Stored };
    let flat = PakFormat::Flat { profile: FlatProfile::Plain, compression: PakCompression::Zlib };
    assert_eq!(new_folder_path(&dir, " new ", zip), Ok("data/img/new".to_string()));
    assert_eq!(new_folder_path(&dir, "new", flat), Err(PakEditError::FlatFolder));
    assert_eq!(new_folder_path(&dir, "", zip), Err(PakEditError::InvalidName));
    assert_eq!(join_path(&Vec::new(), "x"), "x");
    assert_eq!(directory_name(&Vec::new()), "根目录");
    assert_eq!(directory_name(&dir), "img");
}

#[test]
fn format_codes_read_back_as_their_formats() {
    let formats = [
        PakFormat::Flat { profile: FlatProfile::PcXor, compression: PakCompression::Raw },
        PakFormat::Flat { profile: FlatProfile::PcXor, compression: PakCompression::Zlib },
        PakFormat::Flat { profile: FlatProfile::Plain, compression: PakCompression::Raw },
        PakFormat::Flat { profile: FlatProfile::Plain, compression: PakCompression::Zlib },
        PakFormat::Flat { profile: FlatProfile::Xbox360, compression: PakCompression::Raw },
        PakFormat::Flat { profile: FlatProfile::Xbox360, compression: PakCompression::Zlib },
        PakFormat::TvZip { compression: ZipCompression::Stored },
        PakFormat::TvZip { compression: ZipCompression::Deflated },
    ];
    for format in formats {
        assert_eq!(parse_format(format_code(format)), Some(format));
    }
    assert_eq!(format_label(formats[4]), "Xbox 360 · Raw");
    assert_eq!(parse_format("zip"), None);
    for level in [CompressionLevel::Fast, CompressionLevel::Default, CompressionLevel::Best] {
        assert_eq!(parse_compression_level(compression_level_code(level)), level);
    }
    assert_eq!(parse_compression_level("turbo"), CompressionLevel::Default);
    for separator in [PathSeparator::Preserve, PathSeparator::ForwardSlash, PathSeparator::Backslash] {
        assert_eq!(parse_separator(separator_code(separator)), separator);
    }
}

#[test]
fn names_labels_and_previews() {
    assert_eq!(normalized_pak_name("main"), "main.pak");
    assert_eq!(normalized_pak_name("MAIN.ZIP"), "MAIN.ZIP");
    assert_eq!(unix_mode_label(Some(0o755)), "755");
    assert_eq!(unix_mode_label(None), "—");
    assert_eq!(tab_class(false, true), "pak-tab ui-document-tab has-changes");
    assert_eq!(preview_kind("res/Thing.RTON"), Some(PreviewKind::Rton));
    assert_eq!(preview_kind("a.wem"), Some(PreviewKind::Wem));
    assert_eq!(preview_kind("x.newton"), Some(PreviewKind::Newton));
    assert_eq!(preview_kind("newton"), None);
    assert_eq!(preview_kind("a.txt"), None);
}

#[test]
fn raw_size_counts_files_but_not_directories() {
    let mut dir = folder("a");
    dir.size = 99;
    let items = vec![dir, file("a/b.txt", 5), file("c.txt", 7)];
    assert_eq!(archive_file_bytes(&items), 12);
    assert_eq!(archive_file_bytes(&Vec::new()), 0);
    assert_eq!(grid_class(true, true), "pak-browser-grid");
    assert_eq!(grid_class(false, true), "pak-browser-grid no-tree");
}

#[test]
fn edit_refusals_carry_their_messages() {
    assert_eq!(PakEditError::InvalidName.rename_message(), "名称不能为空，也不能包含路径分隔符");
    assert_eq!(PakEditError::RootRename.rename_message(), "重命名失败：不能重命名根目录");
    assert_eq!(PakEditError::MissingEntry.rename_message(), "重命名失败：条目不存在");
    assert_eq!(PakEditError::InvalidName.folder_message(), "文件夹名称不能为空，也不能包含路径分隔符");
    assert_eq!(
        PakEditError::FlatFolder.folder_message(),
        "Flat PAK 无法保存空目录；请直接添加带目录路径的文件，或转换为 TV ZIP"
    );
}
