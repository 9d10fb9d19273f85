use std::cmp::Ordering;

use toolkit_logic::browser::{compare_text, BrowserSort, BrowserSortDirection, BrowserSortKey};
use toolkit_logic::dzip::archive::{
    check_archive, parse_archive_settings, ArchiveCheck, Compression, DraftEntry, SettingsError,
};
use toolkit_logic::dzip::browser::{browser_rows, BrowserRowKind, BrowserSelection};
use toolkit_logic::dzip::edit::{delete_target, rename_target, set_entry_volume, NameError};
use toolkit_logic::dzip::paths::{breadcrumbs, file_name, join_path, parent_directory, replace_file_name};
use toolkit_logic::dzip::workspace::{
    all_directories, import_file, select_archive_files, tab_class, OpenError,
};
use toolkit_logic::tabs::advance_id;

fn entry(id: u64, path: &str, size: usize) -> DraftEntry {
    DraftEntry::replacement(id, path.to_string(), vec![0; size], Compression::Dz)
}

#[test]
fn path_helpers_use_portable_archive_separators() {
    assert_eq!(join_path("Data", "Images/logo.png"), "Data/Images/logo.png");
    assert_eq!(parent_directory("Data/Images"), "Data");
    assert_eq!(replace_file_name("Data/old.bin", "new.bin"), "Data/new.bin");
    assert_eq!(breadcrumbs("Data/Images")[1].1, "Data/Images");
}

#[test]
fn browser_sort_keeps_directories_first_and_uses_raw_sizes() {
    let entries = vec![
        DraftEntry::replacement(1, "z-small.bin".to_string(), vec![0], Compression::Dz),
        DraftEntry::replacement(2, "a-large.bin".to_string(), vec![0; 2_048], Compression::Dz),
        DraftEntry::replacement(3, "folder/item.bin".to_string(), vec![0; 16], Compression::Dz),
    ];
    let sort = BrowserSort {
        key: BrowserSortKey::Size,
        direction: BrowserSortDirection::Descending,
    };

    let rows = browser_rows(&entries, "", "", sort);
    assert_eq!(rows[0].kind, BrowserRowKind::Directory);
    assert_eq!(rows[1].name, "a-large.bin");
    assert_eq!(rows[2].name, "z-small.bin");
}

#[test]
fn browser_sort_toggles_active_key_direction() {
    let sort = BrowserSort::default().toggled(BrowserSortKey::Name);
    assert_eq!(sort.direction, BrowserSortDirection::Descending);
    let sort = sort.toggled(BrowserSortKey::Type);
    assert_eq!(sort.key, BrowserSortKey::Type);
    assert_eq!(sort.direction, BrowserSortDirection::Ascending);
}

#[test]
fn folder_rows_sum_sizes_and_count_files() {
    let mut entries = vec![entry(1, "data/a.bin", 10), entry(2, "data/sub/b.bin", 5), entry(3, "top.bin", 1)];
    entries[0].volume = 1;
    let rows = browser_rows(&entries, "", "", BrowserSort::default());
    assert_eq!(rows.len(), 2);
    assert_eq!(rows[0].name, "data");
    assert_eq!(rows[0].size, 15);
    assert_eq!(rows[0].detail, "2 个文件");
    assert_eq!(rows[0].volume, None);
    assert_eq!(rows[0].key, "d:data");
    assert_eq!(rows[0].selection, BrowserSelection::Directory("data".to_string()));
    assert_eq!(rows[1].key, "e:3");
    assert_eq!(rows[1].detail, "DZ · Volume 0");

    let inside = browser_rows(&entries, "/data/", "", BrowserSort::default());
    assert_eq!(inside.len(), 2);
    assert_eq!(inside[0].full_path, "data/sub");
    assert_eq!(inside[1].name, "a.bin");
}

#[test]
fn search_lists_matching_files_case_insensitively() {
    let entries = vec![entry(1, "Data/Logo.PNG", 1), entry(2, "music.ogg", 1), entry(3, "data/b.png", 1)];
    let rows = browser_rows(&entries, "", "  .png ", BrowserSort::default());
    assert_eq!(rows.len(), 2);
    assert_eq!(rows[0].name, "b.png");
    assert_eq!(rows[1].name, "Logo.PNG");
}

#[test]
fn names_compare_case_insensitively_then_exactly() {
    assert_eq!(compare_text("abc", "ABD"), Ordering::Less);
    assert_eq!(compare_text("B", "a"), Ordering::Greater);
    assert_eq!(compare_text("A", "a"), Ordering::Less);
    assert_eq!(compare_text("same", "same"), Ordering::Equal);
    let sort = BrowserSort { key: BrowserSortKey::Name, direction: BrowserSortDirection::Descending };
    assert_eq!(sort.apply(Ordering::Less), Ordering::Greater);
    assert_eq!(sort.aria_value(BrowserSortKey::Name), "descending");
    assert_eq!(sort.aria_value(BrowserSortKey::Size), "none");
    assert_eq!(sort.indicator(BrowserSortKey::Name), "↓");
}

#[test]
fn renaming_a_folder_moves_its_entries_and_the_browser() {
    let mut entries = vec![entry(1, "a/b/x.bin", 1), entry(2, "a/bc/y.bin", 1), entry(3, "a/b", 1)];
    let mut directory = "a/b/deep".to_string();
    let target = BrowserSelection::Directory("a/b".to_string());
    assert_eq!(rename_target(&mut entries, &mut directory, &target, " c "), Ok(true));
    assert_eq!(entries[0].path, "a/c/x.bin");
    assert_eq!(entries[1].path, "a/bc/y.bin");
    assert_eq!(entries[2].path, "a/b");
    assert_eq!(directory, "a/c/deep");
    assert_eq!(rename_target(&mut entries, &mut directory, &target, "x/y"), Err(NameError::Invalid));
    assert_eq!(rename_target(&mut entries, &mut directory, &target, "   "), Err(NameError::Invalid));

    let file = BrowserSelection::Entry(2);
    assert_eq!(rename_target(&mut entries, &mut directory, &file, "z.bin"), Ok(true));
    assert_eq!(entries[1].path, "a/bc/z.bin");
    assert_eq!(rename_target(&mut entries, &mut directory, &BrowserSelection::Entry(9), "q"), Ok(false));
}

#[test]
fn deleting_a_folder_removes_descendants_only() {
    let mut entries = vec![entry(1, "a/one", 1), entry(2, "ab/two", 1), entry(3, "a/x/three", 1)];
    let mut directory = "a/x".to_string();
    let removed = delete_target(&mut entries, &mut directory, &BrowserSelection::Directory("a".to_string()));
    assert_eq!(removed, 2);
    assert_eq!(entries.len(), 1);
    assert_eq!(entries[0].path, "ab/two");
    assert_eq!(directory, "");
    let removed = delete_target(&mut entries, &mut directory, &BrowserSelection::Entry(2));
    assert_eq!(removed, 1);
    assert!(entries.is_empty());
}

#[test]
fn pre_save_check_reports_duplicates_then_missing_volumes() {
    let mut entries = vec![entry(1, "a", 1), entry(2, "b", 1), entry(3, "A", 1)];
    let keys = vec![b"a".to_vec(), b"b".to_vec(), b"a".to_vec()];
    assert_eq!(check_archive(&entries, &keys, 1), ArchiveCheck::DuplicatePath(2));
    let keys = vec![b"a".to_vec(), b"b".to_vec(), b"c".to_vec()];
    entries[1].volume = 3;
    assert_eq!(check_archive(&entries, &keys, 2), ArchiveCheck::MissingVolume(1));
    assert_eq!(check_archive(&entries, &keys, 4), ArchiveCheck::Passed);
    assert_eq!(check_archive(&Vec::new(), &Vec::new(), 1), ArchiveCheck::Empty);
    assert!(!set_entry_volume(&mut entries, 1, 5, 4));
    assert!(set_entry_volume(&mut entries, 1, 2, 4));
    assert_eq!(entries[0].volume, 2);
}

#[test]
fn archive_settings_are_checked_in_order() {
    assert_eq!(parse_archive_settings("x", "1", "dz", false), Err(SettingsError::InvalidAlignment));
    assert_eq!(parse_archive_settings("4", "-1", "dz", false), Err(SettingsError::InvalidVolumeCount));
    assert_eq!(parse_archive_settings("4", "0", "dz", false), Err(SettingsError::VolumeCountOutOfRange));
    assert_eq!(parse_archive_settings("4", "65536", "dz", false), Err(SettingsError::VolumeCountOutOfRange));
    assert_eq!(parse_archive_settings("4", "2", "gzip", false), Err(SettingsError::InvalidCompression));
    let settings = parse_archive_settings("16", "+3", "lzma", true).unwrap();
    assert_eq!(settings.alignment, 16);
    assert_eq!(settings.volume_count, 3);
    assert_eq!(settings.default_compression, Compression::Lzma);
    assert!(settings.use_common_buffer);
}

#[test]
fn folder_tree_lists_each_folder_once_in_order() {
    let entries = vec![entry(1, "b/c/x", 1), entry(2, "a\\y", 1), entry(3, "b/z", 1), entry(4, "top", 1)];
    assert_eq!(all_directories(&entries), ["a", "b", "b/c"]);
}

#[test]
fn opening_needs_exactly_one_main_archive() {
    let names = vec!["B.002".to_string(), "game.DZ".to_string(), "readme.txt".to_string(), "a.001".to_string()];
    let (main, volumes) = select_archive_files(&names).unwrap();
    assert_eq!(main, 1);
    assert_eq!(volumes, [3, 0]);
    assert_eq!(select_archive_files(&vec!["x.001".to_string()]), Err(OpenError::NoMainArchive));
    let two = vec!["a.dz".to_string(), "b.dzip".to_string()];
    assert_eq!(select_archive_files(&two), Err(OpenError::SeveralMainArchives));
}

#[test]
fn importing_replaces_equal_keys_and_appends_others() {
    let mut entries = vec![entry(1, "data/a.bin", 1)];
    let mut next = 7;
    let keys = vec![b"data/a.bin".to_vec()];
    let replaced = import_file(&mut entries, &mut next, &keys, "data", "a.bin", &b"data/a.bin".to_vec(), vec![1, 2, 3], Compression::Zlib);
    assert_eq!(replaced, Some(0));
    assert_eq!(entries[0].size, 3);
    assert_eq!(next, 7);
    let keys = vec![b"data/a.bin".to_vec()];
    let replaced = import_file(&mut entries, &mut next, &keys, "data/", "b.bin", &b"data/b.bin".to_vec(), vec![9], Compression::Zlib);
    assert_eq!(replaced, None);
    assert_eq!(entries[1].path, "data/b.bin");
    assert_eq!(entries[1].id, 7);
    assert_eq!(entries[1].compression, Compression::Zlib);
    assert_eq!(next, 8);
    assert_eq!(advance_id(u64::MAX), 1);
    assert_eq!(tab_class(true, false), "dzip-tab ui-document-tab is-active");
}

#[test]
fn joined_paths_split_back_into_directory_and_name() {
    let joined = join_path("/a\\b/", "c.bin");
    assert_eq!(joined, "a\\b/c.bin");
    assert_eq!(file_name(&joined), "c.bin");
    assert_eq!(parent_directory(&joined), "a\\b");
    let top = join_path("", "c.bin");
    assert_eq!(file_name(&top), "c.bin");
    assert_eq!(parent_directory(&top), "");
}

#[test]
fn volumes_with_equal_lower_case_names_keep_their_order() {
    let names: Vec<String> = ["b.001", "game.dz", "A.002", "a.002"].iter().map(|n| n.to_string()).collect();
    let (main, volumes) = select_archive_files(&names).unwrap();
    assert_eq!(main, 1);
    assert_eq!(volumes, vec![2, 3, 0]);
    assert_eq!(OpenError::NoMainArchive.message(), "请选择一个 .dz 或 .dzip 主文件");
    assert_eq!(OpenError::SeveralMainArchives.message(), "一次只能打开一个 DZip 主文件；请分别打开多个归档");
}
