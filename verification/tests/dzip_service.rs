use toolkit_logic::dzip::service::{
    archive_stem, archive_volume_names, basename, is_main_archive_name, is_volume_name,
    normalize_archive_name, normalized_name, portable_path,
};

#[test]
fn archive_names_and_volume_names_are_stable() {
    assert_eq!(normalize_archive_name("game"), "game.dz");
    assert_eq!(normalize_archive_name("game.DZIP"), "game.DZIP");
    assert_eq!(
        archive_volume_names("game.dz", 3),
        ["game.dz", "game.001", "game.002"]
    );
}

#[test]
fn dzip_input_classification_is_strict() {
    assert!(is_main_archive_name("GAME.DZ"));
    assert!(is_main_archive_name("game.dzip"));
    assert!(is_volume_name("game.001"));
    assert!(!is_volume_name("game.txt"));
}

#[test]
fn blank_archive_names_fall_back_to_archive_dz() {
    assert_eq!(normalize_archive_name("   "), "archive.dz");
    assert_eq!(normalize_archive_name("  pack  "), "pack.dz");
    assert_eq!(normalize_archive_name("x.dzip "), "x.dzip");
}

#[test]
fn volume_names_keep_at_least_one_and_pad_to_three_digits() {
    assert_eq!(archive_volume_names("a", 0), ["a.dz"]);
    let names = archive_volume_names("a.DZIP", 1002);
    assert_eq!(names[1], "a.001");
    assert_eq!(names[999], "a.999");
    assert_eq!(names[1001], "a.1001");
}

#[test]
fn volume_matching_keys_are_trimmed_portable_and_lower_case() {
    assert_eq!(normalized_name("  Data\\GAME.001 "), "data/game.001");
    assert_eq!(basename("data/game.001"), "game.001");
    assert_eq!(basename("game.001"), "game.001");
    assert_eq!(basename("dir/"), "");
    assert_eq!(portable_path("a\\b\\c.png"), "a/b/c.png");
}

#[test]
fn archive_stem_drops_only_archive_extensions() {
    assert_eq!(archive_stem("game.DZ"), "game");
    assert_eq!(archive_stem("game.dzip"), "game");
    assert_eq!(archive_stem("game.zip"), "game.zip");
    assert!(!is_volume_name("game.01"));
    assert!(!is_volume_name("game"));
    assert!(is_volume_name("x.0001"));
}

use toolkit_logic::dzip::archive::{Compression, DraftEntry};
use toolkit_logic::dzip::volumes::{
    check_build_entries, match_auxiliary_volumes, segment_spans, source_size, BuildError, VolumeMatchError,
};

fn names(list: &[&str]) -> Vec<String> {
    list.iter().map(|name| name.to_string()).collect()
}

#[test]
fn volumes_match_by_normalized_name_in_volume_order() {
    let expected = names(&["game.001", "game.002"]);
    let supplied = names(&["GAME.002", " game.001 "]);
    assert_eq!(match_auxiliary_volumes(&expected, &supplied), Ok(vec![(1, 1), (2, 0)]));
}

#[test]
fn volumes_fall_back_to_the_file_name_and_may_be_missing() {
    let expected = names(&["data/game.001", "data/game.002"]);
    let supplied = names(&["other\\Game.001"]);
    assert_eq!(match_auxiliary_volumes(&expected, &supplied), Ok(vec![(1, 0)]));
    assert_eq!(match_auxiliary_volumes(&expected, &Vec::new()), Ok(Vec::new()));
}

#[test]
fn volume_matching_reports_each_error() {
    assert_eq!(
        match_auxiliary_volumes(&names(&["x/game.001"]), &names(&["a/game.001", "b/game.001"])),
        Err(VolumeMatchError::Ambiguous(0))
    );
    assert_eq!(
        match_auxiliary_volumes(&names(&["a.001"]), &names(&["A.001", "a.001"])),
        Err(VolumeMatchError::DuplicateVolume(1))
    );
    assert_eq!(
        match_auxiliary_volumes(&names(&["game.001"]), &names(&["zeta.009", "game.001", "Alpha.003"])),
        Err(VolumeMatchError::Unexpected(names(&["alpha.003", "zeta.009"])))
    );
}

fn entry(path: &str, volume: u16) -> DraftEntry {
    let mut entry = DraftEntry::replacement(1, path.to_string(), vec![1, 2, 3], Compression::Dz);
    entry.replace_volume(volume);
    entry
}

fn key(path: &str) -> Vec<u8> {
    path.trim().to_ascii_lowercase().into_bytes()
}

#[test]
fn build_checks_entries_then_volume_count() {
    assert_eq!(check_build_entries(&Vec::new(), &Vec::new(), 1), Err(BuildError::NoEntries));
    let entries = vec![entry("a.bin", 0), entry("  ", 0)];
    let keys = vec![key("a.bin"), key("  ")];
    assert_eq!(check_build_entries(&entries, &keys, 1), Err(BuildError::BlankPath(1)));
    let entries = vec![entry("a.bin", 0), entry("b.bin", 0), entry("A.BIN", 0)];
    let keys = entries.iter().map(|e| key(&e.path)).collect::<Vec<_>>();
    assert_eq!(check_build_entries(&entries, &keys, 1), Err(BuildError::DuplicatePath(2)));
    let entries = vec![entry("a.bin", 0), entry("b.bin", 3)];
    let keys = entries.iter().map(|e| key(&e.path)).collect::<Vec<_>>();
    assert_eq!(check_build_entries(&entries, &keys, 1), Ok(4));
    assert_eq!(check_build_entries(&entries, &keys, 9), Ok(9));
    assert_eq!(check_build_entries(&entries, &keys, 0), Ok(4));
    assert_eq!(check_build_entries(&entries, &keys, 70_000), Err(BuildError::TooManyVolumes));
}

#[test]
fn segment_spans_follow_recorded_lengths() {
    assert_eq!(segment_spans(&vec![3, 4], 7), Some(vec![(0, 3), (3, 7)]));
    assert_eq!(segment_spans(&vec![3, 4], 8), None);
    assert_eq!(segment_spans(&vec![usize::MAX, 1], 5), None);
    assert_eq!(segment_spans(&Vec::new(), 0), Some(Vec::new()));
}

#[test]
fn source_size_adds_every_volume() {
    assert_eq!(source_size(10, &vec![5, 6]), Some(21));
    assert_eq!(source_size(u64::MAX, &vec![1]), None);
    assert_eq!(source_size(7, &Vec::new()), Some(7));
}

use toolkit_logic::dzip::summary::{packed_size, unpacked_size, volume_counts};

#[test]
fn archive_figures_follow_loaded_volumes() {
    assert_eq!(unpacked_size(&vec![10, 20]), 30);
    assert_eq!(unpacked_size(&vec![u64::MAX - 1, 5, 7]), u64::MAX);
    assert_eq!(unpacked_size(&Vec::new()), 0);
    assert_eq!(packed_size(&vec![true, true], &vec![0, 2, 9], &vec![100, 200, 300]), Some(400));
    assert_eq!(packed_size(&vec![true, false], &vec![0], &vec![100]), None);
    assert_eq!(packed_size(&Vec::new(), &Vec::new(), &vec![1]), Some(0));
    assert_eq!(volume_counts(2, 2), (true, 3, 3));
    assert_eq!(volume_counts(3, 1), (false, 4, 2));
}

use toolkit_logic::dzip::archive::{entry_source, EntrySource, EntrySourceError, EntrySummary};

#[test]
fn entry_bytes_come_from_the_entry_or_its_source_archive() {
    let inline = DraftEntry::replacement(1, "a.bin".to_string(), vec![1], Compression::Dz);
    assert_eq!(entry_source(&inline, None), Ok(EntrySource::Inline));
    let kept = DraftEntry::from_summary(EntrySummary {
        id: 4,
        path: "b.bin".to_string(),
        size: 3,
        packed_size: None,
        compression: Compression::Dz,
        volume: 0,
        chunks: 1,
        segments: Vec::new(),
    });
    assert_eq!(entry_source(&kept, Some(9)), Ok(EntrySource::Session(9, 4)));
    assert_eq!(entry_source(&kept, None), Err(EntrySourceError::NoSourceArchive));
    let mut orphan = kept;
    orphan.source_id = None;
    assert_eq!(entry_source(&orphan, Some(9)), Err(EntrySourceError::NoSourceEntry));
}

use toolkit_logic::dzip::summary::draft_totals;
use toolkit_logic::dzip::workspace::grid_class;

fn kept_entry(packed: u64) -> DraftEntry {
    DraftEntry::from_summary(EntrySummary {
        id: 0,
        path: "a".to_string(),
        size: 10,
        packed_size: Some(packed),
        compression: Compression::Dz,
        volume: 0,
        chunks: 1,
        segments: Vec::new(),
    })
}

#[test]
fn draft_totals_know_the_packed_size_only_when_every_entry_does() {
    let fresh = DraftEntry::replacement(2, "b".to_string(), vec![0; 6], Compression::Dz);
    assert_eq!(draft_totals(&vec![kept_entry(4)]), (10, Some(4)));
    assert_eq!(draft_totals(&vec![kept_entry(4), fresh]), (16, None));
    let unknown_first = DraftEntry::replacement(3, "c".to_string(), vec![1], Compression::Dz);
    assert_eq!(draft_totals(&vec![unknown_first, kept_entry(u64::MAX), kept_entry(u64::MAX)]).1, None);
    assert_eq!(draft_totals(&Vec::new()), (0, Some(0)));
    assert_eq!(grid_class(true, false), "dzip-browser-grid no-inspector");
    assert_eq!(grid_class(false, false), "dzip-browser-grid no-tree no-inspector");
}

#[test]
fn refusals_carry_their_messages() {
    let entries = vec![entry("a.bin", 0), entry("A.BIN", 0)];
    let keys = entries.iter().map(|e| key(&e.path)).collect::<Vec<_>>();
    let error = check_build_entries(&entries, &keys, 1).unwrap_err();
    assert_eq!(error.message(&entries), "归档中存在重复路径：A.BIN");
    assert_eq!(BuildError::NoEntries.message(&Vec::new()), "请先向归档中添加至少一个文件");
    assert_eq!(BuildError::BlankPath(0).message(&entries), "归档路径不能为空");
    assert_eq!(BuildError::TooManyVolumes.message(&entries), "归档分卷数量超过 65535");

    let expected = names(&["x/game.001"]);
    let supplied = names(&["a/game.001", "b/game.001"]);
    let ambiguous = match_auxiliary_volumes(&expected, &supplied).unwrap_err();
    assert_eq!(ambiguous.message(&expected, &supplied), "分卷名称不明确：x/game.001");
    let supplied = names(&["zeta.009", "game.001", "Alpha.003"]);
    let unexpected = match_auxiliary_volumes(&names(&["game.001"]), &supplied).unwrap_err();
    assert_eq!(unexpected.message(&names(&["game.001"]), &supplied), "包含不属于该归档的分卷：alpha.003, zeta.009");
    let supplied = names(&["A.001", "a.001"]);
    let duplicate = match_auxiliary_volumes(&names(&["a.001"]), &supplied).unwrap_err();
    assert_eq!(duplicate.message(&names(&["a.001"]), &supplied), "存在重复分卷：a.001");
    assert_eq!(VolumeMatchError::VolumeIdOverflow.message(&Vec::new(), &Vec::new()), "分卷编号溢出");
}

#[test]
fn normalizing_twice_changes_nothing() {
    for value in ["game", "  game.DZIP ", "", "a.dz", "x.zip"] {
        let once = normalize_archive_name(value);
        assert_eq!(normalize_archive_name(&once), once);
    }
    let key = normalized_name(" Data\\GAME.001 ");
    assert_eq!(key, "data/game.001");
    assert_eq!(normalized_name(&key), key);
}
