use toolkit_logic::bnk::labels::{
    kind_composition,
    bank_tab_class, chunk_id_label, hierarchy_kind_label, inspector_title, looks_like_wem,
    normalized_bnk_name, user_facing_validation_error, BankSelection, BrowserSection, HierarchyKind,
    ParseMode,
};
use toolkit_logic::bnk::listing::{
    chunk_row, chunk_search, hierarchy_row, hierarchy_search, hierarchy_title, media_row, media_span,
    page_clamp, parse_header_fields, section_selection, summarize_media, visible_indices, visible_window,
    summarize_chunks, summarize_hierarchy, ChunkInfo, ChunkText, HeaderError, HierarchyObjectInfo, MediaError,
    MediaIndexEntry, MediaSpan,
};

fn sample_chunks() -> Vec<ChunkInfo> {
    vec![
        ChunkInfo::Hierarchy(vec![HierarchyObjectInfo {
            kind: HierarchyKind::Unknown,
            type_code: 250,
            id: 42,
            detail: "3 B 原始载荷".to_string(),
        }]),
        ChunkInfo::MediaIndex(vec![MediaIndexEntry { id: 99, offset: 0, size: 3 }]),
        ChunkInfo::MediaData(3),
        ChunkInfo::Other,
    ]
}

fn sample_chunk_texts() -> Vec<ChunkText> {
    vec![
        ChunkText { title: chunk_id_label(Some("HIRC"), b"HIRC"), detail: "1 个层级对象".to_string() },
        ChunkText { title: chunk_id_label(Some("DIDX"), b"DIDX"), detail: "1 个媒体索引".to_string() },
        ChunkText { title: chunk_id_label(Some("DATA"), b"DATA"), detail: "3 B 媒体数据".to_string() },
        ChunkText { title: chunk_id_label(None, b"TEST"), detail: "2 B 未知数据".to_string() },
    ]
}

#[test]
fn export_names_are_normalized_to_bnk() {
    assert_eq!(normalized_bnk_name("Init.BNK"), "Init.bnk");
    assert_eq!(normalized_bnk_name("soundbank"), "soundbank.bnk");
}

#[test]
fn replacement_media_requires_a_wem_riff_container() {
    assert!(looks_like_wem(b"RIFF\x04\0\0\0WAVE"));
    assert!(looks_like_wem(b"RIFX\0\0\0\x04WAVE"));
    assert!(!looks_like_wem(b"OggS\0\0\0\0WAVE"));
    assert!(!looks_like_wem(b"RIFF"));
}

#[test]
fn document_builds_bounded_browser_indexes() {
    let chunks = sample_chunks();
    assert_eq!(summarize_chunks(&sample_chunk_texts()).len(), 4);
    assert_eq!(summarize_hierarchy(&chunks).len(), 1);
    let media = summarize_media(&chunks);
    assert_eq!(media.len(), 1);
    assert_eq!(media[0].data_chunk, Some(2));
    assert_eq!(media[0].search, "99 wem 00000063");
    assert_eq!(
        media_span(&chunks, &media[0]),
        Ok(MediaSpan::Range { data_chunk: 2, begin: 0, end: 3 })
    );
}

#[test]
fn browser_search_matches_identifiers_and_chunk_names() {
    let hierarchy = summarize_hierarchy(&sample_chunks());
    assert_eq!(hierarchy[0].title, "Unknown #42");
    assert_eq!(hierarchy[0].search, "unknown 42 fa 3 b 原始载荷");
    assert_eq!((hierarchy[0].chunk_index, hierarchy[0].object_index), (0, 0));
    let searches: Vec<String> = hierarchy.into_iter().map(|row| row.search).collect();
    assert_eq!(visible_indices(&searches, "42", 0).1, 1);
    assert_eq!(visible_indices(&searches, "missing", 0).1, 0);
    let chunks = summarize_chunks(&sample_chunk_texts());
    assert_eq!(chunks[3].search, "test 2 b 未知数据");
    assert_eq!(chunks[1].index, 1);
    assert_eq!(hierarchy_search(hierarchy_kind_label(HierarchyKind::Unknown), 42, 250, "3 B 原始载荷"), "unknown 42 fa 3 b 原始载荷");
}

#[test]
fn media_ranges_are_checked_against_the_chunks() {
    let chunks = sample_chunks();
    let mut media = summarize_media(&chunks).pop().unwrap();
    media.offset = 2;
    let mut changed = chunks;
    changed[1] = ChunkInfo::MediaIndex(vec![MediaIndexEntry { id: 99, offset: 2, size: 3 }]);
    assert_eq!(media_span(&changed, &media), Err(MediaError::RangeOutside));
    changed[1] = ChunkInfo::MediaIndex(vec![MediaIndexEntry { id: 0, offset: 1, size: 0 }]);
    assert_eq!(media_span(&changed, &media), Ok(MediaSpan::Empty));
    media.entry_index = 4;
    assert_eq!(media_span(&changed, &media), Err(MediaError::EntryMissing));
    media.index_chunk = 0;
    assert_eq!(media_span(&changed, &media), Err(MediaError::NotIndexChunk));
    media.index_chunk = 9;
    assert_eq!(media_span(&changed, &media), Err(MediaError::IndexChunkMissing));
}

#[test]
fn pages_hold_one_hundred_sixty_rows() {
    let searches: Vec<String> = (0..400).map(|i| format!("row {i}")).collect();
    let (shown, total) = visible_window(&searches, "", 1);
    assert_eq!(total, 400);
    assert_eq!(shown.len(), 160);
    assert_eq!(shown[0], 160);
    let (last, _) = visible_window(&searches, "", 2);
    assert_eq!(last.len(), 80);
    assert_eq!(visible_window(&searches, "row 39", 0).1, 11);
    assert_eq!(page_clamp(400, 9), (2, 3));
    assert_eq!(page_clamp(0, 5), (0, 1));
    assert_eq!(page_clamp(160, 0), (0, 1));
}

#[test]
fn rows_and_labels() {
    let row = chunk_row(3, "DATA".to_string(), "3 B 媒体数据".to_string());
    assert_eq!(row.key, "chunk-3");
    assert_eq!(row.meta, "#4");
    let row = hierarchy_row(0, 7, 0x0b, hierarchy_title("Sound", 42), String::new());
    assert_eq!(row.key, "hirc-0-7");
    assert_eq!(row.meta, "0x0B");
    assert_eq!(row.title, "Sound #42");
    let media = summarize_media(&sample_chunks()).pop().unwrap();
    let row = media_row(&media, "3 B".to_string());
    assert_eq!(row.title, "99.wem");
    assert_eq!(row.detail, "DATA + 0");
    assert_eq!(row.key, "media-1-0");
    assert_eq!(chunk_search("DATA", "Ünknown"), "data ünknown");
    assert_eq!(chunk_id_label(Some("BKHD"), b"BKHD"), "BKHD");
    assert_eq!(chunk_id_label(None, b"TEST"), "TEST");
    assert_eq!(chunk_id_label(None, &[0x00, 0xff, 0x41, 0x20]), "00 FF 41 20");
    assert_eq!(inspector_title(BankSelection::Chunk(1)), "数据块");
    assert_eq!(bank_tab_class(true, true), "bnk-tab ui-document-tab is-active has-changes");
    assert_eq!(ParseMode::LosslessFallback.label(), "保留模式");
    assert_eq!(BrowserSection::Media.glyph(), "audio");
    assert_eq!(
        section_selection(BrowserSection::Hierarchy, Some(0), Some((2, 5)), None),
        BankSelection::Hierarchy { chunk_index: 2, object_index: 5 }
    );
    assert_eq!(section_selection(BrowserSection::Media, Some(0), None, None), BankSelection::Overview);
}

#[test]
fn header_fields_and_messages() {
    assert_eq!(parse_header_fields(" 7 ", "0"), Ok((7, 0)));
    assert_eq!(parse_header_fields("x", "0"), Err(HeaderError::BankId));
    assert_eq!(parse_header_fields("1", "4294967296"), Err(HeaderError::Language));
    assert_eq!(
        user_facing_validation_error("Twinning's model needs Twinning chunk sequence"),
        "the strict format model needs strict chunk sequence"
    );
    assert_eq!(
        user_facing_validation_error("Twinning requires Twinning"),
        "the format specification requires the format specification"
    );
}

#[test]
fn overview_composition_counts_kinds_in_label_order() {
    let kinds = vec![HierarchyKind::Sound, HierarchyKind::Event, HierarchyKind::Sound, HierarchyKind::ActorMixer];
    assert_eq!(
        kind_composition(&kinds),
        vec![("Actor Mixer".to_string(), 1), ("Event".to_string(), 1), ("Sound".to_string(), 2)]
    );
    assert!(kind_composition(&Vec::new()).is_empty());
    let many = vec![
        HierarchyKind::Unknown,
        HierarchyKind::StatefulPropertySetting,
        HierarchyKind::EventAction,
        HierarchyKind::Event,
        HierarchyKind::DialogueEvent,
        HierarchyKind::Attenuation,
        HierarchyKind::LowFrequencyOscillatorModulator,
        HierarchyKind::EnvelopeModulator,
        HierarchyKind::TimeModulator,
        HierarchyKind::Effect,
        HierarchyKind::Source,
        HierarchyKind::AudioDevice,
        HierarchyKind::AudioBus,
        HierarchyKind::AuxiliaryAudioBus,
    ];
    let shown = kind_composition(&many);
    assert_eq!(shown.len(), 12);
    assert_eq!(shown[0].0, "Attenuation");
    assert_eq!(shown[10].0, "Source");
    assert_eq!(shown[11].0, "Stateful Property");
    assert!(shown.iter().all(|(_, count)| *count == 1));
}

#[test]
fn media_errors_carry_their_messages() {
    assert_eq!(MediaError::IndexChunkMissing.message(), "DIDX 块已经不存在");
    assert_eq!(MediaError::RangeOutside.message(), "媒体范围超出 DATA 块");
    assert_eq!(MediaError::NoDataChunk.message(), "DIDX 后没有相邻 DATA 块");
}

#[test]
fn header_errors_name_the_field_and_its_range() {
    assert_eq!(
        HeaderError::BankId.message("invalid digit found in string"),
        "Bank ID 必须是 0–4294967295 的整数：invalid digit found in string"
    );
    assert_eq!(
        HeaderError::Language.message("number too large to fit in target type"),
        "Language ID 必须是 0–4294967295 的整数：number too large to fit in target type"
    );
}
