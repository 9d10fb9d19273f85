use toolkit_logic::listing::{listing_page, page_window, PageWindow, RECORD_PAGE_SIZE};
use toolkit_logic::status::{validation_status, AppStatus, StatusTone};
use toolkit_logic::compiled::{
    compiled_output_name, detect_source_kind as detect_compiled, parse_compression_level, plain_output_name,
    EncodeState, SourceKind as TextKind,
};
use toolkit_logic::crypt::{
    declared_raw_size, detect_source_kind, needs_processing, operation_label, output_kind, output_name,
    preview_lines, SourceKind, TransformMode,
};
use toolkit_logic::newton::{
    manifest_export_name, new_record_id, nonempty, optional_u32_text, parse_optional_i32, parse_optional_u32,
    resource_type_from_key, resource_type_key, resource_type_short, selection_after_group_delete,
    unique_group_id, ManifestFormat, ResourceType,
};
use toolkit_logic::particle::{
    emitter_image_label, emitter_name, particle_summary, trail_summary, EmitterOverview,
    emitter_track_count, emitter_track_names, emitter_track_node_count, shown_tracks, track_node_count,
    trail_track_names,
    binary_output_name, decode_route, document_stem, emitter_removal, looks_like_trail_xml, looks_like_xml,
    new_emitter_name, parse_version, unsaved, version_code, xml_output_name, DecodeRoute, DocumentKind,
    ParticlesVersion,
};
use toolkit_logic::tabs::{close_request, closing_plan, CloseRequest};

const MAGIC: &[u8] = b"CRYPT_RES\n\0";

#[test]
fn detects_magic_and_reads_declared_size() {
    let mut wrapped = MAGIC.to_vec();
    wrapped.extend_from_slice(&600u64.to_le_bytes());
    wrapped.extend_from_slice(&[7; 32]);
    let header = MAGIC.len() + 8;
    assert_eq!(detect_source_kind(&wrapped, MAGIC), SourceKind::Wrapped);
    assert_eq!(declared_raw_size(&wrapped, MAGIC, header), Some(600));
    assert_eq!(detect_source_kind(&[1; 600], MAGIC), SourceKind::Raw);
    assert_eq!(declared_raw_size(&[1; 600], MAGIC, header), None);
    assert_eq!(declared_raw_size(&wrapped[..header - 1], MAGIC, header), None);
    assert_eq!(declared_raw_size(&wrapped, MAGIC, header + 1), None);
}

#[test]
fn output_names_follow_cdat_conventions() {
    assert_eq!(output_name("data.bin", SourceKind::Raw), "data.bin.cdat");
    assert_eq!(output_name("data.cdat", SourceKind::Wrapped), "data");
    assert_eq!(output_name("data.bin", SourceKind::Wrapped), "data.bin.decrypted");
    assert_eq!(output_name("X.CDAT", SourceKind::Raw), "X.encrypted.cdat");
    assert_eq!(output_name(".cdat", SourceKind::Wrapped), "decrypted.bin");
}

#[test]
fn preview_is_bounded() {
    let data = vec![0; 1024];
    assert_eq!(preview_lines(&data).len(), 8);
}

#[test]
fn preview_lines_show_offsets_bytes_and_text() {
    let data: Vec<u8> = b"Hi!\x00 world, this is seventeen".to_vec();
    let lines = preview_lines(&data);
    assert_eq!(lines.len(), 2);
    assert_eq!(lines[0].offset, "00000000");
    assert_eq!(lines[1].offset, "00000010");
    assert_eq!(&lines[0].bytes[..14], "48 69 21 00 20");
    assert_eq!(lines[0].ascii.chars().take(6).collect::<String>(), "Hi!· w");
    assert_eq!(lines[1].ascii.chars().count(), 13);
}

#[test]
fn output_kind_forecasts_wrapping_before_processing() {
    for limit in [1024, 4096, 1 << 20] {
        assert_eq!(output_kind(SourceKind::Raw, limit, limit, None, MAGIC), "CRYPT_RES");
        assert_eq!(output_kind(SourceKind::Raw, limit - 1, limit, None, MAGIC), "透传文件");
    }
    let limit = 1024;
    assert_eq!(output_kind(SourceKind::Raw, 1, limit, Some(MAGIC), MAGIC), "CRYPT_RES");
    assert_eq!(output_kind(SourceKind::Wrapped, 1, limit, None, MAGIC), "原始文件");
    assert_eq!(operation_label(SourceKind::Wrapped), "解密");
    assert_eq!(SourceKind::Raw.mode(), TransformMode::Encrypt);
    assert!(needs_processing(false, "k", "k", 1, 1));
    assert!(needs_processing(true, "k", "j", 1, 1));
    assert!(!needs_processing(true, "k", "k", 1, 1));
}

#[test]
fn detects_compiled_text_without_requiring_an_extension() {
    let encoded = b"QUFBQUFBQUFBQUFBQUFBQUFBQUFBQUFB";
    assert_eq!(detect_compiled("data", encoded), TextKind::Compiled);
    assert_eq!(detect_compiled("data.txt", b"hello"), TextKind::Plain);
    assert_eq!(detect_compiled("data.compiled", b"not base64"), TextKind::Compiled);
    assert_eq!(detect_compiled("x", b"QUFB\nQUFB QUFB\tQUFBQUFBQUFBQUFBQUFB"), TextKind::Compiled);
    assert_eq!(detect_compiled("x", b"QUFBQQ=="), TextKind::Plain);
}

#[test]
fn output_names_are_stable() {
    assert_eq!(plain_output_name("data.txt.compiled"), "data.txt");
    assert_eq!(compiled_output_name("data.txt"), "data.txt.compiled");
    assert_eq!(plain_output_name("a.COMPILED.txt"), "a.txt");
    assert_eq!(plain_output_name(".compiled"), "decoded.txt");
    assert_eq!(plain_output_name(""), "decoded.txt");
    assert_eq!(compiled_output_name(""), "untitled.txt.compiled");
    assert_eq!(compiled_output_name("b.Compiled"), "b.Compiled");
    assert_eq!(parse_compression_level("9"), Some(9));
    assert_eq!(parse_compression_level("10"), None);
}

#[test]
fn edits_make_encoded_output_stale() {
    let mut state = EncodeState { generation: 4, has_encoded: false, encoded_generation: None };
    assert!(!state.current());
    state.encoded(4);
    assert!(state.current());
    state.edited();
    assert!(!state.current());
    let mut wrap = EncodeState { generation: u64::MAX, has_encoded: true, encoded_generation: Some(u64::MAX) };
    wrap.edited();
    assert_eq!(wrap.generation, 0);
    assert!(!wrap.current());
}

#[test]
fn format_detection_and_export_names_follow_extensions() {
    assert_eq!(ManifestFormat::from_file_name("RESOURCES.NEWTON"), ManifestFormat::Newton);
    assert_eq!(ManifestFormat::from_file_name("resources.JSON"), ManifestFormat::Json);
    assert_eq!(ManifestFormat::from_file_name("resources.yml"), ManifestFormat::Yaml);
    assert_eq!(ManifestFormat::from_file_name("resources.toml"), ManifestFormat::Toml);
    assert_eq!(
        manifest_export_name("folder/RESOURCES.NEWTON", ManifestFormat::Yaml),
        "RESOURCES.yaml"
    );
    assert_eq!(manifest_export_name("a\\b\\pack", ManifestFormat::Newton), "RESOURCES.NEWTON");
    assert_eq!(manifest_export_name("x.y.json", ManifestFormat::Json), "x.y.json");
    assert_eq!(ManifestFormat::Yaml.filter_extensions(), vec!["yaml", "yml"]);
}

#[test]
fn new_identifiers_are_fresh() {
    let ids = vec!["NEW_GROUP".to_string(), "NEW_GROUP_2".to_string(), "OTHER".to_string()];
    assert_eq!(unique_group_id(&ids, "NEW_GROUP"), "NEW_GROUP_3");
    assert_eq!(unique_group_id(&ids, "NEW_COMPOSITE"), "NEW_COMPOSITE");
    assert_eq!(new_record_id(true, 0), "NEW_SUBGROUP_1");
    assert_eq!(new_record_id(false, 4), "NEW_RESOURCE_5");
    assert_eq!(selection_after_group_delete(5, 3), (2, 0));
    assert_eq!(selection_after_group_delete(0, 0), (0, 0));
    assert_eq!(selection_after_group_delete(200, 300), (200, 1));
}

#[test]
fn optional_fields_and_resource_types() {
    assert_eq!(parse_optional_u32("  "), None);
    assert_eq!(parse_optional_u32("12"), Some(12));
    assert_eq!(parse_optional_u32(" 12"), None);
    assert_eq!(parse_optional_i32("-3"), Some(-3));
    assert_eq!(optional_u32_text(None), "");
    assert_eq!(optional_u32_text(Some(64)), "64");
    assert_eq!(nonempty(" ".to_string()), None);
    assert_eq!(nonempty("a".to_string()), Some("a".to_string()));
    assert_eq!(resource_type_from_key(resource_type_key(ResourceType::DecodedSoundBank)), Some(ResourceType::DecodedSoundBank));
    assert_eq!(resource_type_from_key("image"), None);
    assert_eq!(resource_type_short(ResourceType::PopAnim), "PAM");
}

#[test]
fn detects_particle_and_trail_xml() {
    assert_eq!(
        decode_route("test.xml", Some("<Emitter><Name>A</Name></Emitter>")),
        DecodeRoute::ParticleXml
    );
    assert_eq!(decode_route("test.trail.xml", Some("<MaxPoints>20</MaxPoints>")), DecodeRoute::TrailXml);
    assert_eq!(decode_route("unknown.xml", Some("<Unknown />")), DecodeRoute::UnknownXml);
    assert_eq!(decode_route("fire.compiled", None), DecodeRoute::ParticleOrTrailBinary);
    assert_eq!(decode_route("Fire.TRAIL", Some("binary")), DecodeRoute::TrailBinary);
    assert!(looks_like_xml("\u{feff}  \n<a/>"));
    assert!(!looks_like_xml("a<"));
    assert!(looks_like_trail_xml("x<AlphaOverLife>"));
}

#[test]
fn output_names_do_not_stack_extensions() {
    assert_eq!(document_stem("fire.particle.compiled"), "fire");
    assert_eq!(document_stem("ice.trail.xml"), "ice");
    assert_eq!(document_stem(".xml"), "untitled");
    assert_eq!(xml_output_name("fire.compiled", DocumentKind::Particle), "fire.particle.xml");
    assert_eq!(binary_output_name("ice.TRAIL.XML", DocumentKind::Trail), "ice.trail.compiled");
}

#[test]
fn layouts_emitters_and_unsaved_drafts() {
    for v in [ParticlesVersion::Pc, ParticlesVersion::Phone32, ParticlesVersion::Phone64] {
        assert_eq!(parse_version(version_code(v)), v);
    }
    assert_eq!(parse_version("ps4"), ParticlesVersion::Pc);
    assert_eq!(new_emitter_name(1), "Emitter 2");
    assert_eq!(emitter_removal(9, 3), (2, 1));
    assert_eq!(emitter_removal(0, 1), (0, 0));
    assert_eq!(emitter_removal(1, 3), (1, 1));
    assert!(unsaved(false, "<a/>", "<b/>"));
    assert!(!unsaved(false, "<a/>", "<a/>"));
}

#[test]
fn closing_a_tab_activates_its_neighbour() {
    let ids = vec![3, 5, 8];
    assert_eq!(closing_plan(&ids, Some(5), 5), Some((1, Some(8))));
    assert_eq!(closing_plan(&ids, Some(8), 8), Some((2, Some(5))));
    assert_eq!(closing_plan(&ids, Some(3), 8), Some((2, Some(3))));
    assert_eq!(closing_plan(&vec![4], Some(4), 4), Some((0, None)));
    assert_eq!(closing_plan(&ids, Some(3), 9), None);
    assert_eq!(close_request(true), CloseRequest::Confirm);
}

fn emitter_tracks_with(present: &[(&str, usize)]) -> Vec<Option<usize>> {
    emitter_track_names()
        .into_iter()
        .map(|name| present.iter().find(|(n, _)| *n == name).map(|(_, count)| *count))
        .collect()
}

#[test]
fn summary_counts_track_nodes() {
    let tracks = emitter_tracks_with(&[("SpawnRate", 3), ("ParticleScale", 2)]);
    assert_eq!(emitter_track_count(&tracks), 2);
    assert_eq!(emitter_track_node_count(&tracks, &Vec::new()), 5);
}

#[test]
fn empty_tracks_are_not_listed_and_fields_add_their_nodes() {
    let tracks = emitter_tracks_with(&[("SystemDuration", 0), ("ClipTop", 4)]);
    assert_eq!(emitter_track_count(&tracks), 1);
    let listed = shown_tracks(&tracks);
    assert_eq!(listed.len(), 1);
    assert_eq!(emitter_track_names()[listed[0]], "ClipTop");
    assert_eq!(emitter_track_node_count(&tracks, &vec![Some(2), None, Some(3)]), 9);
    assert_eq!(emitter_track_names().len(), 38);
    assert_eq!(trail_track_names(), vec!["WidthOverLength", "WidthOverLife", "AlphaOverLength", "AlphaOverLife"]);
    assert_eq!(track_node_count(&vec![None, Some(6), Some(0), Some(1)]), 7);
}

#[test]
fn document_summaries_count_emitters_nodes_and_images() {
    let emitters = vec![
        EmitterOverview { track_nodes: 5, has_image: true },
        EmitterOverview { track_nodes: 0, has_image: false },
        EmitterOverview { track_nodes: 7, has_image: true },
    ];
    let summary = particle_summary(&emitters, ParticlesVersion::Phone64);
    assert_eq!(summary.subtitle, "3 个发射器");
    assert_eq!(summary.primary_label, "发射器");
    assert_eq!(summary.primary_value, "3");
    assert_eq!(summary.track_nodes, 12);
    assert_eq!(summary.images, 2);
    assert_eq!(summary.format_label, "Mobile · 64-bit");

    let trail = trail_summary(20, 4, true);
    assert_eq!(trail.subtitle, "最多 20 个轨迹点");
    assert_eq!(trail.primary_value, "20");
    assert_eq!(trail.images, 1);
    assert_eq!(trail.format_label, "Trail");
    let negative = trail_summary(-3, 0, false);
    assert_eq!(negative.subtitle, "最多 -3 个轨迹点");
    assert_eq!(negative.primary_value, "0");
    assert_eq!(negative.images, 0);
}

#[test]
fn emitter_names_and_images_fall_back_in_order() {
    assert_eq!(emitter_name(&Some("Fire".to_string()), 4), "Fire");
    assert_eq!(emitter_name(&None, 4), "Emitter 5");
    assert_eq!(emitter_image_label(&Some("12".to_string()), &Some("a.png".to_string())), "12");
    assert_eq!(emitter_image_label(&None, &Some("a.png".to_string())), "a.png");
    assert_eq!(emitter_image_label(&None, &None), "No image");
}

#[test]
fn status_tones_and_validation_messages() {
    assert_eq!(StatusTone::Success.class(), "ok");
    assert_eq!(StatusTone::Success.document_class(), "success");
    assert_eq!(StatusTone::Warning.class(), "warning");
    assert_eq!(StatusTone::default(), StatusTone::Neutral);
    let empty = AppStatus::default();
    assert!(empty.message.is_empty());
    let passed = validation_status(0, 0);
    assert_eq!(passed.message, "清单校验通过。");
    assert_eq!(passed.tone, StatusTone::Success);
    let warned = validation_status(0, 2);
    assert_eq!(warned.message, "校验完成：0 个错误，2 个警告。");
    assert_eq!(warned.tone, StatusTone::Warning);
    assert_eq!(validation_status(3, 1).tone, StatusTone::Error);
}

#[test]
fn declaring_the_source_kind_sets_the_current_output() {
    let compiled = EncodeState::opened(TextKind::Compiled);
    assert!(compiled.current());
    let mut plain = EncodeState::opened(TextKind::Plain);
    assert!(!plain.current());
    assert_eq!(plain.generation, 0);
    plain.source_kind_changed(TextKind::Compiled);
    assert_eq!(plain.generation, 1);
    assert!(plain.current());
    plain.source_kind_changed(TextKind::Plain);
    assert_eq!(plain.generation, 2);
    assert!(!plain.current());
    assert_eq!(plain.encoded_generation, None);
}

#[test]
fn manifest_lists_filter_case_insensitively_and_page() {
    let groups: Vec<Vec<String>> = ["ALPHA", "beta", "Gamma_Alpha"].iter().map(|id| vec![id.to_string()]).collect();
    let (page, total, window) = listing_page(&groups, "  alpha ", 0, 120);
    assert_eq!(page, vec![0, 2]);
    assert_eq!(total, 2);
    assert_eq!(window, PageWindow { page_count: 1, page: 0, start: 0, end: 2, first_shown: 1 });
    let (all, all_total, _) = listing_page(&groups, "", 0, 120);
    assert_eq!(all, vec![0, 1, 2]);
    assert_eq!(all_total, 3);

    let resources = vec![
        vec!["LOGO".to_string(), "images/logo.png".to_string(), "Image".to_string()],
        vec!["CLICK".to_string(), "sounds/click".to_string(), "Sound".to_string()],
    ];
    assert_eq!(listing_page(&resources, "SOUND", 0, RECORD_PAGE_SIZE).0, vec![1]);
    assert_eq!(listing_page(&resources, "png", 0, RECORD_PAGE_SIZE).0, vec![0]);
    assert_eq!(listing_page(&resources, "none", 0, RECORD_PAGE_SIZE).1, 0);

    assert_eq!(page_window(250, 5, 120), PageWindow { page_count: 3, page: 2, start: 240, end: 250, first_shown: 241 });
    assert_eq!(page_window(0, 3, 120), PageWindow { page_count: 1, page: 0, start: 0, end: 0, first_shown: 0 });
    assert_eq!(page_window(240, 1, 120), PageWindow { page_count: 2, page: 1, start: 120, end: 240, first_shown: 121 });
}

#[test]
fn compiled_and_plain_output_names_undo_each_other() {
    for name in ["notes", "data.txt", "Level.TXT", "a.b.c"] {
        assert_eq!(plain_output_name(&compiled_output_name(name)), name);
    }
    assert_eq!(compiled_output_name("x.COMPILED"), "x.COMPILED");
    assert_eq!(plain_output_name(&compiled_output_name("")), "untitled.txt");
}
