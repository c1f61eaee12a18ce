use papyrus_language_server::cache::{next_entry, EntryPlan, ExtractionProgress};
use papyrus_language_server::config::{dialect_from_name, WorkspaceConfig};
use papyrus_language_server::content_hash::normalized_content_hash;
use papyrus_language_server::documents::DocumentStore;
use papyrus_language_server::discovery::{
    discovery_step, DiscoveryAction, DiscoveryEvent, DiscoveryState, StarfieldSources,
};
use papyrus_language_server::index_cache::{
    cache_hit, generation_id, generations_to_prune, is_generation_name, CacheCounters,
    CacheRecord, LimitedBuffer, RETAINED_GENERATIONS,
};
use papyrus_language_server::paths::{
    is_generated_source, percent_decode, percent_encode_path, PathStyle,
};
use papyrus_language_server::scanning::{
    admit_entry, admit_file, record_file, within_depth, IndexingLimits, ScanBudget,
};
use papyrus_language_server::structure::sanitize;
use papyrus_language_server::PapyrusDialect;

fn starfield() -> WorkspaceConfig {
    WorkspaceConfig {
        dialect: PapyrusDialect::Starfield,
        source_roots: vec!["/work".to_owned()],
        ..WorkspaceConfig::default()
    }
}

#[test]
fn dialect_names_are_lowercase_option_values() {
    assert_eq!(dialect_from_name("auto"), Some(PapyrusDialect::Auto));
    assert_eq!(dialect_from_name("skyrim"), Some(PapyrusDialect::Skyrim));
    assert_eq!(dialect_from_name("fallout4"), Some(PapyrusDialect::Fallout4));
    assert_eq!(dialect_from_name("starfield"), Some(PapyrusDialect::Starfield));
    assert_eq!(dialect_from_name("Starfield"), None);
    assert_eq!(dialect_from_name("unknown"), None);
}

#[test]
fn other_dialects_skip_creation_kit_discovery() {
    let config = WorkspaceConfig { dialect: PapyrusDialect::Skyrim, ..WorkspaceConfig::default() };
    let (state, action) =
        discovery_step(DiscoveryState::Start(config), DiscoveryEvent::Begin { cancelled: false });
    assert!(matches!(state, DiscoveryState::Done));
    match action {
        DiscoveryAction::Finish(c) => {
            assert_eq!(c.dialect, PapyrusDialect::Skyrim);
            assert!(c.discovered_import_directories.is_empty());
        }
        _ => panic!("expected the configuration unchanged"),
    }
}

#[test]
fn cancelled_preparation_stops_at_once() {
    let (_, action) =
        discovery_step(DiscoveryState::Start(starfield()), DiscoveryEvent::Begin { cancelled: true });
    assert!(matches!(action, DiscoveryAction::Cancel));
}

#[test]
fn installed_source_tree_is_imported_directly() {
    let (state, action) =
        discovery_step(DiscoveryState::Start(starfield()), DiscoveryEvent::Begin { cancelled: false });
    assert!(matches!(action, DiscoveryAction::Discover));
    let sources = StarfieldSources {
        source_directory: Some("/ck/Data/Scripts/Source".to_owned()),
        archive: Some("/ck/Tools/ContentResources.zip".to_owned()),
    };
    let (state, action) = discovery_step(
        state,
        DiscoveryEvent::Discovered { sources: Some(sources), cancelled: false },
    );
    assert!(matches!(state, DiscoveryState::Done));
    match action {
        DiscoveryAction::UseSourceTree { directory, config } => {
            assert_eq!(directory, "/ck/Data/Scripts/Source");
            assert_eq!(config.discovered_import_directories, vec!["/ck/Data/Scripts/Source".to_owned()]);
            assert_eq!(config.source_roots, vec!["/work".to_owned()]);
        }
        _ => panic!("expected the source tree"),
    }
}

#[test]
fn archive_is_materialized_and_its_root_imported() {
    let (state, _) =
        discovery_step(DiscoveryState::Start(starfield()), DiscoveryEvent::Begin { cancelled: false });
    let sources = StarfieldSources {
        source_directory: None,
        archive: Some("/ck/Tools/ContentResources.zip".to_owned()),
    };
    let (state, action) = discovery_step(
        state,
        DiscoveryEvent::Discovered { sources: Some(sources), cancelled: false },
    );
    match action {
        DiscoveryAction::MaterializeArchive(path) => assert_eq!(path, "/ck/Tools/ContentResources.zip"),
        _ => panic!("expected the archive"),
    }
    let (state, action) = discovery_step(
        state,
        DiscoveryEvent::Materialized { root: Some("/cache/Scripts/Source".to_owned()), cancelled: false },
    );
    assert!(matches!(state, DiscoveryState::Done));
    match action {
        DiscoveryAction::Finish(c) => {
            assert_eq!(c.discovered_import_directories, vec!["/cache/Scripts/Source".to_owned()])
        }
        _ => panic!("expected the prepared configuration"),
    }
}

#[test]
fn missing_sources_leave_the_configuration_unchanged() {
    let (state, _) =
        discovery_step(DiscoveryState::Start(starfield()), DiscoveryEvent::Begin { cancelled: false });
    let (_, action) =
        discovery_step(state, DiscoveryEvent::Discovered { sources: None, cancelled: true });
    match action {
        DiscoveryAction::Finish(c) => assert!(c.discovered_import_directories.is_empty()),
        _ => panic!("expected the configuration as it was"),
    }
}

#[test]
fn a_failed_materialization_keeps_the_configuration_and_an_unexpected_event_is_ignored() {
    let (_, action) = discovery_step(
        DiscoveryState::Materializing(starfield()),
        DiscoveryEvent::Materialized { root: None, cancelled: false },
    );
    match action {
        DiscoveryAction::Finish(c) => assert!(c.discovered_import_directories.is_empty()),
        _ => panic!("expected the configuration as it was"),
    }
    let (state, action) = discovery_step(
        DiscoveryState::Start(starfield()),
        DiscoveryEvent::Materialized { root: None, cancelled: false },
    );
    assert!(matches!(action, DiscoveryAction::Ignore));
    assert!(matches!(state, DiscoveryState::Start(_)));
}

#[test]
fn archive_entries_are_planned_and_exclusions_counted() {
    let mut progress = ExtractionProgress { indexed: 0, excluded: 0, extracted_bytes: 0 };
    let plan = next_entry(&mut progress, "Scripts/Source/Fragments/QF_A.psc", 10, PathStyle::Unix);
    assert!(matches!(plan, EntryPlan::Exclude));
    assert_eq!(progress.excluded, 1);
    let plan = next_entry(&mut progress, "Scripts/Source/Quest.psc", 10, PathStyle::Unix);
    match plan {
        EntryPlan::Extract(components) => assert_eq!(components, vec!["Scripts", "Source", "Quest.psc"]),
        _ => panic!("expected extraction"),
    }
    assert_eq!(progress.excluded, 1);
    let plan = next_entry(&mut progress, "Textures/a.dds", 10, PathStyle::Unix);
    assert!(matches!(plan, EntryPlan::Skip));
    assert_eq!(progress, ExtractionProgress { indexed: 0, excluded: 1, extracted_bytes: 0 });
}

#[test]
fn generated_sources_split_paths_as_the_platform_does() {
    assert!(is_generated_source("Scripts\\Source\\Fragments\\Quest.psc", PathStyle::Windows));
    assert!(!is_generated_source("Scripts\\Source\\Fragments\\Quest.psc", PathStyle::Unix));
    assert!(is_generated_source("Scripts\\Source\\QF_Quest.psc", PathStyle::Windows));
    assert!(!is_generated_source("Scripts\\Source\\QF_Quest.psc", PathStyle::Unix));
    assert!(is_generated_source("QF_Quest.psc", PathStyle::Unix));
}

#[test]
fn file_budget_admits_the_smaller_allowance() {
    let limits = IndexingLimits { max_entries: 3, max_files: 2, max_file_bytes: 10, max_total_bytes: 25, max_depth: 1 };
    let mut budget = ScanBudget::new();
    assert_eq!(admit_file(&budget, &limits), Some(10));
    assert!(!record_file(&mut budget, 10));
    assert_eq!(admit_file(&budget, &limits), Some(10));
    budget.bytes = 20;
    assert_eq!(admit_file(&budget, &limits), Some(5));
    assert!(!record_file(&mut budget, 5));
    assert_eq!(budget.files, 2);
    assert_eq!(budget.bytes, 25);
    assert_eq!(admit_file(&budget, &limits), None);
    let defaults = IndexingLimits::default();
    assert_eq!(defaults.max_files, 250_000);
    assert_eq!(defaults.max_total_bytes, 4 * 1024 * 1024 * 1024);
}

#[test]
fn entry_budget_stops_the_walk_past_its_limit() {
    let limits = IndexingLimits { max_entries: 2, max_files: 2, max_file_bytes: 10, max_total_bytes: 25, max_depth: 1 };
    let mut budget = ScanBudget::new();
    assert!(admit_entry(&mut budget, &limits));
    assert!(admit_entry(&mut budget, &limits));
    assert!(!budget.stopped);
    assert!(!admit_entry(&mut budget, &limits));
    assert!(budget.stopped);
    assert!(within_depth(1, &limits));
    assert!(!within_depth(2, &limits));
}

#[test]
fn progress_is_reported_every_250_files() {
    let mut budget = ScanBudget { entries: 0, files: 249, bytes: 0, stopped: false };
    assert!(record_file(&mut budget, 1));
    assert!(!record_file(&mut budget, 1));
}

fn record(hash: &[u8]) -> CacheRecord {
    let hex: String = hash.iter().map(|b| format!("{b:02x}")).collect();
    CacheRecord { size: 17, modified_nanos: 42, content_hash: hex }
}

#[test]
fn cache_hits_need_matching_metadata_and_content() {
    let first = normalized_content_hash("ScriptName First\n");
    let other = normalized_content_hash("ScriptName Other\n");
    let stored = record(&first);
    let mut counters = CacheCounters { hits: 0, misses: 0 };
    assert!(cache_hit(Some(&stored), Some((17, 42)), &first, &mut counters));
    assert_eq!(counters, CacheCounters { hits: 1, misses: 0 });
    assert!(!cache_hit(Some(&stored), Some((17, 42)), &other, &mut counters));
    assert!(!cache_hit(Some(&stored), Some((18, 42)), &first, &mut counters));
    assert!(!cache_hit(Some(&stored), Some((17, 43)), &first, &mut counters));
    assert!(!cache_hit(Some(&stored), None, &first, &mut counters));
    assert!(!cache_hit(None, Some((17, 42)), &first, &mut counters));
    assert_eq!(counters, CacheCounters { hits: 1, misses: 5 });
    let upper = CacheRecord { content_hash: stored.content_hash.to_uppercase(), ..record(&first) };
    assert!(cache_hit(Some(&upper), Some((17, 42)), &first, &mut counters));
    let short = CacheRecord { content_hash: "abc".to_owned(), ..record(&first) };
    assert!(!cache_hit(Some(&short), Some((17, 42)), &first, &mut counters));
    assert_eq!(counters, CacheCounters { hits: 2, misses: 6 });
}

#[test]
fn pruning_keeps_the_newest_owned_generations() {
    let prefix = "semantic-index-v5-";
    let a = format!("{prefix}{}.json", generation_id(1, 7, 0));
    let b = format!("{prefix}{}.json", generation_id(2, 7, 0));
    let c = format!("{prefix}{}.json", generation_id(3, 7, 0));
    let names = vec![
        b.clone(),
        "semantic-index-v5-important.json".to_owned(),
        a.clone(),
        c.clone(),
        format!(".{prefix}{}.pending", generation_id(4, 7, 0)),
    ];
    assert_eq!(generations_to_prune(&names, prefix, RETAINED_GENERATIONS), vec![2]);
    assert_eq!(generations_to_prune(&names, prefix, 0), vec![0, 2, 3]);
    assert_eq!(generations_to_prune(&names, prefix, 5), Vec::<usize>::new());
}

#[test]
fn generation_ids_name_owned_generations() {
    let p = "semantic-index-v5-";
    for (t, id, s) in [(0u128, 0u32, 0u64), (u128::MAX, u32::MAX, u64::MAX), (123, 456, 789)] {
        let g = generation_id(t, id, s);
        assert!(is_generation_name(&format!("{p}{g}.json"), p));
        assert!(!is_generation_name(&format!(".{p}{g}.pending"), p));
        assert!(!is_generation_name(&format!("{p}{g}-00.json"), p));
    }
    assert!(!is_generation_name("semantic-index-v5-important.json", p));
}

#[test]
fn percent_encoding_round_trips() {
    for path in ["/workspace/My Mod/a.psc", "C:/Users/é/ß%20.psc", "", "%", "a+b?c#d"] {
        assert_eq!(percent_decode(&percent_encode_path(path)), Some(path.to_owned()));
    }
}

#[test]
fn sanitizing_twice_changes_nothing() {
    let source = "Function Run() ; comment\n  x = \"If { ;\" {doc}\n;/ block /;\nEndFunction\n";
    let once = sanitize(source.as_bytes());
    assert!(!once.iter().any(|b| *b == b'"' || *b == b'{' || *b == b';'));
    assert_eq!(sanitize(&once), once);
    assert_eq!(once.len(), source.len());
}

#[test]
fn line_ending_and_mark_variants_hash_alike() {
    let text = "ScriptName A\nFunction F()\nEndFunction\n";
    let h = normalized_content_hash(text);
    assert_eq!(h, normalized_content_hash(&text.replace('\n', "\r\n")));
    assert_eq!(h, normalized_content_hash(&text.replace('\n', "\r")));
    assert_eq!(h, normalized_content_hash(&format!("\u{feff}{text}")));
    assert_eq!(h, blake3::hash(text.as_bytes()).as_bytes().to_vec());
    assert_ne!(h, normalized_content_hash("ScriptName B\n"));
}

#[test]
fn limited_buffer_keeps_exactly_the_accepted_writes() {
    let mut buffer = LimitedBuffer::new(8);
    assert_eq!(buffer.write(b"abc"), Ok(3));
    assert!(buffer.write(b"defghi").is_err());
    assert_eq!(buffer.write(b"de"), Ok(2));
    assert_eq!(buffer.write(b"fgh"), Ok(3));
    assert!(buffer.write(b"i").is_err());
    assert_eq!(buffer.write(b""), Ok(0));
    let bytes = buffer.into_inner();
    assert_eq!(bytes, b"abcdefgh".to_vec());
    assert!(bytes.len() <= 8);
}

#[test]
fn open_documents_list_each_uri_once() {
    let mut store = DocumentStore::new();
    store.open("file:///a.psc".to_owned(), "A".to_owned(), 1);
    store.open("file:///b.psc".to_owned(), "B".to_owned(), 1);
    store.open("file:///a.psc".to_owned(), "A2".to_owned(), 2);
    let mut uris = store.uris();
    uris.sort();
    assert_eq!(uris, vec!["file:///a.psc".to_owned(), "file:///b.psc".to_owned()]);
    store.close("file:///a.psc");
    assert_eq!(store.uris(), vec!["file:///b.psc".to_owned()]);
}
