use sbmm::app::{
    archive_display_name, change_kind, newer_version, upscaler_staging_id, ChangeKind, NexusModRef,
    Origin,
};
use sbmm::archive::{detect_kind, is_safe_relative, kind_from_magic, ArchiveKind};
use sbmm::credentials::{KeyStore, MemoryKeyStore};
use sbmm::deploy::{resolve_target, DeployedFile, DeployError, Manifest};
use sbmm::game::{chosen_root, GameInstall, InstallSource};
use sbmm::plan::{DeployPlan, PlannedFile};
use sbmm::presence::{Discord, Presence};
use sbmm::upscaler::Component;
use sbmm::client::{describe, ModFile, ModInfo};
use sbmm::model::{ComponentFile, Confidence, DetectedComponent, ModType};

fn some(value: &str) -> Option<String> {
    Some(value.to_string())
}

#[test]
fn a_secret_round_trips() {
    let mut store = MemoryKeyStore::default();
    assert_eq!(store.get().unwrap(), None);

    store.set("abc123").unwrap();
    assert_eq!(store.get().unwrap().as_deref(), Some("abc123"));

    store.clear().unwrap();
    assert_eq!(store.get().unwrap(), None);
}

#[test]
fn clearing_an_empty_store_is_not_an_error() {
    MemoryKeyStore::default().clear().unwrap();
}

#[test]
fn an_update_is_reported_only_when_both_versions_are_known_and_differ() {
    assert_eq!(newer_version(&some("1.2"), &some("1.4")), some("1.4"));
    assert_eq!(newer_version(&some("1.2"), &some("1.2")), None);
    // Nothing to compare against is not the same as being up to date.
    assert_eq!(newer_version(&None, &some("1.4")), None);
    assert_eq!(newer_version(&some("1.2"), &None), None);
}

#[test]
fn cosmetic_differences_do_not_count_as_an_update() {
    assert_eq!(newer_version(&some("v1.2"), &some("1.2")), None);
    assert_eq!(newer_version(&some(" 1.2 "), &some("1.2")), None);
    assert_eq!(newer_version(&some("1.2B"), &some("1.2b")), None);
}

#[test]
fn origins_record_where_a_mod_came_from() {
    let m = Origin::manual();
    assert_eq!(m.source, "manual");
    assert!(m.nexus_mod_id.is_none());
    let n = Origin::nexus(7, 9).with_version(some("1.0"));
    assert_eq!((n.source.as_str(), n.nexus_mod_id, n.nexus_file_id), ("nexus", Some(7), Some(9)));
    assert_eq!(n.version.as_deref(), Some("1.0"));
    let r = NexusModRef { id: 1, nexus_mod_id: 7, version: some("1.0"), latest_version: some("1.1") };
    assert!(r.is_outdated());
}

#[test]
fn nexus_download_names_lose_their_numeric_tail() {
    assert_eq!(archive_display_name("/dl/Cool Outfit-1234-1-0-1699999999.zip"), "Cool Outfit");
    assert_eq!(archive_display_name("Outfit-2.zip"), "Outfit-2");
    assert_eq!(archive_display_name("1-2-3.zip"), "1-2-3");
    assert_eq!(archive_display_name(".."), "Mod");
    assert_eq!(upscaler_staging_id(Component::FsrDx12), "upscaler-amd_fidelityfx_dx12");
}

fn plan(targets: &[&str]) -> DeployPlan {
    DeployPlan {
        mod_id: 1,
        staging_root: "/s".into(),
        files: targets
            .iter()
            .map(|t| PlannedFile { source: "x".into(), target: t.to_string() })
            .collect(),
        ue4ss_registrations: vec![],
    }
}

#[test]
fn a_changed_load_order_needs_a_redeploy() {
    let rows = vec![("b".to_string(), None, 1), ("a".to_string(), None, 1)];
    assert_eq!(change_kind(true, false, &plan(&["a"]), &rows), Some(ChangeKind::Enable));
    assert_eq!(change_kind(true, false, &plan(&[]), &rows), None);
    assert_eq!(change_kind(false, true, &plan(&["a"]), &rows), Some(ChangeKind::Disable));
    assert_eq!(change_kind(true, true, &plan(&["a", "b"]), &rows), None);
    assert_eq!(change_kind(true, true, &plan(&["a", "a"]), &rows), Some(ChangeKind::Reorder));
    assert_eq!(change_kind(false, false, &plan(&["a"]), &rows), None);
}

#[test]
fn archives_are_told_apart_by_magic_before_extension() {
    assert_eq!(kind_from_magic(b"PK\x03\x04rest"), Some(ArchiveKind::Zip));
    assert_eq!(kind_from_magic(b"Rar!\x1a\x07\x01\x00"), Some(ArchiveKind::Rar));
    assert_eq!(kind_from_magic(&[0x37, 0x7A, 0xBC, 0xAF, 0x27, 0x1C]), Some(ArchiveKind::SevenZ));
    assert_eq!(kind_from_magic(b"PK"), None);
    assert_eq!(detect_kind("mod.zip", Some(b"Rar!\x1a\x07\x00")), Some(ArchiveKind::Rar));
    assert_eq!(detect_kind("mod.7Z", None), Some(ArchiveKind::SevenZ));
    assert_eq!(detect_kind("mod.txt", Some(b"hello")), None);
    assert!(is_safe_relative("a/./b"));
    assert!(!is_safe_relative("a/../../b"));
    assert!(!is_safe_relative("/etc/passwd"));
}

#[test]
fn targets_stay_under_the_game_root() {
    assert_eq!(resolve_target("/game", "SB/./Content/x.pak").unwrap(), "/game/SB/Content/x.pak");
    assert!(matches!(resolve_target("/game", "../x"), Err(DeployError::EscapesGameRoot(_))));
    assert!(matches!(resolve_target("/game", "/x"), Err(DeployError::EscapesGameRoot(_))));
}

#[test]
fn backslashes_and_drive_prefixes_cannot_leave_the_game_root() {
    assert!(matches!(resolve_target("/game", "..\\x"), Err(DeployError::EscapesGameRoot(p)) if p == "..\\x"));
    assert!(matches!(resolve_target("/game", "SB\\..\\..\\x"), Err(DeployError::EscapesGameRoot(_))));
    assert!(matches!(resolve_target("/game", "\\x"), Err(DeployError::EscapesGameRoot(_))));
    assert!(matches!(resolve_target("/game", "C:x"), Err(DeployError::EscapesGameRoot(_))));
    assert!(matches!(resolve_target("/game", "C:/x"), Err(DeployError::EscapesGameRoot(_))));
    assert_eq!(resolve_target("/game", "SB\\Content\\.\\x.pak").unwrap(), "/game/SB/Content/x.pak");
    assert_eq!(resolve_target("/game", "1:x").unwrap(), "/game/1:x");
    assert!(!is_safe_relative("a\\..\\..\\b"));
    assert!(!is_safe_relative("D:\\b"));
    assert!(is_safe_relative("a\\b"));
}

fn file(target: &str, mod_id: i64) -> DeployedFile {
    DeployedFile { target: target.into(), mod_id, backup: None, size: 1 }
}

#[test]
fn merging_adds_each_new_directory_once_in_first_seen_order() {
    let mut m = Manifest { files: vec![file("a", 1)], created_dirs: vec!["SB".into(), "SB/a".into()] };
    m.merge(Manifest {
        files: vec![file("b", 2), file("c", 2)],
        created_dirs: vec!["SB/z".into(), "SB".into(), "SB/b".into(), "SB/z".into(), "SB/a".into()],
    });
    assert_eq!(m.files, vec![file("a", 1), file("b", 2), file("c", 2)]);
    assert_eq!(m.created_dirs, vec!["SB", "SB/a", "SB/z", "SB/b"]);
}

#[test]
fn a_manifest_splits_out_one_mod_and_merges_back() {
    let mut m = Manifest { files: vec![file("a", 1), file("b", 2)], created_dirs: vec!["SB".into()] };
    m.merge(Manifest { files: vec![file("c", 1)], created_dirs: vec!["SB".into(), "SB/x".into()] });
    assert_eq!(m.created_dirs, vec!["SB".to_string(), "SB/x".to_string()]);
    let mine = m.take_mod(1);
    assert_eq!(mine.files, vec![file("a", 1), file("c", 1)]);
    assert_eq!(m.files, vec![file("b", 2)]);
    assert_eq!(mine.created_dirs, m.created_dirs);
    assert!(!m.is_empty());
}

#[test]
fn install_paths_hang_off_the_root() {
    let g = GameInstall { root: "/games/SB".into(), source: InstallSource::Manual, executable: some("SB-Win64-Shipping.exe") };
    assert_eq!(g.mods_dir(), "/games/SB/SB/Content/Paks/~mods");
    assert_eq!(g.executable_path().unwrap(), "/games/SB/SB/Binaries/Win64/SB-Win64-Shipping.exe");
    assert_eq!(chosen_root("/g/sb", Some("/g"), false, true).unwrap(), "/g");
    assert!(chosen_root("/g/other", Some("/g"), false, true).is_err());
    assert_eq!(chosen_root("/g", Some("/"), true, false).unwrap(), "/g");
}

fn presence(installed: usize, enabled_mods: usize, downloading: usize) -> Presence {
    Presence { enabled: true, installed, enabled_mods, downloading }
}

#[test]
fn the_presence_reports_counts_and_never_names_anything() {
    let p = presence(42, 17, 0);
    assert_eq!(p.details(), "Managing mods");
    assert_eq!(p.state(), "17 of 42 enabled");
}

#[test]
fn downloading_is_shown_as_a_count_not_as_a_mod_name() {
    assert_eq!(presence(10, 3, 1).details(), "Downloading 1 mod");
    assert_eq!(presence(10, 3, 5).details(), "Downloading 5 mods");
}

#[test]
fn an_empty_install_reads_as_empty_rather_than_zero_of_zero() {
    assert_eq!(presence(0, 0, 0).state(), "Nothing installed yet");
}

#[test]
fn an_unchanged_presence_is_not_published_twice() {
    let mut discord = Discord::new();
    let p = presence(3, 1, 0);
    assert_eq!(discord.update(p), Some(p));
    assert_eq!(discord.update(p), None);
    assert_eq!(discord.update(presence(3, 2, 0)), Some(presence(3, 2, 0)));
}

// ---------------------------------------------------------------------------
// The mod list, upscaler swaps and update checks
// ---------------------------------------------------------------------------

fn record(id: i64, name: &str, enabled: bool) -> sbmm::app::ModRecord {
    sbmm::app::ModRecord {
        id,
        name: name.to_string(),
        staging_folder: format!("folder-{id}"),
        version: some("1.0"),
        source: "nexus".into(),
        nexus_mod_id: Some(77),
        nexus_file_id: Some(88),
        group_id: None,
        primary_type: "genericPak".into(),
        size_bytes: 12,
        image_path: None,
        notes: None,
        installed_at: "today".into(),
        enabled,
        priority: 5,
        latest_version: some("v1.1"),
        update_checked_at: None,
        assets_indexed_at: None,
    }
}

#[test]
fn a_mod_view_carries_its_types_warnings_and_pending_change() {
    let tree = sbmm::FileTree::new(&["Outfit.pak", "Outfit.utoc", "Outfit.ucas", "Other_P.pak"]);
    let components = sbmm::detect_components(&tree);
    let rec = record(3, "Outfit", true);
    let planned = sbmm::app::mod_plan(&rec, "/lib/mods", &components);
    assert_eq!(planned.staging_root, "/lib/mods/folder-3");
    assert!(!planned.files.is_empty());

    let (view, pending) = sbmm::app::mod_view(&rec, &components, &planned, &[]);
    assert_eq!(view.component_types, vec!["genericPak".to_string()]);
    assert!(!view.warnings.is_empty(), "a pak without _P is worth a warning");
    assert!(!view.deployed);
    assert_eq!(view.latest_version.as_deref(), Some("v1.1"));
    let pending = pending.unwrap();
    assert_eq!(pending.kind, ChangeKind::Enable);
    assert_eq!(pending.name, "Outfit");

    let (view, pending) = sbmm::app::mod_view(&record(3, "Outfit", false), &components, &planned, &[]);
    assert!(pending.is_none(), "a disabled, undeployed mod has nothing pending");
    assert!(!view.enabled);
}

#[test]
fn an_upscaler_swap_is_recorded_as_an_overlay_of_each_copy() {
    let targets = vec![
        "SB/Binaries/Win64/nvngx_dlss.dll".to_string(),
        "Engine/Plugins/DLSS/nvngx_dlss.dll".to_string(),
    ];
    let new_mod =
        sbmm::app::upscaler_mod(Component::DlssSuperResolution, "310.2.1", &targets, 4096).unwrap();
    assert_eq!(new_mod.staging_folder, upscaler_staging_id(Component::DlssSuperResolution));
    assert_eq!(new_mod.source, "upscaler");
    assert_eq!(new_mod.version.as_deref(), Some("310.2.1"));
    assert_eq!(new_mod.primary_type, "gameRootOverlay");
    assert_eq!(new_mod.size_bytes, 4096);
    let component = &new_mod.components[0];
    assert_eq!(component.files.len(), 2);
    assert_eq!(component.files[1].source, component.files[1].target);
    assert!(component.notes[0].contains("nvngx_dlss.dll"));
    assert!(new_mod.name.ends_with(" 310.2.1"));

    let missing = sbmm::app::upscaler_mod(Component::FsrDx12, "1", &[], 0).unwrap_err();
    assert!(missing.ends_with(" was not found in the game folder"));
}

#[test]
fn only_mods_that_nexus_says_changed_are_asked_about() {
    let installed = vec![
        NexusModRef { id: 1, nexus_mod_id: 10, version: some("1"), latest_version: None },
        NexusModRef { id: 2, nexus_mod_id: 20, version: some("1"), latest_version: some("2") },
        NexusModRef { id: 3, nexus_mod_id: 30, version: some("1"), latest_version: some("v1") },
    ];
    let changed = vec![
        sbmm::client::UpdatedMod { mod_id: 30, latest_file_update: 0 },
        sbmm::client::UpdatedMod { mod_id: 10, latest_file_update: 0 },
    ];
    assert_eq!(sbmm::app::mods_to_check(&installed, &changed), vec![(1, 10), (3, 30)]);
    assert_eq!(sbmm::app::outdated_count(&installed), 1);
}

#[test]
fn a_file_is_described_from_whatever_the_api_answered() {
    let bare = describe(12, 34, None, None);
    assert_eq!(bare.name, "Mod 12");
    assert_eq!(bare.file_name, "12-34.zip");
    assert_eq!(bare.version, None);

    let info = ModInfo {
        mod_id: 12,
        name: some("Aurora"),
        version: some("2.0"),
        summary: None,
        picture_url: None,
        category_id: None,
        available: true,
    };
    let files = vec![
        ModFile {
            file_id: 33,
            name: "Old".into(),
            version: some("1.0"),
            file_name: "old.zip".into(),
            size_in_bytes: None,
            category_name: None,
            is_primary: false,
        },
        ModFile {
            file_id: 34,
            name: "Main".into(),
            version: some("1.5"),
            file_name: "../../evil/Aurora-1.5.zip".into(),
            size_in_bytes: None,
            category_name: None,
            is_primary: true,
        },
    ];
    let full = describe(12, 34, Some(&info), Some(&files));
    assert_eq!(full.name, "Aurora");
    assert_eq!(full.file_name, "Aurora-1.5.zip");
    assert_eq!(full.version.as_deref(), Some("1.5"));

    let unlisted = describe(12, 99, Some(&info), Some(&files));
    assert_eq!(unlisted.file_name, "12-99.zip");
    assert_eq!(unlisted.version.as_deref(), Some("2.0"));
}

#[test]
fn only_mods_from_nexus_are_checked_for_updates() {
    let mut manual = record(2, "Hand", true);
    manual.nexus_mod_id = None;
    let mods = vec![record(1, "A", true), manual, record(3, "C", false)];
    let refs = sbmm::app::nexus_mods(&mods);
    let ids: Vec<(i64, i64)> = refs.iter().map(|r| (r.id, r.nexus_mod_id)).collect();
    assert_eq!(ids, vec![(1, 77), (3, 77)]);
    assert_eq!(refs[0].version.as_deref(), Some("1.0"));
    assert_eq!(refs[0].latest_version.as_deref(), Some("v1.1"));
}

#[test]
fn a_group_checkbox_covers_exactly_its_mods() {
    let mut a = record(1, "A", true);
    a.group_id = Some(9);
    let b = record(2, "B", true);
    let mut c = record(3, "C", false);
    c.group_id = Some(9);
    let mods = vec![a, b, c];
    assert_eq!(sbmm::app::mods_in_group(&mods, Some(9)), vec![1, 3]);
    assert_eq!(sbmm::app::mods_in_group(&mods, None), vec![2]);
    assert_eq!(sbmm::app::all_mod_ids(&mods), vec![1, 2, 3]);
}

#[test]
fn the_swaps_the_manager_made_are_listed_with_their_versions() {
    let mut dlss = record(1, "DLSS", true);
    dlss.staging_folder = "upscaler-nvngx_dlss".into();
    dlss.version = some("310.2.1");
    let mut fsr = record(2, "FSR", true);
    fsr.staging_folder = "upscaler-amd_fidelityfx_dx12".into();
    fsr.version = None;
    let other = record(3, "Outfit", true);
    let mods = vec![other, dlss, fsr];
    assert_eq!(
        sbmm::app::managed_upscalers(&mods),
        vec![
            (Component::DlssSuperResolution, "310.2.1".to_string()),
            (Component::FsrDx12, String::new()),
        ]
    );
    assert_eq!(sbmm::app::installed_swap(&mods, Component::FsrDx12), Some(2));
    assert_eq!(sbmm::app::installed_swap(&mods, Component::FsrVulkan), None);
}

#[test]
fn settings_fall_back_to_their_defaults() {
    assert!(sbmm::app::auto_apply_of(None));
    assert!(sbmm::app::auto_apply_of(Some("1")));
    assert!(!sbmm::app::auto_apply_of(Some("0")));
    assert_eq!(sbmm::app::auto_apply_setting(false), "0");
    assert_eq!(sbmm::app::update_channel_of(None), "stable");
    assert_eq!(sbmm::app::update_channel_of(Some("nightly")), "nightly");
    assert_eq!(sbmm::app::update_channel_of(Some("beta")), "stable");
}

#[test]
fn install_names_come_from_the_user_or_else_the_archive() {
    assert_eq!(sbmm::app::download_name("  ", "Aurora Outfit"), "Aurora Outfit");
    assert_eq!(sbmm::app::download_name("Mine", "Aurora Outfit"), "Mine");
    assert_eq!(sbmm::app::folder_display_name(Some("Pack")), "Pack");
    assert_eq!(sbmm::app::folder_display_name(None), "Mod");
    assert_eq!(sbmm::app::staging_candidate("Pack", 2), "Pack (2)");
}

#[test]
fn only_container_indexes_are_read_for_what_a_mod_replaces() {
    let file = |p: &str| ComponentFile { source: p.to_string(), target: p.to_string() };
    let component = DetectedComponent {
        mod_type: ModType::GenericPak,
        confidence: Confidence::AskUser,
        files: vec![file("a/Outfit_P.pak"), file("a/Outfit_P.ucas"), file("a/Outfit_P.UTOC"), file("readme.txt")],
        target_subdir: String::new(),
        ue4ss_mod_name: None,
        pak_sets: Vec::new(),
        warnings: Vec::new(),
        notes: Vec::new(),
    };
    assert_eq!(
        sbmm::app::container_sources(&[component.clone()]),
        vec!["a/Outfit_P.pak", "a/Outfit_P.UTOC"]
    );
    assert!(sbmm::app::needs_confirmation(&[component]));
    assert!(!sbmm::app::needs_confirmation(&[]));
}

#[test]
fn outside_changes_to_deployed_files_are_reported_in_order() {
    let mut manifest = Manifest::default();
    manifest.files = vec![file("a.pak", 1), file("b.pak", 1), file("c.pak", 2)];
    manifest.files[1].size = 5;
    let found = sbmm::deploy::drifts(&manifest, &[None, Some(6), Some(manifest.files[2].size)]);
    let kinds: Vec<(String, sbmm::deploy::DriftKind)> =
        found.into_iter().map(|d| (d.target, d.kind)).collect();
    assert_eq!(
        kinds,
        vec![
            ("a.pak".to_string(), sbmm::deploy::DriftKind::Missing),
            ("b.pak".to_string(), sbmm::deploy::DriftKind::Modified),
        ]
    );
}

#[test]
fn the_directories_above_a_target_come_shallowest_first() {
    assert_eq!(
        sbmm::deploy::parent_dirs("SB/Content/Paks/~mods/a.pak"),
        vec!["SB", "SB/Content", "SB/Content/Paks", "SB/Content/Paks/~mods"]
    );
    assert!(sbmm::deploy::parent_dirs("a.pak").is_empty());
    assert_eq!(sbmm::deploy::parent_dirs("/x//y/z.txt"), vec!["x", "x/y"]);
}

#[test]
fn created_directories_are_pruned_deepest_first() {
    let dirs: Vec<String> = ["SB/a", "SB/a/b/c", "SB", "SB/x/y", "SB/a/b"]
        .iter()
        .map(|d| d.to_string())
        .collect();
    assert_eq!(
        sbmm::deploy::prune_order(&dirs),
        vec!["SB/a/b/c", "SB/x/y", "SB/a/b", "SB/a", "SB"]
    );
}

#[test]
fn the_library_cannot_live_inside_the_game_folder() {
    assert!(sbmm::app::library_inside_game("D:/Games/SB", "D:/Games/SB"));
    assert!(sbmm::app::library_inside_game("D:/Games/SB/mods-here", "D:/Games/SB/"));
    assert!(!sbmm::app::library_inside_game("D:/Games/SB2", "D:/Games/SB"));
    assert!(!sbmm::app::library_inside_game("D:/Library", "D:/Games/SB"));
    assert!(sbmm::app::library_inside_game("/games/sb/./lib", "/games/sb"));
    assert!(sbmm::app::library_inside_game("/games//sb/lib/", "/games/sb"));
    assert!(!sbmm::app::library_inside_game("games/sb/lib", "/games/sb"));
    assert!(!sbmm::app::library_inside_game("/games/sb/lib", "games/sb"));
    assert!(!sbmm::app::library_inside_game("/games/sb/../lib", "/games/sb/lib"));
    assert_eq!(
        sbmm::app::library_refusal_text(true, "x"),
        "the library cannot live inside the game folder"
    );
    assert_eq!(
        sbmm::app::library_refusal_text(false, "E:/Lib/mods"),
        "E:/Lib/mods already contains a mod library; choose an empty folder"
    );
}
