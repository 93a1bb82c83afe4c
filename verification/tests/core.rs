use sbmm::detect::detect_components;
use sbmm::loadorder::{apply_load_order, ordered_base, ordered_file_name, strip_ordering};
use sbmm::model::{ComponentFile, Confidence, DetectedComponent, ModType, PakSet};
use sbmm::plan::{build_plan, retarget, sanitize_folder_name};
use sbmm::tree::FileTree;

// ---------------------------------------------------------------------------
// Tree
// ---------------------------------------------------------------------------

#[test]
fn strips_a_redundant_wrapper_directory() {
    let tree = FileTree::new(&["Cool Mod v1.2/foo_P.pak", "Cool Mod v1.2/foo_P.utoc"]);
    let stripped = tree.stripped();
    let names: Vec<&str> = stripped.entries().iter().map(|e| e.norm.as_str()).collect();
    assert_eq!(names, vec!["foo_p.pak", "foo_p.utoc"]);
    assert_eq!(
        stripped.entries()[0].path,
        "Cool Mod v1.2/foo_P.pak",
        "stripping is a matching concern; the file is still where it was"
    );
}

#[test]
fn strips_nested_wrappers_but_keeps_meaningful_dirs() {
    let tree = FileTree::new(&["Release/Build/LogicMods/thing.pak"]);
    let stripped = tree.stripped();
    assert_eq!(stripped.entries()[0].norm, "logicmods/thing.pak");
}

#[test]
fn never_strips_the_sb_game_root() {
    let tree = FileTree::new(&["SB/Content/Paks/~mods/a_P.pak"]);
    let stripped = tree.stripped();
    assert_eq!(stripped.entries()[0].norm, "sb/content/paks/~mods/a_p.pak");
}

#[test]
fn keeps_wrapper_when_root_also_has_loose_files() {
    let tree = FileTree::new(&["Wrapper/a.pak", "readme.txt"]);
    let stripped = tree.stripped();
    assert_eq!(stripped.entries().len(), 2);
    assert!(stripped.entries().iter().any(|e| e.norm == "wrapper/a.pak"));
}

#[test]
fn finds_marker_directories() {
    let tree = FileTree::new(&["MyLuaMod/Scripts/main.lua", "MyLuaMod/Scripts/util.lua"]);
    assert_eq!(tree.dirs_containing("scripts/main.lua"), vec!["myluamod".to_string()]);
}

#[test]
fn subtree_rebases_paths() {
    let tree = FileTree::new(&["SB/Content/Movies/intro.mp4"]);
    let sub = tree.subtree("sb");
    assert_eq!(sub.entries()[0].norm, "content/movies/intro.mp4");
    assert_eq!(sub.entries()[0].rel, "Content/Movies/intro.mp4");
    assert_eq!(
        sub.entries()[0].path,
        "SB/Content/Movies/intro.mp4",
        "the on-disk path must survive rebasing"
    );
}

#[test]
fn duplicate_matching_paths_keep_the_first_entry_in_sorted_order() {
    let tree = FileTree::new(&["b/X.pak", "A.txt", "B/x.PAK", "./", "a.txt"]);
    let norms: Vec<&str> = tree.entries().iter().map(|e| e.norm.as_str()).collect();
    assert_eq!(norms, vec!["a.txt", "b/x.pak"]);
    assert_eq!(tree.entries()[0].path, "A.txt");
    assert_eq!(tree.entries()[1].path, "b/X.pak");
}

#[test]
fn segment_queries_ignore_case() {
    let tree = FileTree::new(&["Mod/LogicMods/a.pak", "other.pak"]);
    assert!(tree.has_segment("LOGICMODS"));
    assert!(!tree.has_segment("paks"));
    assert_eq!(tree.entries_under_segment("logicmods").len(), 1);
    assert_eq!(tree.top_level_files().len(), 1);
    assert_eq!(tree.entries_in_dir("MOD").len(), 1);
    assert_eq!(tree.entries_in_dir("").len(), 2);
}

#[test]
fn file_names_and_extensions_come_from_the_matching_path() {
    let tree = FileTree::new(&["Dir.v2/Archive.TAR.GZ", "noext"]);
    let e = &tree.entries()[0];
    assert_eq!(e.file_name(), "archive.tar.gz");
    assert_eq!(e.extension(), Some("gz".to_string()));
    assert_eq!(e.segments(), vec!["dir.v2".to_string(), "archive.tar.gz".to_string()]);
    assert_eq!(tree.entries()[1].extension(), None);
}

// ---------------------------------------------------------------------------
// Load order
// ---------------------------------------------------------------------------

fn set() -> PakSet {
    PakSet {
        base: "CoolMod".into(),
        pak: "CoolMod_P.pak".into(),
        utoc: Some("CoolMod_P.utoc".into()),
        ucas: Some("CoolMod_P.ucas".into()),
        had_p_suffix: true,
    }
}

fn last_piece(s: &str) -> String {
    s.rsplit('/').next().unwrap().to_string()
}

#[test]
fn renames_every_file_of_a_set_to_one_base_name() {
    let mut files: Vec<ComponentFile> = set()
        .files()
        .into_iter()
        .map(|p| ComponentFile { target: format!("SB/Content/Paks/~mods/{p}"), source: p })
        .collect();

    apply_load_order(&mut files, &[set()], 100);

    let names: Vec<String> = files.iter().map(|f| last_piece(&f.target)).collect();
    assert_eq!(names, vec!["0100_CoolMod_P.pak", "0100_CoolMod_P.utoc", "0100_CoolMod_P.ucas"]);
}

#[test]
fn adds_the_p_suffix_when_the_author_omitted_it() {
    assert_eq!(ordered_base(7, "Thing"), "0007_Thing_P");
}

#[test]
fn round_trips_back_to_the_original_name() {
    assert_eq!(strip_ordering("0100_CoolMod_P.pak"), "CoolMod");
    assert_eq!(strip_ordering("CoolMod_P.pak"), "CoolMod");
    assert_eq!(strip_ordering("CoolMod.pak"), "CoolMod");
}

#[test]
fn keeps_targets_in_their_directory() {
    let mut files = vec![ComponentFile {
        source: "CoolMod_P.pak".into(),
        target: "SB/Content/Paks/~mods/CoolMod_P.pak".into(),
    }];
    apply_load_order(&mut files, &[set()], 3);
    assert_eq!(files[0].target, "SB/Content/Paks/~mods/0003_CoolMod_P.pak");
}

#[test]
fn priorities_are_clamped_to_four_digits() {
    assert_eq!(ordered_base(-5, "A"), "0000_A_P");
    assert_eq!(ordered_base(123456, "A"), "9999_A_P");
    assert_eq!(ordered_file_name(42, "Mod", "utoc"), "0042_Mod_P.utoc");
}

#[test]
fn an_ordered_name_strips_back_to_its_base() {
    for (p, base, ext) in [(0, "X", "pak"), (9999, "My_Mod.v2", "ucas"), (17, "a_P", "utoc")] {
        let name = ordered_file_name(p, base, ext);
        assert_eq!(strip_ordering(&name), base);
    }
}

#[test]
fn only_a_four_digit_prefix_is_taken_off() {
    assert_eq!(strip_ordering("012_Mod_p.pak"), "012_Mod");
    assert_eq!(strip_ordering("12a4_Mod.pak"), "12a4_Mod");
    assert_eq!(strip_ordering("noext"), "noext");
}

#[test]
fn folder_names_lose_what_windows_refuses() {
    assert_eq!(sanitize_folder_name("Cutscene: Skip"), "Cutscene_ Skip");
    assert_eq!(sanitize_folder_name("  a<b>|c?.. "), "a_b__c_");
    assert_eq!(sanitize_folder_name(" ... "), "Mod");
    assert_eq!(sanitize_folder_name(""), "Mod");
}

// ---------------------------------------------------------------------------
// Detection
// ---------------------------------------------------------------------------

fn detect(files: &[&str]) -> Vec<DetectedComponent> {
    detect_components(&FileTree::new(files))
}

fn only(files: &[&str]) -> DetectedComponent {
    let mut c = detect(files);
    assert_eq!(c.len(), 1, "expected exactly one component, got {c:?}");
    c.remove(0)
}

fn targets(component: &DetectedComponent) -> Vec<String> {
    let mut t: Vec<String> = component.files.iter().map(|f| f.target.replace('\\', "/")).collect();
    t.sort();
    t
}

#[test]
fn loose_pak_triplet_goes_to_the_mods_folder() {
    let c = only(&["Outfit_P.pak", "Outfit_P.utoc", "Outfit_P.ucas"]);
    assert_eq!(c.mod_type, ModType::GenericPak);
    assert_eq!(c.confidence, Confidence::High);
    assert_eq!(
        targets(&c),
        vec![
            "SB/Content/Paks/~mods/Outfit_P.pak",
            "SB/Content/Paks/~mods/Outfit_P.ucas",
            "SB/Content/Paks/~mods/Outfit_P.utoc",
        ]
    );
    assert_eq!(c.pak_sets.len(), 1);
    assert!(c.pak_sets[0].is_complete());
}

#[test]
fn a_redundant_wrapper_folder_is_ignored() {
    let c = only(&[
        "Awesome Outfit v2.1/Outfit_P.pak",
        "Awesome Outfit v2.1/Outfit_P.utoc",
        "Awesome Outfit v2.1/Outfit_P.ucas",
        "Awesome Outfit v2.1/readme.txt",
    ]);
    assert_eq!(c.mod_type, ModType::GenericPak);
    assert_eq!(c.files.len(), 3, "the readme must not be installed");
}

#[test]
fn logic_mods_never_land_in_the_mods_folder() {
    let c = only(&["LogicMods/BetterCamera_P.pak"]);
    assert_eq!(c.mod_type, ModType::LogicMod);
    assert_eq!(targets(&c), vec!["SB/Content/Paks/LogicMods/BetterCamera_P.pak"]);
}

#[test]
fn a_lua_mod_is_found_by_its_marker_and_keeps_its_folder_name() {
    let c = only(&["CutsceneSkip/scripts/main.lua", "CutsceneSkip/scripts/helpers.lua"]);
    assert_eq!(c.mod_type, ModType::Ue4ssLua);
    assert_eq!(c.ue4ss_mod_name.as_deref(), Some("CutsceneSkip"));
    assert_eq!(
        targets(&c),
        vec![
            "SB/Binaries/Win64/ue4ss/Mods/CutsceneSkip/scripts/helpers.lua",
            "SB/Binaries/Win64/ue4ss/Mods/CutsceneSkip/scripts/main.lua",
        ]
    );
}

#[test]
fn a_cpp_mod_is_found_by_its_dll_marker() {
    let c = only(&["TrainerMod/dlls/main.dll"]);
    assert_eq!(c.mod_type, ModType::Ue4ssDll);
    assert_eq!(c.ue4ss_mod_name.as_deref(), Some("TrainerMod"));
}

#[test]
fn the_ue4ss_distribution_is_not_mistaken_for_a_lua_mod() {
    let c = only(&[
        "dwmapi.dll",
        "ue4ss/UE4SS.dll",
        "ue4ss/UE4SS-settings.ini",
        "ue4ss/Mods/mods.txt",
        "ue4ss/Mods/Keybinds/scripts/main.lua",
    ]);
    assert_eq!(c.mod_type, ModType::Ue4ssFramework);
    assert!(targets(&c).contains(&"SB/Binaries/Win64/dwmapi.dll".to_string()));
    assert!(targets(&c).contains(&"SB/Binaries/Win64/ue4ss/UE4SS.dll".to_string()));
}

#[test]
fn reshade_installs_next_to_the_executable_with_its_shaders() {
    let c = only(&["dxgi.dll", "ReShade.ini", "reshade-shaders/Shaders/Clarity.fx"]);
    assert_eq!(c.mod_type, ModType::RootBinary);
    assert!(targets(&c).contains(&"SB/Binaries/Win64/reshade-shaders/Shaders/Clarity.fx".to_string()));
}

#[test]
fn movie_replacements_go_to_the_movies_folder() {
    let c = only(&["Movies/SplashScreen.mp4"]);
    assert_eq!(c.mod_type, ModType::Movie);
    assert_eq!(targets(&c), vec!["SB/Content/Movies/SplashScreen.mp4"]);
}

#[test]
fn a_cns_style_archive_is_routed_by_its_explicit_paths() {
    let components = detect(&[
        "SB/Content/Paks/~mods/Nanosuit_P.pak",
        "SB/Content/Paks/LogicMods/NanosuitLogic_P.pak",
        "SB/Binaries/Win64/ue4ss/Mods/CNS/scripts/main.lua",
    ]);
    assert_eq!(components.len(), 3);

    let by_type = |t: ModType| components.iter().find(|c| c.mod_type == t).unwrap();

    assert_eq!(targets(by_type(ModType::GenericPak)), vec!["SB/Content/Paks/~mods/Nanosuit_P.pak"]);
    assert_eq!(
        targets(by_type(ModType::LogicMod)),
        vec!["SB/Content/Paks/LogicMods/NanosuitLogic_P.pak"]
    );
    let lua = by_type(ModType::Ue4ssLua);
    assert_eq!(lua.ue4ss_mod_name.as_deref(), Some("CNS"));
    assert!(components.iter().all(|c| c.confidence == Confidence::High));
}

#[test]
fn a_mixed_archive_yields_one_component_per_payload() {
    let components =
        detect(&["LogicMods/Toggle_P.pak", "Cosmetic_P.pak", "Cosmetic_P.utoc", "Cosmetic_P.ucas"]);
    assert_eq!(components.len(), 2);

    let logic = components
        .iter()
        .find(|c| c.mod_type == ModType::LogicMod)
        .expect("logic mod component");
    let pak = components
        .iter()
        .find(|c| c.mod_type == ModType::GenericPak)
        .expect("generic pak component");

    assert_eq!(logic.files.len(), 1);
    assert_eq!(pak.files.len(), 3);
    assert_eq!(
        targets(pak),
        vec![
            "SB/Content/Paks/~mods/Cosmetic_P.pak",
            "SB/Content/Paks/~mods/Cosmetic_P.ucas",
            "SB/Content/Paks/~mods/Cosmetic_P.utoc",
        ]
    );
}

#[test]
fn a_pak_without_the_p_suffix_is_flagged_and_renamed_on_deploy() {
    let c = only(&["Outfit.pak"]);
    assert_eq!(c.mod_type, ModType::GenericPak);
    assert!(!c.pak_sets[0].had_p_suffix);
    assert!(
        c.warnings.iter().any(|w| w.contains("_P")),
        "expected a warning about the missing suffix, got {:?}",
        c.warnings
    );

    let plan = build_plan(1, "/staging", &[c], 12, "Outfit");
    assert_eq!(plan.files[0].target.replace('\\', "/"), "SB/Content/Paks/~mods/0012_Outfit_P.pak");
}

#[test]
fn an_incomplete_iostore_pair_is_reported() {
    let c = only(&["Outfit_P.pak", "Outfit_P.utoc"]);
    assert!(!c.pak_sets[0].is_complete());
    assert!(c.warnings.iter().any(|w| w.contains("utoc")));
}

#[test]
fn an_archive_of_only_documentation_asks_the_user() {
    let c = only(&["readme.txt", "preview.png"]);
    assert_eq!(c.mod_type, ModType::Unknown);
    assert_eq!(c.confidence, Confidence::AskUser);
}

#[test]
fn ue4ss_mods_are_registered_in_mods_txt() {
    let components = detect(&["CutsceneSkip/scripts/main.lua"]);
    let plan = build_plan(1, "/staging", &components, 0, "Cutscene Skip");
    assert_eq!(plan.ue4ss_registrations, vec!["CutsceneSkip"]);
}

#[test]
fn a_lua_mod_without_its_own_folder_falls_back_to_the_mod_name() {
    let components = detect(&["scripts/main.lua"]);
    assert_eq!(components[0].mod_type, ModType::Ue4ssLua);
    assert!(components[0].ue4ss_mod_name.is_none());

    let plan = build_plan(1, "/staging", &components, 0, "Cutscene: Skip");
    assert_eq!(plan.ue4ss_registrations, vec!["Cutscene_ Skip"]);
    assert_eq!(
        plan.files[0].target.replace('\\', "/"),
        "SB/Binaries/Win64/ue4ss/Mods/Cutscene_ Skip/scripts/main.lua"
    );
}

#[test]
fn load_order_prefixes_apply_only_to_the_mods_folder() {
    let logic = detect(&["LogicMods/Toggle_P.pak"]);
    let plan = build_plan(1, "/staging", &logic, 42, "Toggle");
    assert_eq!(
        plan.files[0].target.replace('\\', "/"),
        "SB/Content/Paks/LogicMods/Toggle_P.pak",
        "logic mods are resolved by UE4SS and must not be renamed"
    );
}

#[test]
fn priority_changes_the_deployed_pak_name_consistently() {
    let components = detect(&["Outfit_P.pak", "Outfit_P.utoc", "Outfit_P.ucas"]);
    let plan = build_plan(1, "/staging", &components, 250, "Outfit");

    let mut names: Vec<String> = plan.files.iter().map(|f| last_piece(&f.target)).collect();
    names.sort();
    assert_eq!(names, vec!["0250_Outfit_P.pak", "0250_Outfit_P.ucas", "0250_Outfit_P.utoc"]);
}

#[test]
fn descriptive_detail_is_a_note_not_a_warning() {
    let c = only(&["Movies/SplashScreen.mp4"]);
    assert!(c.warnings.is_empty());
    assert_eq!(c.notes, vec!["Replaces a game movie file of the same name."]);
    let lua = only(&["scripts/main.lua"]);
    assert!(lua.warnings.is_empty());
    assert_eq!(lua.notes.len(), 2);
}

#[test]
fn an_empty_tree_detects_nothing() {
    assert!(detect(&[]).is_empty());
}

#[test]
fn a_pak_set_without_its_pak_is_reported_by_stem() {
    let c = only(&["Sub/Thing_P.utoc", "Sub/Thing_P.ucas", "x_P.pak"]);
    assert_eq!(c.pak_sets.len(), 1);
    assert!(c.warnings.iter().any(|w| w.starts_with("`thing_p` has IoStore files but no .pak")));
}

#[test]
fn retargeting_an_unknown_component_reroutes_every_file() {
    let c = only(&["a.xyz", "Stuff/Outfit.pak.bak"]);
    assert_eq!(c.mod_type, ModType::Unknown);
    let r = retarget(&c, ModType::GenericPak, "Outfit");
    assert_eq!(r.mod_type, ModType::GenericPak);
    assert_eq!(r.confidence, Confidence::High);
    assert!(r.files.iter().all(|f| f.target.starts_with("SB/Content/Paks/~mods/")));
    let lua = retarget(&c, ModType::Ue4ssLua, "My: Mod");
    assert_eq!(lua.target_subdir, "SB/Binaries/Win64/ue4ss/Mods/My_ Mod");
    assert!(lua.pak_sets.is_empty());
}

#[test]
fn a_detection_pattern_lists_each_extension_once_in_order() {
    let tree = FileTree::new(&["Mod/b.utoc", "Mod/a.pak", "Mod/readme", "Mod/x.pak", "Mod/x.ucas"]);
    assert_eq!(sbmm::app::detection_pattern(&tree), "pak,ucas,utoc");
    assert_eq!(sbmm::app::detection_pattern(&FileTree::new(&["noext"])), "");
}

#[test]
fn a_tree_keeps_the_first_path_of_each_matching_form_in_order() {
    let tree = FileTree::new(&["B/x.pak", "a/./y.pak", "b/X.PAK", "", "./", "A/Y.pak"]);
    let entries = tree.entries();
    let norms: Vec<&str> = entries.iter().map(|e| e.norm.as_str()).collect();
    let paths: Vec<&str> = entries.iter().map(|e| e.path.as_str()).collect();
    assert_eq!(norms, vec!["a/y.pak", "b/x.pak"]);
    assert_eq!(paths, vec!["a/./y.pak", "B/x.pak"]);
    assert!(entries.iter().all(|e| e.rel == e.path));
}

#[test]
fn a_segment_is_found_whatever_its_case() {
    let tree = FileTree::new(&["Mod/LogicMods/a.pak", "Mod/Paks/b.pak", "logicmods/c.pak"]);
    let lower = tree.entries_under_segment("logicmods");
    let upper = tree.entries_under_segment("LOGICMODS");
    assert_eq!(lower.len(), 2);
    assert_eq!(lower, upper);
    assert_eq!(tree.has_segment("LogicMods"), !lower.is_empty());
    assert!(tree.entries_under_segment("movies").is_empty());
    assert!(!tree.has_segment("movies"));
}
