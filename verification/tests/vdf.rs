use sbmm::game::{
    is_stellar_blade_item, library_roots, push_unique, same_path_exec, steam_install_dir,
    GameInstall, InstallSource,
};
use sbmm::vdf::{parse, tokenize, Token, VdfValue};

const LIBRARY_FOLDERS: &str = r#"
"libraryfolders"
{
    "0"
    {
        "path"		"C:\\Program Files (x86)\\Steam"
        "apps"
        {
            "3489700"		"98765432"
        }
    }
    "1"
    {
        "path"		"D:\\SteamLibrary"
        "apps"
        {
        }
    }
}
"#;

#[test]
fn reads_nested_blocks_and_unescapes_paths() {
    let root = parse(LIBRARY_FOLDERS);
    let folders = root.get("libraryfolders").unwrap();
    assert_eq!(
        folders.get("0").unwrap().text_at("path"),
        Some(r"C:\Program Files (x86)\Steam")
    );
    assert_eq!(
        folders.get("1").unwrap().text_at("path"),
        Some(r"D:\SteamLibrary")
    );
}

#[test]
fn finds_an_app_inside_a_library() {
    let root = parse(LIBRARY_FOLDERS);
    let apps = root
        .get("libraryfolders")
        .unwrap()
        .get("0")
        .unwrap()
        .get("apps")
        .unwrap();
    assert!(apps.get("3489700").is_some());
}

#[test]
fn reads_an_app_manifest() {
    let manifest = r#"
"AppState"
{
    "appid"		"3489700"
    "name"		"Stellar Blade"
    "installdir"		"StellarBlade"
}
"#;
    let root = parse(manifest);
    assert_eq!(
        root.get("AppState").unwrap().text_at("installdir"),
        Some("StellarBlade")
    );
    assert_eq!(steam_install_dir(manifest), Some("StellarBlade".to_string()));
}

#[test]
fn ignores_comments() {
    let root = parse("// leading note\n\"a\"\t\"b\"\n");
    assert_eq!(root.text_at("a"), Some("b"));
}

#[test]
fn keys_are_matched_without_case_and_kept_in_order() {
    let root = parse("\"b\" \"2\" \"A\" \"1\" \"a\" \"3\" \"b\" \"4\"");
    let keys: Vec<&str> = root.entries().iter().map(|(k, _)| k.as_str()).collect();
    assert_eq!(keys, vec!["A", "a", "b"], "a repeated key keeps its last value");
    assert_eq!(root.text_at("B"), Some("4"));
    assert_eq!(root.text_at("a"), Some("1"), "the first matching key in order wins");
    assert_eq!(root.get("missing").map(|_| ()), None);
    assert!(root.as_text().is_none());
    assert!(VdfValue::Text("x".into()).entries().is_empty());
}

#[test]
fn odd_structure_is_tolerated() {
    // A block without a key is skipped; an unquoted word is a string.
    let root = parse("{ \"x\" \"y\" } key value \"nested\" { \"k\" v }");
    assert_eq!(root.text_at("key"), Some("value"));
    assert!(root.get("x").is_none());
    assert_eq!(root.get("nested").unwrap().text_at("k"), Some("v"));
}

#[test]
fn a_stray_closing_brace_ends_the_document() {
    let root = parse("\"a\" \"1\" } \"b\" \"2\"");
    assert_eq!(root.text_at("a"), Some("1"));
    assert!(root.get("b").is_none());
}

#[test]
fn a_key_without_a_value_ends_its_block() {
    // The dangling key leaves the `}` unread, so it closes the document too.
    let root = parse("\"outer\" { \"dangling\" } \"after\" \"yes\"");
    assert!(root.get("outer").unwrap().entries().is_empty());
    assert!(root.get("after").is_none());
}

#[test]
fn the_tokenizer_splits_strings_braces_and_words() {
    let tokens = tokenize("\"a b\" {x}/y // note\n\"c\\\"d\"");
    let shape: Vec<String> = tokens
        .iter()
        .map(|t| match t {
            Token::Str(s) => format!("s:{s}"),
            Token::Open => "{".to_string(),
            Token::Close => "}".to_string(),
        })
        .collect();
    assert_eq!(shape, vec!["s:a b", "{", "s:x", "}", "s:/y", "s:c\"d"]);
}

#[test]
fn an_unterminated_string_runs_to_the_end() {
    let root = parse("\"k\" \"v");
    assert_eq!(root.text_at("k"), Some("v"));
}

#[test]
fn library_roots_start_with_steam_and_skip_repeats() {
    let doc = parse(LIBRARY_FOLDERS);
    let roots = library_roots(r"C:\Program Files (x86)\Steam\", Some(&doc));
    assert_eq!(
        roots,
        vec![r"C:\Program Files (x86)\Steam\".to_string(), r"D:\SteamLibrary".to_string()]
    );
    assert_eq!(library_roots("S:/Steam", None), vec!["S:/Steam".to_string()]);
}

#[test]
fn paths_compare_by_their_pieces() {
    assert!(same_path_exec(r"C:\Games\SB", "C:/Games/SB/"));
    assert!(same_path_exec("a/./b", "a//b"));
    assert!(!same_path_exec("/a", "a"));
    assert!(!same_path_exec("a/b", "a/B"));
}

#[test]
fn epic_manifests_are_recognised_by_either_name() {
    assert!(is_stellar_blade_item("Stellar Blade™", ""));
    assert!(is_stellar_blade_item("", "StellarBladeGame"));
    assert!(!is_stellar_blade_item("Stellar", "Blade"));
}

#[test]
fn an_install_is_listed_once_per_root() {
    let mut found = Vec::new();
    let install = |root: &str, source| GameInstall {
        root: root.to_string(),
        source,
        executable: None,
    };
    push_unique(&mut found, install("D:/Games/SB", InstallSource::Steam));
    push_unique(&mut found, install(r"D:\Games\SB", InstallSource::Epic));
    push_unique(&mut found, install("E:/SB", InstallSource::Epic));
    assert_eq!(found.len(), 2);
    assert_eq!(found[0].source, InstallSource::Steam);
    assert_eq!(found[1].root, "E:/SB");
}

// ---------------------------------------------------------------------------
// The executable and the Epic launcher's manifests
// ---------------------------------------------------------------------------

#[test]
fn the_shipping_executable_is_matched_by_pattern() {
    assert!(sbmm::game::is_shipping_exe("SB-Win64-Shipping.exe"));
    assert!(sbmm::game::is_shipping_exe("sb-win64-shipping.EXE"));
    assert!(sbmm::game::is_shipping_exe("Rebadged-Win64-Shipping.exe"));
    assert!(!sbmm::game::is_shipping_exe("SB-Win64-Shipping.exe.bak"));
    assert!(!sbmm::game::is_shipping_exe("CrashReportClient.exe"));
}

#[test]
fn only_item_files_are_epic_manifests() {
    assert!(sbmm::game::is_epic_item("ABCDEF.item"));
    assert!(!sbmm::game::is_epic_item("ABCDEF.ITEM"));
    assert!(!sbmm::game::is_epic_item(".item"));
    assert!(!sbmm::game::is_epic_item("notes.txt"));
    assert!(!sbmm::game::is_epic_item("item"));
}

#[test]
fn an_epic_manifest_for_the_game_names_its_install_location() {
    let item = r#"{"DisplayName":"Stellar Blade","AppName":"x","InstallLocation":"D:\\Games\\StellarBlade"}"#;
    assert_eq!(
        sbmm::game::epic_install_location(item).as_deref(),
        Some("D:\\Games\\StellarBlade")
    );
    let by_app = r#"{"AppName":"StellarBladeMain","InstallLocation":"E:/SB"}"#;
    assert_eq!(sbmm::game::epic_install_location(by_app).as_deref(), Some("E:/SB"));
}

#[test]
fn other_games_and_broken_manifests_are_passed_over() {
    let other = r#"{"DisplayName":"Fortnite","AppName":"Fortnite","InstallLocation":"C:/F"}"#;
    assert_eq!(sbmm::game::epic_install_location(other), None);
    assert_eq!(sbmm::game::epic_install_location("not json"), None);
    assert_eq!(
        sbmm::game::epic_install_location(r#"{"DisplayName":"Stellar Blade"}"#),
        None
    );
}
