use sbmm::catalog::{parse_tags, source_for, tag_names};
use sbmm::json::JsonValue;
use sbmm::gpu::{Adapter, Capability, Vendor};
use sbmm::upscaler::{Component, Family, Version};

// ---------------------------------------------------------------------------
// Components and versions
// ---------------------------------------------------------------------------

#[test]
fn components_are_recognised_from_their_file_name_whatever_the_case() {
    assert_eq!(Component::from_file_name("nvngx_dlss.dll"), Some(Component::DlssSuperResolution));
    assert_eq!(Component::from_file_name("NVNGX_DLSSG.DLL"), Some(Component::DlssFrameGeneration));
    assert_eq!(Component::from_file_name("amd_fidelityfx_dx12.dll"), Some(Component::FsrDx12));
    // Similar names that are not upscalers must not be touched.
    assert_eq!(Component::from_file_name("nvngx.dll"), None);
    assert_eq!(Component::from_file_name("amd_ags_x64.dll"), None);
}

#[test]
fn versions_compare_numerically_not_as_text() {
    let older = Version::parse("3.7.10").unwrap();
    let newer = Version::parse("310.7.0").unwrap();
    assert!(newer > older, "310 is later than 3.7, despite sorting first");
    assert!(Version::parse("v1.1.4").unwrap() > Version::parse("1.1.3").unwrap());
    assert_eq!(Version::parse("2").unwrap(), Version(2, 0, 0, 0));
}

#[test]
fn version_display_hides_an_empty_build_number() {
    assert_eq!(Version(310, 7, 0, 0).to_text(), "310.7.0");
    assert_eq!(Version(1, 0, 1, 41314).to_text(), "1.0.1.41314");
}

#[test]
fn rubbish_versions_are_rejected_rather_than_guessed_at() {
    assert_eq!(Version::parse(""), None);
    assert_eq!(Version::parse("latest"), None);
    assert_eq!(Version::parse("1.2.3.4.5"), None);
    assert_eq!(Version::parse("3.1.x"), None);
}

#[test]
fn version_parsing_is_forgiving_about_spacing_and_prefixes() {
    assert_eq!(Version::parse("  vV1.+2 "), Some(Version(1, 2, 0, 0)));
    assert_eq!(Version::parse("65536"), None);
    assert_eq!(Version::parse("1..2"), None);
    assert!(Version(1, 2, 3, 4).is_before(&Version(1, 2, 4, 0)));
    assert!(!Version(2, 0, 0, 0).is_before(&Version(2, 0, 0, 0)));
}

#[test]
fn components_know_their_family_and_what_they_need() {
    assert_eq!(Component::DlssRayReconstruction.family(), Family::Dlss);
    assert_eq!(Component::FsrVulkan.family(), Family::Fsr);
    assert_eq!(Component::DlssFrameGeneration.required_capability(), Capability::DlssFrameGeneration);
    assert_eq!(Component::DlssRayReconstruction.required_capability(), Capability::DlssSuperResolution);
    assert_eq!(Component::FsrDx12.required_capability(), Capability::Universal);
    assert_eq!(Component::all().len(), 5);
    assert_eq!(Component::FsrDx12.label(), "FSR (DirectX 12)");
}

// ---------------------------------------------------------------------------
// Catalogue
// ---------------------------------------------------------------------------

#[test]
fn the_newest_dlss_tag_wins_on_number_not_on_text() {
    let tags = [
        "v3.1.30", "v3.5.0", "v3.5.10", "v3.7.0", "v3.7.10", "v3.7.20", "v310.1.0", "v310.5.3",
        "v310.7.0",
    ];
    let newest = source_for(Family::Dlss).unwrap().newest(&tags).unwrap();
    assert_eq!(newest.tag, "v310.7.0");
    assert_eq!(newest.version, Version(310, 7, 0, 0));
}

#[test]
fn fsr_stays_on_the_3_1_line_and_ignores_the_newer_sdk() {
    let tags = ["fsr3-v3.0.4", "v1.0.0", "v1.1.0", "v1.1.3", "v1.1.4", "v2.0.0", "v2.3.0"];
    let newest = source_for(Family::Fsr).unwrap().newest(&tags).unwrap();
    assert_eq!(
        newest.tag, "v1.1.4",
        "SDK 2.x renamed the DLLs, so it is not an upgrade for a 3.1 game"
    );
}

#[test]
fn tags_that_are_not_versions_are_dropped() {
    let dlss = source_for(Family::Dlss).unwrap();
    let newest = dlss.newest(&["latest", "main", "release-candidate", "v310.2.1"]);
    assert_eq!(newest.unwrap().tag, "v310.2.1");
    assert_eq!(dlss.newest(&["nightly", "wip"]), None);
}

#[test]
fn download_urls_point_at_the_vendors_own_files() {
    assert_eq!(
        source_for(Family::Dlss).unwrap().download_url("v310.7.0", Component::DlssSuperResolution),
        "https://raw.githubusercontent.com/NVIDIA/DLSS/v310.7.0/lib/Windows_x86_64/rel/nvngx_dlss.dll"
    );
    assert_eq!(
        source_for(Family::Fsr).unwrap().download_url("v1.1.4", Component::FsrDx12),
        "https://raw.githubusercontent.com/GPUOpen-LibrariesAndSDKs/FidelityFX-SDK/v1.1.4/PrebuiltSignedDLL/amd_fidelityfx_dx12.dll"
    );
}

#[test]
fn equal_versions_keep_the_later_tag_and_tags_are_listed_per_repo() {
    let dlss = source_for(Family::Dlss).unwrap();
    assert_eq!(dlss.newest(&["v1.0", "1.0.0"]).unwrap().tag, "1.0.0");
    assert_eq!(dlss.tags_url(), "https://api.github.com/repos/NVIDIA/DLSS/tags?per_page=100");
    assert_eq!(sbmm::catalog::catalog().len(), 2);
}

// ---------------------------------------------------------------------------
// Graphics cards
// ---------------------------------------------------------------------------

fn nvidia(name: &str) -> Adapter {
    Adapter::new(name, Vendor::Nvidia, 8 << 30)
}

#[test]
fn rtx_series_is_read_from_the_model_number() {
    assert_eq!(nvidia("NVIDIA GeForce RTX 2060").rtx_generation(), Some(20));
    assert_eq!(nvidia("NVIDIA GeForce RTX 3060 Ti").rtx_generation(), Some(30));
    assert_eq!(nvidia("NVIDIA GeForce RTX 4070 Ti SUPER").rtx_generation(), Some(40));
    assert_eq!(nvidia("NVIDIA GeForce RTX 5090").rtx_generation(), Some(50));
}

#[test]
fn cards_without_tensor_cores_are_not_guessed_at() {
    assert_eq!(nvidia("NVIDIA GeForce GTX 1080 Ti").rtx_generation(), None);
    assert_eq!(nvidia("NVIDIA GeForce GTX 1660 SUPER").rtx_generation(), None);
    assert_eq!(Adapter::new("AMD Radeon RX 7900 XTX", Vendor::Amd, 24 << 30).rtx_generation(), None);
    assert_eq!(Adapter::new("Intel(R) Arc(TM) A770", Vendor::Intel, 16 << 30).rtx_generation(), None);
}

#[test]
fn workstation_cards_are_placed_by_architecture() {
    assert_eq!(nvidia("NVIDIA RTX A4000").rtx_generation(), Some(30));
    assert_eq!(nvidia("NVIDIA RTX 4000 Ada Generation").rtx_generation(), Some(40));
}

#[test]
fn frame_generation_needs_a_40_series_but_super_resolution_does_not() {
    let ampere = nvidia("NVIDIA GeForce RTX 3080");
    assert!(ampere.supports(Capability::DlssSuperResolution));
    assert!(!ampere.supports(Capability::DlssFrameGeneration));

    let ada = nvidia("NVIDIA GeForce RTX 4060");
    assert!(ada.supports(Capability::DlssSuperResolution));
    assert!(ada.supports(Capability::DlssFrameGeneration));

    let blackwell = nvidia("NVIDIA GeForce RTX 5070");
    assert!(blackwell.supports(Capability::DlssFrameGeneration));
}

#[test]
fn dlss_is_never_offered_to_a_card_that_cannot_run_it() {
    let pascal = nvidia("NVIDIA GeForce GTX 1070");
    assert!(!pascal.supports(Capability::DlssSuperResolution));
    assert!(!pascal.supports(Capability::DlssFrameGeneration));

    let radeon = Adapter::new("AMD Radeon RX 6800 XT", Vendor::Amd, 16 << 30);
    assert!(!radeon.supports(Capability::DlssSuperResolution));
    // But FSR runs on anything, including NVIDIA.
    assert!(radeon.supports(Capability::Universal));
    assert!(pascal.supports(Capability::Universal));
}

#[test]
fn vendors_come_from_the_pci_id() {
    assert_eq!(Vendor::from_pci_id(0x10DE), Vendor::Nvidia);
    assert_eq!(Vendor::from_pci_id(0x1002), Vendor::Amd);
    assert_eq!(Vendor::from_pci_id(0x8086), Vendor::Intel);
    assert_eq!(Vendor::from_pci_id(0x1234), Vendor::Other);
}

#[test]
fn odd_model_numbers_are_not_assumed_to_be_a_series() {
    assert_eq!(nvidia("nvidia rtx 9090").rtx_generation(), None);
    assert_eq!(nvidia("RTX 1080").rtx_generation(), None);
    assert_eq!(nvidia("RTX 40").rtx_generation(), None);
    assert_eq!(nvidia("rtx\u{a0}3090").rtx_generation(), Some(30));
    assert_eq!(Adapter::new("RTX 4090", Vendor::Other, 0).rtx_generation(), None);
    assert!(sbmm::gpu::primary_adapter(Vec::new()).is_none());
}

// ---------------------------------------------------------------------------
// The GitHub tag listing
// ---------------------------------------------------------------------------

#[test]
fn tag_names_are_read_out_of_the_github_response() {
    let body = r#"[
        {"name": "v310.7.0", "zipball_url": "…", "commit": {"sha": "abc"}},
        {"name": "v310.6.0", "commit": {"sha": "def"}}
    ]"#;
    assert_eq!(parse_tags(body), vec!["v310.7.0", "v310.6.0"]);
}

#[test]
fn a_broken_tag_response_yields_nothing_rather_than_failing() {
    assert!(parse_tags("").is_empty());
    assert!(parse_tags(r#"{"message": "rate limit exceeded"}"#).is_empty());
    assert!(parse_tags("[{\"no_name\": 1}]").is_empty());
}

#[test]
fn entries_without_a_string_name_are_skipped_in_place() {
    let listing = JsonValue::Array(vec![
        JsonValue::Object(vec![("name".into(), JsonValue::String("v1".into()))]),
        JsonValue::Object(vec![("name".into(), JsonValue::Number(Some(2)))]),
        JsonValue::Null,
        JsonValue::Object(vec![
            ("sha".into(), JsonValue::String("x".into())),
            ("name".into(), JsonValue::String("v3".into())),
        ]),
    ]);
    assert_eq!(tag_names(&listing), vec!["v1", "v3"]);
    assert!(tag_names(&JsonValue::String("v1".into())).is_empty());
}

// ---------------------------------------------------------------------------
// Finding the DLLs in a game folder
// ---------------------------------------------------------------------------

/// The walk over a folder holding `files` (game-relative paths): folders
/// that are skipped are not entered, files are kept by name, and the result
/// is put in reported order.
fn scan(files: &[&str]) -> Vec<sbmm::scan::InstalledFile> {
    let mut found = Vec::new();
    for path in files {
        let parts: Vec<&str> = path.split('/').collect();
        let (name, dirs) = parts.split_last().unwrap();
        if dirs.iter().any(|d| sbmm::scan::skips_dir(d)) {
            continue;
        }
        if let Some(component) = Component::from_file_name(name) {
            found.push(sbmm::scan::InstalledFile { component, path: path.to_string(), version: None });
        }
    }
    sbmm::scan::reported_order(found)
}

#[test]
fn upscaler_dlls_are_found_wherever_unreal_put_them() {
    let found = scan(&[
        "SB/Binaries/Win64/nvngx_dlss.dll",
        "Engine/Plugins/Runtime/Nvidia/DLSS/Binaries/ThirdParty/Win64/nvngx_dlssg.dll",
        "SB/Binaries/Win64/amd_fidelityfx_dx12.dll",
        "SB/Binaries/Win64/SB-Win64-Shipping.exe",
        "SB/Binaries/Win64/amd_ags_x64.dll",
    ]);
    let components: Vec<Component> = found.iter().map(|f| f.component).collect();
    assert_eq!(
        components,
        vec![Component::DlssSuperResolution, Component::DlssFrameGeneration, Component::FsrDx12]
    );
    assert_eq!(found[0].path, "SB/Binaries/Win64/nvngx_dlss.dll");
}

#[test]
fn a_file_with_no_version_resource_is_still_reported() {
    let found = scan(&["SB/Binaries/Win64/nvngx_dlss.dll"]);
    assert_eq!(found.len(), 1);
    assert_eq!(found[0].version, None);
}

#[test]
fn both_copies_are_reported_when_a_dll_appears_twice() {
    let found = scan(&["SB/Binaries/Win64/nvngx_dlss.dll", "Engine/Binaries/ThirdParty/nvngx_dlss.dll"]);
    assert_eq!(found.len(), 2, "whichever the loader reaches first wins, so both matter");
    assert_eq!(found[0].path, "Engine/Binaries/ThirdParty/nvngx_dlss.dll");
}

#[test]
fn the_content_folder_is_not_walked() {
    assert!(scan(&["SB/Content/Paks/~mods/nvngx_dlss.dll", "SB/Content/nvngx_dlss.dll"]).is_empty());
    assert!(sbmm::scan::skips_dir("LogicMods"));
    assert!(sbmm::scan::skips_dir("~MODS"));
    assert!(!sbmm::scan::skips_dir("Binaries"));
}

#[test]
fn paths_are_ordered_component_by_component() {
    let file = |p: &str| sbmm::scan::InstalledFile {
        component: Component::DlssSuperResolution,
        path: p.to_string(),
        version: None,
    };
    let ordered = sbmm::scan::reported_order(vec![file("SB-x/a.dll"), file("SB/b/a.dll"), file("SB/a.dll")]);
    let paths: Vec<&str> = ordered.iter().map(|f| f.path.as_str()).collect();
    assert_eq!(paths, vec!["SB/a.dll", "SB/b/a.dll", "SB-x/a.dll"]);
}

// ---------------------------------------------------------------------------
// The upscaler screen
// ---------------------------------------------------------------------------

fn installed(component: Component, path: &str, version: Option<Version>) -> sbmm::scan::InstalledFile {
    sbmm::scan::InstalledFile { component, path: path.to_string(), version }
}

#[test]
fn a_row_is_shown_only_for_dlls_the_game_ships() {
    let files = vec![
        installed(Component::DlssSuperResolution, "A/nvngx_dlss.dll", Some(Version(3, 7, 10, 0))),
        installed(Component::DlssSuperResolution, "B/nvngx_dlss.dll", Some(Version(3, 5, 0, 0))),
        installed(Component::FsrDx12, "A/amd_fidelityfx_dx12.dll", None),
    ];
    let managed = vec![(Component::FsrDx12, "1.1.3".to_string()), (Component::FsrDx12, "1.1.4".to_string())];
    let newest = vec![(
        Family::Dlss,
        sbmm::catalog::Release { tag: "v310.7.0".into(), version: Version(310, 7, 0, 0) },
    )];
    let rows = sbmm::status::upscaler_entries(&files, &managed, None, &newest);
    assert_eq!(rows.len(), 2);
    assert_eq!(rows[0].component, Component::DlssSuperResolution);
    assert_eq!(rows[0].installed.len(), 2);
    assert_eq!(rows[0].installed_version.as_deref(), Some("3.5.0"), "the oldest copy holds the game back");
    assert_eq!(rows[0].latest_version.as_deref(), Some("310.7.0"));
    assert!(rows[0].supported, "an unknown card is treated as capable");
    assert_eq!(rows[0].blocked_reason, None);
    assert_eq!(rows[0].managed_version, None);
    assert_eq!(rows[1].component, Component::FsrDx12);
    assert_eq!(rows[1].installed_version, None);
    assert_eq!(rows[1].latest_version, None);
    assert_eq!(rows[1].managed_version.as_deref(), Some("1.1.4"));
    assert!(rows[1].note.as_deref().unwrap().contains("FSR 3.1"));
}

#[test]
fn a_card_that_cannot_run_a_dll_is_told_why() {
    let gtx = Adapter { name: "NVIDIA GeForce GTX 1080".into(), vendor: Vendor::Nvidia, memory_bytes: 8 };
    assert_eq!(
        sbmm::status::unsupported_reason(Component::DlssFrameGeneration, Some(&gtx)),
        "NVIDIA GeForce GTX 1080 cannot run DLSS Frame Generation \u{2014} that needs an RTX 40 series or newer."
    );
    assert_eq!(
        sbmm::status::unsupported_reason(Component::DlssSuperResolution, None),
        "this card cannot run DLSS \u{2014} that needs an RTX 20 series or newer."
    );
    assert!(sbmm::status::check_supported(Component::DlssSuperResolution, Some(&gtx)).is_err());
    assert!(sbmm::status::check_supported(Component::FsrDx12, Some(&gtx)).is_ok());
    let rows = sbmm::status::upscaler_entries(
        &[installed(Component::DlssSuperResolution, "A/nvngx_dlss.dll", None)],
        &[],
        Some(&gtx),
        &[],
    );
    assert!(!rows[0].supported);
    assert!(rows[0].blocked_reason.is_some());
}

#[test]
fn a_refused_tag_listing_offers_nothing() {
    let dlss = source_for(Family::Dlss).unwrap();
    let body = r#"[{"name":"v310.2.1"},{"name":"v3.7.10"}]"#;
    assert_eq!(sbmm::status::latest_release(&dlss, 403, body), None);
    assert_eq!(sbmm::status::latest_release(&dlss, 200, body).unwrap().tag, "v310.2.1");
    assert_eq!(sbmm::status::download_file_name("v310.2.1", Component::DlssSuperResolution), "v310.2.1-nvngx_dlss.dll");
    assert_eq!(
        sbmm::status::targets_of(
            &[
                installed(Component::DlssSuperResolution, "A/nvngx_dlss.dll", None),
                installed(Component::FsrDx12, "A/amd_fidelityfx_dx12.dll", None),
                installed(Component::DlssSuperResolution, "B/nvngx_dlss.dll", None),
            ],
            Component::DlssSuperResolution
        ),
        vec!["A/nvngx_dlss.dll", "B/nvngx_dlss.dll"]
    );
}

fn info(name: &str, vendor_id: u32, memory_bytes: u64, software: bool) -> sbmm::gpu::AdapterInfo {
    sbmm::gpu::AdapterInfo { name: name.to_string(), vendor_id, memory_bytes, software }
}

#[test]
fn the_card_with_the_most_memory_comes_first_and_the_software_renderer_not_at_all() {
    let found = vec![
        info("Intel UHD Graphics", 0x8086, 128 << 20, false),
        info("Microsoft Basic Render Driver", 0x1414, 0, true),
        info("NVIDIA GeForce RTX 4070 Laptop GPU", 0x10DE, 8 << 30, false),
        info("Second card", 0x1002, 128 << 20, false),
    ];
    let ranked = sbmm::gpu::adapters(found.clone());
    let names: Vec<&str> = ranked.iter().map(|a| a.name.as_str()).collect();
    assert_eq!(names, vec!["NVIDIA GeForce RTX 4070 Laptop GPU", "Intel UHD Graphics", "Second card"]);
    assert_eq!(ranked[0].vendor, Vendor::Nvidia);
    assert_eq!(ranked[2].vendor, Vendor::Amd);
    let primary = sbmm::gpu::primary_adapter(found).unwrap();
    assert_eq!(primary.name, "NVIDIA GeForce RTX 4070 Laptop GPU");
    assert_eq!(primary.memory_bytes, 8 << 30);
    assert!(sbmm::gpu::primary_adapter(vec![info("Microsoft Basic Render Driver", 0x1414, 0, true)]).is_none());
}

#[test]
fn the_upscaler_screen_names_the_card_it_judged_by() {
    let gtx = Adapter { name: "NVIDIA GeForce GTX 1080".into(), vendor: Vendor::Nvidia, memory_bytes: 8 };
    let files = [installed(Component::DlssSuperResolution, "A/nvngx_dlss.dll", None)];
    let status = sbmm::status::upscaler_status(&files, &[], Some(gtx.clone()), &[]);
    assert_eq!(status.adapter, Some(gtx));
    assert_eq!(status.entries.len(), 1);
    assert!(!status.entries[0].supported);
    let unknown = sbmm::status::upscaler_status(&files, &[], None, &[]);
    assert_eq!(unknown.adapter, None);
    assert!(unknown.entries[0].supported);
}

#[test]
fn component_file_names_are_recognised_in_any_case_and_only_they() {
    for c in Component::all() {
        assert_eq!(Component::from_file_name(c.file_name()), Some(c));
        assert_eq!(Component::from_file_name(&c.file_name().to_ascii_uppercase()), Some(c));
    }
    assert_eq!(Component::from_file_name("nvngx.dll"), None);
    assert_eq!(Component::from_file_name("amd_ags_x64.dll"), None);
}
