use sbmm::app::ModRecord;
use sbmm::assets::{read_all, Asset, AssetError};
use sbmm::conflicts::{conflict_report, ContestedAsset};
use sbmm::pak;

fn record(id: i64, name: &str, enabled: bool, priority: i64, indexed: bool) -> ModRecord {
    ModRecord {
        id,
        name: name.to_string(),
        staging_folder: format!("{id}"),
        version: None,
        source: "manual".into(),
        nexus_mod_id: None,
        nexus_file_id: None,
        group_id: None,
        primary_type: "genericPak".into(),
        size_bytes: 0,
        image_path: None,
        notes: None,
        installed_at: "2024-01-01".into(),
        enabled,
        priority,
        latest_version: None,
        update_checked_at: None,
        assets_indexed_at: if indexed { Some("2024-01-02".into()) } else { None },
    }
}

fn contested(asset: &str, ids: &[i64]) -> ContestedAsset {
    ContestedAsset { asset: asset.to_string(), named: true, mod_ids: ids.to_vec() }
}

const BODY: &str = "sb/content/characters/eve/body.uasset";

#[test]
fn the_mod_later_in_the_load_order_wins_a_shared_asset() {
    let mods = vec![record(1, "Aurora", true, 10, true), record(2, "Nova", true, 20, true)];
    let report = conflict_report(&mods, &[contested(BODY, &[1, 2])]);
    assert_eq!(report.conflicts.len(), 1);
    let conflict = &report.conflicts[0];
    assert_eq!(conflict.asset, BODY);
    assert!(conflict.named);
    let order: Vec<(i64, bool)> = conflict.claimants.iter().map(|c| (c.mod_id, c.wins)).collect();
    assert_eq!(order, vec![(1, false), (2, true)]);
    assert_eq!(conflict.claimants[1].name, "Nova");
    assert_eq!(conflict.claimants[1].priority, 20);
}

#[test]
fn moving_a_mod_up_the_order_hands_it_the_asset() {
    let mods = vec![record(1, "Aurora", true, 30, true), record(2, "Nova", true, 20, true)];
    let report = conflict_report(&mods, &[contested(BODY, &[2, 1])]);
    let winner = report.conflicts[0].claimants.iter().find(|c| c.wins).unwrap();
    assert_eq!(winner.mod_id, 1);
}

#[test]
fn equal_priorities_are_settled_by_id() {
    let mods = vec![record(7, "Late", true, 5, true), record(3, "Early", true, 5, true)];
    let report = conflict_report(&mods, &[contested(BODY, &[7, 3])]);
    let order: Vec<i64> = report.conflicts[0].claimants.iter().map(|c| c.mod_id).collect();
    assert_eq!(order, vec![3, 7]);
    assert!(report.conflicts[0].claimants[1].wins);
}

#[test]
fn a_disabled_mod_takes_no_part_in_a_conflict() {
    let mods = vec![record(1, "Aurora", true, 10, true), record(2, "Nova", false, 20, true)];
    let report = conflict_report(&mods, &[contested(BODY, &[1, 2])]);
    assert!(report.conflicts.is_empty());
    assert!(report.overridden.is_empty());
}

#[test]
fn every_mod_is_counted_for_what_it_wins_and_loses() {
    let mods = vec![
        record(1, "Aurora", true, 10, true),
        record(2, "Nova", true, 20, true),
        record(3, "Third", true, 15, true),
    ];
    let report = conflict_report(
        &mods,
        &[contested("a", &[1, 2]), contested("b", &[2, 1]), contested("c", &[1, 3])],
    );
    let counts: Vec<(i64, i64, i64)> =
        report.overridden.iter().map(|c| (c.mod_id, c.losing, c.winning)).collect();
    assert_eq!(counts, vec![(1, 3, 0), (2, 0, 2), (3, 0, 1)]);
}

#[test]
fn unreadable_mods_are_named_rather_than_left_out() {
    let mods = vec![
        record(1, "Indexed", true, 10, true),
        record(2, "Mystery", true, 20, false),
        record(3, "Off", false, 30, false),
    ];
    let report = conflict_report(&mods, &[]);
    assert_eq!(report.unreadable, vec!["Mystery".to_string()]);
    assert!(report.conflicts.is_empty());
}

#[test]
fn mods_that_provide_different_assets_do_not_conflict() {
    let mods = vec![record(1, "Aurora", true, 10, true), record(2, "Nova", true, 20, true)];
    let report = conflict_report(&mods, &[contested("a", &[1]), contested("b", &[2])]);
    assert!(report.conflicts.is_empty());
}

// ---------------------------------------------------------------------------
// The same reports, reached from real pak bytes: each mod's containers are
// read, assets claimed by two or more mods become contested rows, and the
// report is built from the mods' enabled state and load order.
// ---------------------------------------------------------------------------

fn fstring(out: &mut Vec<u8>, value: &str) {
    out.extend_from_slice(&(value.len() as u32 + 1).to_le_bytes());
    out.extend_from_slice(value.as_bytes());
    out.push(0);
}

/// A v11 pak whose directory index names `assets`, one directory entry each.
fn pak_with(assets: &[&str]) -> Vec<u8> {
    let mut directory = Vec::new();
    directory.extend_from_slice(&(assets.len() as u32).to_le_bytes());
    for (index, asset) in assets.iter().enumerate() {
        let (dir, file) = asset.rsplit_once('/').unwrap_or(("", asset));
        fstring(&mut directory, &format!("{dir}/"));
        directory.extend_from_slice(&1u32.to_le_bytes());
        fstring(&mut directory, file);
        directory.extend_from_slice(&(index as u32).to_le_bytes());
    }

    let mut file = vec![0u8; 32];
    let directory_offset = file.len() as u64;
    file.extend_from_slice(&directory);

    let index_offset = file.len() as u64;
    let mut index = Vec::new();
    fstring(&mut index, "../../../");
    index.extend_from_slice(&(assets.len() as u32).to_le_bytes());
    index.extend_from_slice(&0u64.to_le_bytes());
    index.extend_from_slice(&0u32.to_le_bytes());
    index.extend_from_slice(&1u32.to_le_bytes());
    index.extend_from_slice(&directory_offset.to_le_bytes());
    index.extend_from_slice(&(directory.len() as u64).to_le_bytes());
    index.extend_from_slice(&[0u8; 20]);
    let index_size = index.len() as u64;
    file.extend_from_slice(&index);

    file.extend_from_slice(&[0u8; 16]);
    file.push(0);
    file.extend_from_slice(&0x5A6F_12E1u32.to_le_bytes());
    file.extend_from_slice(&11u32.to_le_bytes());
    file.extend_from_slice(&index_offset.to_le_bytes());
    file.extend_from_slice(&index_size.to_le_bytes());
    file.extend_from_slice(&[0u8; 20]);
    file.extend_from_slice(&[0u8; 32 * 5]);
    file
}

fn read_pak(path: &str, file: &[u8]) -> Result<Vec<Asset>, AssetError> {
    let tail = &file[file.len().saturating_sub(221)..];
    let footer = pak::locate_index(path, tail)?;
    let start = footer.index_offset as usize;
    let index = pak::parse_index(path, &file[start..start + footer.index_size as usize])?;
    match index.directory {
        None => Ok(Vec::new()),
        Some((offset, size)) => {
            pak::parse_directory_index(path, &file[offset as usize..(offset + size) as usize], &index.mount_point)
        }
    }
}

/// Installed mods in install order, each with the bytes of its one pak.
struct Library {
    mods: Vec<ModRecord>,
    assets: Vec<(i64, Vec<Asset>)>,
}

impl Library {
    fn new() -> Self {
        Library { mods: Vec::new(), assets: Vec::new() }
    }

    /// A new mod is disabled, at the end of the load order.
    fn install(&mut self, name: &str, pak: &[u8]) -> i64 {
        let id = self.mods.len() as i64 + 1;
        let priority = self.mods.iter().map(|m| m.priority).max().unwrap_or(0) + 10;
        let (assets, problems) = read_all(vec![read_pak(&format!("{name}_P.pak"), pak)]);
        self.mods.push(record(id, name, false, priority, problems.is_empty()));
        self.assets.push((id, assets));
        id
    }

    fn install_pak(&mut self, name: &str, assets: &[&str]) -> i64 {
        self.install(name, &pak_with(assets))
    }

    fn set_enabled(&mut self, ids: &[i64], enabled: bool) {
        for m in self.mods.iter_mut().filter(|m| ids.contains(&m.id)) {
            m.enabled = enabled;
        }
    }

    fn set_order(&mut self, ids: &[i64]) {
        for (index, id) in ids.iter().enumerate() {
            if let Some(m) = self.mods.iter_mut().find(|m| m.id == *id) {
                m.priority = (index as i64 + 1) * 10;
            }
        }
    }

    fn conflicts(&self) -> sbmm::app::ConflictReport {
        let mut rows: Vec<ContestedAsset> = Vec::new();
        for (id, assets) in &self.assets {
            for asset in assets {
                let (label, named) = match asset {
                    Asset::Path(p) => (p.clone(), true),
                    Asset::Chunk(c) => (c.clone(), false),
                };
                match rows.iter_mut().find(|r| r.asset == label) {
                    Some(row) => row.mod_ids.push(*id),
                    None => rows.push(ContestedAsset { asset: label, named, mod_ids: vec![*id] }),
                }
            }
        }
        rows.retain(|r| r.mod_ids.len() > 1);
        rows.sort_by(|a, b| a.asset.cmp(&b.asset));
        conflict_report(&self.mods, &rows)
    }
}

#[test]
fn two_mods_replacing_one_asset_are_reported_with_the_winner_named() {
    let mut fx = Library::new();
    let shared = "SB/Content/Characters/Eve/Body.uasset";

    let first = fx.install_pak("Aurora", &[shared, "SB/Content/Only/Aurora.uasset"]);
    let second = fx.install_pak("Nova", &[shared]);
    fx.set_enabled(&[first, second], true);

    let report = fx.conflicts();
    assert_eq!(report.conflicts.len(), 1, "only the shared asset is contested");

    let conflict = &report.conflicts[0];
    assert_eq!(conflict.asset, "sb/content/characters/eve/body.uasset");
    assert!(conflict.named);
    assert_eq!(conflict.claimants.len(), 2);

    let winner = conflict.claimants.iter().find(|c| c.wins).unwrap();
    assert_eq!(winner.mod_id, second);
    assert_eq!(
        conflict.claimants.iter().filter(|c| c.wins).count(),
        1,
        "exactly one mod can win an asset"
    );
}

#[test]
fn reordering_hands_the_asset_to_the_other_mod() {
    let mut fx = Library::new();
    let shared = "SB/Content/Characters/Eve/Body.uasset";

    let first = fx.install_pak("Aurora", &[shared]);
    let second = fx.install_pak("Nova", &[shared]);
    fx.set_enabled(&[first, second], true);

    let before = fx.conflicts();
    assert!(before.conflicts[0].claimants.iter().any(|c| c.mod_id == second && c.wins));

    fx.set_order(&[second, first]);

    let after = fx.conflicts();
    assert!(
        after.conflicts[0].claimants.iter().any(|c| c.mod_id == first && c.wins),
        "the mod moved to the end of the order should now win"
    );
}

#[test]
fn a_disabled_mod_is_not_part_of_a_conflict() {
    let mut fx = Library::new();
    let shared = "SB/Content/Characters/Eve/Body.uasset";

    let first = fx.install_pak("Aurora", &[shared]);
    let second = fx.install_pak("Nova", &[shared]);

    fx.set_enabled(&[first], true);
    assert!(
        fx.conflicts().conflicts.is_empty(),
        "one enabled mod cannot conflict with a disabled one"
    );

    fx.set_enabled(&[second], true);
    assert_eq!(fx.conflicts().conflicts.len(), 1);
}

#[test]
fn each_mod_is_counted_for_what_it_wins_and_loses() {
    let mut fx = Library::new();
    let a = "SB/Content/A.uasset";
    let b = "SB/Content/B.uasset";

    let first = fx.install_pak("Aurora", &[a, b]);
    let second = fx.install_pak("Nova", &[a, b]);
    fx.set_enabled(&[first, second], true);

    let report = fx.conflicts();
    let loser = report.overridden.iter().find(|c| c.mod_id == first).unwrap();
    let winner = report.overridden.iter().find(|c| c.mod_id == second).unwrap();

    assert_eq!(loser.losing, 2, "both of Aurora's assets are overridden");
    assert_eq!(loser.winning, 0);
    assert_eq!(winner.winning, 2);
    assert_eq!(winner.losing, 0);
}

#[test]
fn mods_that_replace_different_assets_do_not_conflict() {
    let mut fx = Library::new();
    let first = fx.install_pak("Aurora", &["SB/Content/A.uasset"]);
    let second = fx.install_pak("Nova", &["SB/Content/B.uasset"]);
    fx.set_enabled(&[first, second], true);

    assert!(fx.conflicts().conflicts.is_empty());
}

#[test]
fn a_mod_whose_containers_could_not_be_read_is_named_as_unknown() {
    let mut fx = Library::new();
    let id = fx.install("Mystery", b"this is not a pak at all");
    fx.set_enabled(&[id], true);

    let report = fx.conflicts();
    assert_eq!(
        report.unreadable,
        vec!["Mystery"],
        "an unreadable mod is listed rather than treated as empty"
    );
}
