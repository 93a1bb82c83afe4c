use sbmm::assets::{container_of, normalise, read_all, Asset, AssetError, Container};
use sbmm::pak;
use sbmm::utoc::{self, TocHeader};

fn labels(assets: &[Asset]) -> Vec<String> {
    assets.iter().map(|a| a.label().to_string()).collect()
}

// ---------------------------------------------------------------------------
// Assets
// ---------------------------------------------------------------------------

#[test]
fn asset_paths_are_compared_without_case_or_separator_differences() {
    assert_eq!(
        Asset::path("SB\\Content\\Eve\\Body.uasset"),
        Asset::path("sb/content/eve/body.uasset")
    );
    assert_eq!(
        Asset::path("/SB/Content/Thing.uasset"),
        Asset::path("SB/Content/Thing.uasset"),
        "a leading separator is a mount-point artefact, not part of the name"
    );
}

#[test]
fn normalising_lowercases_and_drops_every_leading_separator() {
    assert_eq!(normalise("\\\\/A\\B/C.UASSET"), "a/b/c.uasset");
    assert_eq!(normalise(""), "");
    assert_eq!(normalise("///"), "");
}

#[test]
fn only_the_two_index_formats_are_containers() {
    assert_eq!(container_of("Mods/Outfit_P.utoc"), Some(Container::Utoc));
    assert_eq!(container_of("Mods/Outfit_P.PAK"), Some(Container::Pak));
    assert_eq!(container_of("Mods/Outfit_P.ucas"), None);
    assert_eq!(container_of("readme.txt"), None);
    assert_eq!(container_of(".pak"), None);
}

#[test]
fn one_unreadable_container_does_not_lose_the_others() {
    let broken = Err(AssetError::NotAToc("broken.utoc".into()));
    let fine = Ok(vec![Asset::path("b.uasset"), Asset::path("a.uasset")]);
    let also = Ok(vec![Asset::path("A.uasset"), Asset::Chunk("00ff".into())]);

    let (assets, problems) = read_all(vec![broken, fine, also]);
    assert_eq!(labels(&assets), vec!["a.uasset", "b.uasset", "00ff"]);
    assert_eq!(problems.len(), 1, "the unreadable one is reported, not hidden");
    assert_eq!(problems[0].message(), "broken.utoc is not an IoStore container");
}

#[test]
fn nothing_read_is_nothing_provided() {
    let (assets, problems) = read_all(Vec::new());
    assert!(assets.is_empty());
    assert!(problems.is_empty());
}

#[test]
fn each_error_says_which_file_and_why() {
    assert_eq!(
        AssetError::io("a.pak", "denied").message(),
        "i/o error at a.pak: denied"
    );
    assert_eq!(AssetError::NotAPak("a.pak".into()).message(), "a.pak is not an Unreal pak");
    assert_eq!(
        AssetError::malformed("a.pak", "short").message(),
        "a.pak is malformed: short"
    );
    assert_eq!(
        AssetError::Encrypted("a.pak".into()).message(),
        "a.pak has an encrypted index, so its contents cannot be listed"
    );
    assert_eq!(
        AssetError::UnsupportedVersion("a.pak".into()).message(),
        "a.pak uses an index format older than this reader supports"
    );
}

#[test]
fn a_named_asset_and_a_chunk_are_told_apart() {
    assert!(Asset::path("x").is_named());
    assert!(!Asset::Chunk("00".into()).is_named());
}

// ---------------------------------------------------------------------------
// .pak
// ---------------------------------------------------------------------------

fn fstring(out: &mut Vec<u8>, value: &str) {
    out.extend_from_slice(&(value.len() as u32 + 1).to_le_bytes());
    out.extend_from_slice(value.as_bytes());
    out.push(0);
}

/// The blob a v11 pak's full directory index holds.
fn pak_directory_index(entries: &[(&str, &[&str])]) -> Vec<u8> {
    let mut out = Vec::new();
    out.extend_from_slice(&(entries.len() as u32).to_le_bytes());
    for (directory, files) in entries {
        fstring(&mut out, directory);
        out.extend_from_slice(&(files.len() as u32).to_le_bytes());
        for (index, file) in files.iter().enumerate() {
            fstring(&mut out, file);
            out.extend_from_slice(&(index as u32).to_le_bytes());
        }
    }
    out
}

#[test]
fn directory_and_file_names_are_joined_under_the_mount_point() {
    let blob = pak_directory_index(&[
        ("/Characters/Eve/", &["Body.uasset", "Body.uexp"][..]),
        ("/Weapons/", &["Blade.uasset"][..]),
    ]);
    let assets = pak::parse_directory_index("t.pak", &blob, "../../../SB/Content/").unwrap();
    assert_eq!(
        labels(&assets),
        vec![
            "sb/content/characters/eve/body.uasset",
            "sb/content/characters/eve/body.uexp",
            "sb/content/weapons/blade.uasset",
        ]
    );
}

#[test]
fn a_mod_rooted_at_the_game_needs_no_mount_prefix() {
    let blob = pak_directory_index(&[("SB/Content/", &["Thing.uasset"][..])]);
    let assets = pak::parse_directory_index("t.pak", &blob, "../../../").unwrap();
    assert_eq!(labels(&assets), vec!["sb/content/thing.uasset"]);
}

#[test]
fn a_truncated_index_is_refused() {
    let blob = pak_directory_index(&[("/A/", &["b.uasset"][..])]);
    for cut in [1, blob.len() / 2, blob.len() - 1] {
        assert!(
            pak::parse_directory_index("t.pak", &blob[..cut], "").is_err(),
            "a blob cut at {cut} should not parse"
        );
    }
}

#[test]
fn pak_a_count_larger_than_the_blob_is_refused() {
    let mut blob = Vec::new();
    blob.extend_from_slice(&u32::MAX.to_le_bytes());
    assert!(pak::parse_directory_index("t.pak", &blob, "").is_err());
}

#[test]
fn a_short_directory_index_says_where_it_broke() {
    let blob = pak_directory_index(&[("/A/", &["b.uasset"][..])]);
    let err = pak::parse_directory_index("t.pak", &blob[..blob.len() - 1], "").unwrap_err();
    assert_eq!(err.message(), "t.pak is malformed: the index ends mid-record");
}

#[test]
fn a_utf16_name_is_decoded() {
    let mut blob = Vec::new();
    blob.extend_from_slice(&1u32.to_le_bytes());
    fstring(&mut blob, "/Dir/");
    blob.extend_from_slice(&1u32.to_le_bytes());
    // "Ève.uasset" written as UTF-16 with a terminating zero unit.
    let wide: Vec<u16> = "Ève.uasset".encode_utf16().chain([0]).collect();
    blob.extend_from_slice(&(-(wide.len() as i32)).to_le_bytes());
    for unit in &wide {
        blob.extend_from_slice(&unit.to_le_bytes());
    }
    blob.extend_from_slice(&0u32.to_le_bytes());
    let assets = pak::parse_directory_index("t.pak", &blob, "").unwrap();
    assert_eq!(labels(&assets), vec!["dir/Ève.uasset"]);
}

/// A whole v11 pak: payload, directory index, index, then the footer.
fn v11_pak(encrypted: bool) -> Vec<u8> {
    let directory = pak_directory_index(&[("/Characters/", &["Eve.uasset"][..])]);
    let mut file = vec![0u8; 64];
    let directory_offset = file.len() as u64;
    file.extend_from_slice(&directory);

    let index_offset = file.len() as u64;
    let mut index = Vec::new();
    fstring(&mut index, "../../../SB/Content/");
    index.extend_from_slice(&1u32.to_le_bytes()); // entry count
    index.extend_from_slice(&0u64.to_le_bytes()); // path hash seed
    index.extend_from_slice(&0u32.to_le_bytes()); // no path hash index
    index.extend_from_slice(&1u32.to_le_bytes()); // a directory index follows
    index.extend_from_slice(&directory_offset.to_le_bytes());
    index.extend_from_slice(&(directory.len() as u64).to_le_bytes());
    index.extend_from_slice(&[0u8; 20]);
    let index_size = index.len() as u64;
    file.extend_from_slice(&index);

    file.extend_from_slice(&[0u8; 16]); // encryption key guid
    file.push(if encrypted { 1 } else { 0 });
    file.extend_from_slice(&pak::MAGIC.to_le_bytes());
    file.extend_from_slice(&11u32.to_le_bytes());
    file.extend_from_slice(&index_offset.to_le_bytes());
    file.extend_from_slice(&index_size.to_le_bytes());
    file.extend_from_slice(&[0u8; 20]); // hash
    file.extend_from_slice(&[0u8; 32 * 5]); // compression names
    file
}

fn tail(file: &[u8]) -> &[u8] {
    &file[file.len().saturating_sub(221)..]
}

fn read_pak(path: &str, file: &[u8]) -> Result<Vec<Asset>, AssetError> {
    let footer = pak::locate_index(path, tail(file))?;
    let start = footer.index_offset as usize;
    let index = &file[start..start + footer.index_size as usize];
    let index = pak::parse_index(path, index)?;
    match index.directory {
        None => Ok(Vec::new()),
        Some((offset, size)) => {
            let blob = &file[offset as usize..(offset + size) as usize];
            pak::parse_directory_index(path, blob, &index.mount_point)
        }
    }
}

#[test]
fn a_v11_pak_is_read_from_its_footer_through_to_its_names() {
    let file = v11_pak(false);
    let assets = read_pak("Outfit_P.pak", &file).unwrap();
    assert_eq!(labels(&assets), vec!["sb/content/characters/eve.uasset"]);
}

#[test]
fn an_encrypted_index_says_so_rather_than_returning_nothing() {
    let file = v11_pak(true);
    assert!(matches!(
        pak::locate_index("Locked_P.pak", tail(&file)),
        Err(AssetError::Encrypted(_))
    ));
}

#[test]
fn a_file_that_is_not_a_pak_is_refused() {
    let file = vec![0u8; 4096];
    assert!(matches!(
        pak::locate_index("fake.pak", tail(&file)),
        Err(AssetError::NotAPak(_))
    ));
}

#[test]
fn a_file_too_short_to_hold_a_footer_is_refused() {
    assert!(matches!(
        pak::locate_index("tiny.pak", b"nope"),
        Err(AssetError::NotAPak(_))
    ));
}

#[test]
fn an_old_pak_is_refused_with_its_reason() {
    // A v3 footer: magic, version 3, offset, size, hash.
    let mut file = vec![0u8; 10];
    file.extend_from_slice(&pak::MAGIC.to_le_bytes());
    file.extend_from_slice(&3u32.to_le_bytes());
    file.extend_from_slice(&0u64.to_le_bytes());
    file.extend_from_slice(&0u64.to_le_bytes());
    file.extend_from_slice(&[0u8; 20]);
    let footer = pak::find_footer(tail(&file)).unwrap();
    assert_eq!(footer.version, 3);
    assert!(!footer.encrypted);
    assert!(matches!(
        pak::locate_index("old.pak", tail(&file)),
        Err(AssetError::UnsupportedVersion(_))
    ));
}

#[test]
fn an_index_without_a_directory_index_lists_nothing() {
    let mut index = Vec::new();
    fstring(&mut index, "../../../");
    index.extend_from_slice(&0u32.to_le_bytes());
    index.extend_from_slice(&0u64.to_le_bytes());
    index.extend_from_slice(&0u32.to_le_bytes());
    index.extend_from_slice(&0u32.to_le_bytes());
    let parsed = pak::parse_index("t.pak", &index).unwrap();
    assert_eq!(parsed.mount_point, "../../../");
    assert_eq!(parsed.directory, None);
    assert!(pak::parse_index("t.pak", &index[..index.len() - 1]).is_err());
}

// ---------------------------------------------------------------------------
// .utoc
// ---------------------------------------------------------------------------

const NONE: u32 = u32::MAX;

/// A directory index blob built the way Unreal writes one.
struct IndexBuilder {
    strings: Vec<String>,
    directories: Vec<[u32; 4]>,
    files: Vec<[u32; 3]>,
    mount: String,
}

impl IndexBuilder {
    fn new(mount: &str) -> Self {
        Self {
            strings: Vec::new(),
            directories: vec![[NONE, NONE, NONE, NONE]],
            files: Vec::new(),
            mount: mount.to_string(),
        }
    }

    fn intern(&mut self, name: &str) -> u32 {
        if let Some(i) = self.strings.iter().position(|s| s == name) {
            return i as u32;
        }
        self.strings.push(name.to_string());
        self.strings.len() as u32 - 1
    }

    fn add(&mut self, path: &str) {
        let mut parts: Vec<&str> = path.split('/').collect();
        let file_name = parts.pop().expect("a path has a last component");

        let mut dir = 0usize;
        for part in parts {
            let name = self.intern(part);
            let mut child = self.directories[dir][1];
            let mut found = None;
            let mut last = None;
            while child != NONE {
                if self.directories[child as usize][0] == name {
                    found = Some(child as usize);
                    break;
                }
                last = Some(child as usize);
                child = self.directories[child as usize][2];
            }
            dir = match found {
                Some(existing) => existing,
                None => {
                    self.directories.push([name, NONE, NONE, NONE]);
                    let new = self.directories.len() - 1;
                    match last {
                        Some(sibling) => self.directories[sibling][2] = new as u32,
                        None => self.directories[dir][1] = new as u32,
                    }
                    new
                }
            };
        }

        let name = self.intern(file_name);
        self.files.push([name, NONE, self.files.len() as u32]);
        let new = self.files.len() as u32 - 1;

        let mut file = self.directories[dir][3];
        if file == NONE {
            self.directories[dir][3] = new;
        } else {
            while self.files[file as usize][1] != NONE {
                file = self.files[file as usize][1];
            }
            self.files[file as usize][1] = new;
        }
    }

    fn build(&self) -> Vec<u8> {
        let mut out = Vec::new();
        fstring(&mut out, &self.mount);
        out.extend_from_slice(&(self.directories.len() as u32).to_le_bytes());
        for dir in &self.directories {
            for field in dir {
                out.extend_from_slice(&field.to_le_bytes());
            }
        }
        out.extend_from_slice(&(self.files.len() as u32).to_le_bytes());
        for file in &self.files {
            for field in file {
                out.extend_from_slice(&field.to_le_bytes());
            }
        }
        out.extend_from_slice(&(self.strings.len() as u32).to_le_bytes());
        for value in &self.strings {
            fstring(&mut out, value);
        }
        out
    }
}

#[test]
fn the_directory_tree_is_flattened_into_full_paths() {
    let mut index = IndexBuilder::new("../../../");
    index.add("SB/Content/Characters/Eve/Body.uasset");
    index.add("SB/Content/Characters/Eve/Body.ubulk");
    index.add("SB/Content/Weapons/Blade.uasset");

    let assets = utoc::parse_directory_index("test.utoc", &index.build()).unwrap();
    assert_eq!(
        labels(&assets),
        vec![
            "sb/content/characters/eve/body.uasset",
            "sb/content/characters/eve/body.ubulk",
            "sb/content/weapons/blade.uasset",
        ]
    );
}

#[test]
fn a_mount_point_is_prepended_to_every_path() {
    let mut index = IndexBuilder::new("../../../SB/Content/");
    index.add("Paks/Thing.uasset");

    let assets = utoc::parse_directory_index("test.utoc", &index.build()).unwrap();
    assert_eq!(labels(&assets), vec!["sb/content/paks/thing.uasset"]);
}

#[test]
fn several_files_in_one_directory_are_all_followed() {
    let mut index = IndexBuilder::new("");
    for name in ["a.uasset", "b.uasset", "c.uasset", "d.uasset"] {
        index.add(&format!("Content/{name}"));
    }
    let assets = utoc::parse_directory_index("test.utoc", &index.build()).unwrap();
    assert_eq!(assets.len(), 4, "the file list is a chain, not an array");
}

#[test]
fn an_empty_index_is_empty_rather_than_an_error() {
    let index = IndexBuilder::new("../../../");
    let assets = utoc::parse_directory_index("test.utoc", &index.build()).unwrap();
    assert!(assets.is_empty());
}

#[test]
fn a_truncated_index_is_refused_rather_than_read_past_the_end() {
    let mut index = IndexBuilder::new("../../../");
    index.add("SB/Content/Thing.uasset");
    let blob = index.build();

    for cut in [1, blob.len() / 3, blob.len() / 2, blob.len() - 1] {
        let result = utoc::parse_directory_index("test.utoc", &blob[..cut]);
        assert!(result.is_err(), "a blob cut at {cut} should not parse");
    }
}

#[test]
fn utoc_a_count_larger_than_the_blob_is_refused() {
    let mut blob = vec![0u8; 4];
    blob.extend_from_slice(&u32::MAX.to_le_bytes());
    assert!(utoc::parse_directory_index("test.utoc", &blob).is_err());
}

#[test]
fn a_directory_chain_that_loops_back_still_ends() {
    // The root names one file, whose next file is itself, and has a child
    // that is its own sibling.
    let mut blob = Vec::new();
    fstring(&mut blob, "");
    blob.extend_from_slice(&2u32.to_le_bytes());
    for field in [NONE, 1, NONE, 0] {
        blob.extend_from_slice(&field.to_le_bytes());
    }
    for field in [1, NONE, 1, NONE] {
        blob.extend_from_slice(&field.to_le_bytes());
    }
    blob.extend_from_slice(&1u32.to_le_bytes());
    for field in [0u32, 0, 0] {
        blob.extend_from_slice(&field.to_le_bytes());
    }
    blob.extend_from_slice(&2u32.to_le_bytes());
    fstring(&mut blob, "a.uasset");
    fstring(&mut blob, "Dir");
    let assets = utoc::parse_directory_index("loop.utoc", &blob).unwrap();
    assert_eq!(labels(&assets), vec!["a.uasset"]);
}

/// A whole `.utoc`, so the header arithmetic that finds the directory index
/// is exercised rather than bypassed.
fn utoc_file(index: &[u8], entry_count: u32, signed: bool) -> Vec<u8> {
    let mut header = Vec::new();
    header.extend_from_slice(b"-==--==--==--==-");
    header.push(5); // version: PerfectHashWithOverflow
    header.push(0);
    header.extend_from_slice(&0u16.to_le_bytes());
    header.extend_from_slice(&utoc::HEADER_SIZE.to_le_bytes());
    header.extend_from_slice(&entry_count.to_le_bytes());
    header.extend_from_slice(&2u32.to_le_bytes()); // compressed block count
    header.extend_from_slice(&12u32.to_le_bytes()); // compressed block size
    header.extend_from_slice(&1u32.to_le_bytes()); // compression name count
    header.extend_from_slice(&32u32.to_le_bytes()); // compression name length
    header.extend_from_slice(&0x10000u32.to_le_bytes()); // compression block size
    header.extend_from_slice(&(index.len() as u32).to_le_bytes());
    header.extend_from_slice(&1u32.to_le_bytes()); // partition count
    header.extend_from_slice(&0u64.to_le_bytes()); // container id
    header.extend_from_slice(&[0u8; 16]); // encryption key guid
    header.push(if signed { utoc::FLAG_SIGNED } else { 0 });
    header.push(0);
    header.extend_from_slice(&0u16.to_le_bytes());
    header.extend_from_slice(&3u32.to_le_bytes()); // perfect hash seed count
    header.extend_from_slice(&0u64.to_le_bytes()); // partition size
    header.extend_from_slice(&1u32.to_le_bytes()); // chunks without perfect hash
    header.extend_from_slice(&0u32.to_le_bytes());
    header.extend_from_slice(&[0u8; 40]);
    assert_eq!(header.len(), utoc::HEADER_SIZE as usize);

    let mut file = header;
    file.extend_from_slice(&vec![0xAB; entry_count as usize * 12]); // chunk ids
    file.extend_from_slice(&vec![0u8; entry_count as usize * 10]); // offsets
    file.extend_from_slice(&[0u8; (3 + 1) * 4]); // hash map
    file.extend_from_slice(&[0u8; 2 * 12]); // compression blocks
    file.extend_from_slice(&[0u8; 32]); // one compression name

    if signed {
        let signature = 8usize;
        file.extend_from_slice(&(signature as u32).to_le_bytes());
        file.extend_from_slice(&vec![0u8; signature * 2]);
        file.extend_from_slice(&[0u8; 2 * 20]);
    }

    file.extend_from_slice(index);
    file
}

/// Reads a container held in memory the way the file reader does.
fn read_utoc(path: &str, file: &[u8]) -> Result<Vec<Asset>, AssetError> {
    let header = TocHeader::parse(path, &file[..file.len().min(0x90)])?;
    if header.is_encrypted() {
        return Err(AssetError::Encrypted(path.to_string()));
    }
    if header.directory_index_size == 0 {
        let size = header.chunk_ids_size() as usize;
        return Ok(utoc::chunk_assets(&file[0x90..0x90 + size]));
    }
    let before = header.offset_before_signatures();
    let offset = if header.is_signed() {
        let at = before as usize;
        let size = u32::from_le_bytes(file[at..at + 4].try_into().unwrap());
        header.offset_after_signatures(size)
    } else {
        before
    } as usize;
    let blob = &file[offset..offset + header.directory_index_size as usize];
    utoc::parse_directory_index(path, blob)
}

#[test]
fn a_file_that_is_not_a_toc_is_refused() {
    let file = vec![b'x'; 512];
    assert!(matches!(read_utoc("fake.utoc", &file), Err(AssetError::NotAToc(_))));
    assert!(matches!(
        TocHeader::parse("short.utoc", b"-==--==-"),
        Err(AssetError::NotAToc(_))
    ));
}

#[test]
fn a_whole_container_is_read_from_its_header_through_to_its_names() {
    let mut index = IndexBuilder::new("../../../");
    index.add("SB/Content/Characters/Eve/Body.uasset");
    let file = utoc_file(&index.build(), 3, false);
    let assets = read_utoc("Outfit_P.utoc", &file).unwrap();
    assert_eq!(labels(&assets), vec!["sb/content/characters/eve/body.uasset"]);
}

#[test]
fn a_signed_container_is_read_past_its_signatures() {
    let mut index = IndexBuilder::new("../../../");
    index.add("SB/Content/Weapons/Blade.uasset");
    let file = utoc_file(&index.build(), 2, true);
    let assets = read_utoc("Signed_P.utoc", &file).unwrap();
    assert_eq!(labels(&assets), vec!["sb/content/weapons/blade.uasset"]);
}

#[test]
fn a_container_without_a_directory_index_falls_back_to_chunk_ids() {
    let file = utoc_file(&[], 3, false);
    let assets = read_utoc("Nameless_P.utoc", &file).unwrap();
    assert_eq!(assets.len(), 1, "three identical chunk ids are one asset");
    assert!(!assets[0].is_named());
    assert_eq!(assets[0].label(), "abababababababababababab");
}

#[test]
fn an_encrypted_container_says_so_rather_than_returning_nothing() {
    let mut file = utoc_file(&[], 1, false);
    file[80] = utoc::FLAG_ENCRYPTED;
    assert!(matches!(read_utoc("Locked_P.utoc", &file), Err(AssetError::Encrypted(_))));
}

#[test]
fn a_header_of_another_size_is_an_unsupported_version() {
    let mut file = utoc_file(&[], 1, false);
    file[20] = 0x80;
    assert!(matches!(
        TocHeader::parse("odd.utoc", &file[..0x90]),
        Err(AssetError::UnsupportedVersion(_))
    ));
}

#[test]
fn the_header_arithmetic_adds_up_every_table() {
    let file = utoc_file(&[], 3, false);
    let header = TocHeader::parse("t.utoc", &file[..0x90]).unwrap();
    assert!(header.offsets_fit(0));
    // header, chunk ids, offsets, hash map, blocks, one name
    assert_eq!(header.offset_before_signatures(), 0x90 + 36 + 30 + 16 + 24 + 32);
    assert_eq!(header.offset_after_signatures(8), 0x90 + 36 + 30 + 16 + 24 + 32 + 4 + 16 + 40);
    assert_eq!(header.chunk_ids_size(), 36);
}
