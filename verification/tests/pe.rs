use sbmm::pe::{file_version, file_version_opt, find_resource_section, parse, RT_VERSION};
use sbmm::upscaler::{UpscalerError, Version};

const VS_FFI_SIGNATURE: [u8; 4] = [0xBD, 0x04, 0xEF, 0xFE];

/// The smallest PE that carries a version resource.
fn pe_with_version(version: Version) -> Vec<u8> {
    const PE_OFFSET: usize = 0x80;
    const SECTION_RVA: u32 = 0x1000;
    const SECTION_RAW: u32 = 0x200;

    let mut image = vec![0u8; SECTION_RAW as usize];
    image[..2].copy_from_slice(b"MZ");
    image[0x3c..0x40].copy_from_slice(&(PE_OFFSET as u32).to_le_bytes());
    image[PE_OFFSET..PE_OFFSET + 4].copy_from_slice(b"PE\0\0");
    image[PE_OFFSET + 6..PE_OFFSET + 8].copy_from_slice(&1u16.to_le_bytes());
    let optional_size = 0xF0u16;
    image[PE_OFFSET + 20..PE_OFFSET + 22].copy_from_slice(&optional_size.to_le_bytes());

    let mut rsrc = Vec::new();
    let dir = |entry_id: u32, child: u32| {
        let mut out = vec![0u8; 16];
        out[14..16].copy_from_slice(&1u16.to_le_bytes());
        out.extend_from_slice(&entry_id.to_le_bytes());
        out.extend_from_slice(&child.to_le_bytes());
        out
    };

    let type_dir = dir(RT_VERSION, 0x80000000 | 24);
    let name_dir = dir(1, 0x80000000 | 48);
    let lang_dir = dir(1033, 72);
    rsrc.extend_from_slice(&type_dir);
    rsrc.extend_from_slice(&name_dir);
    rsrc.extend_from_slice(&lang_dir);
    assert_eq!(rsrc.len(), 72);

    let payload_offset = 88u32;
    let mut payload = vec![0u8; 40];
    payload[0..4].copy_from_slice(&VS_FFI_SIGNATURE);
    payload[8..12].copy_from_slice(&(((version.0 as u32) << 16) | version.1 as u32).to_le_bytes());
    payload[12..16].copy_from_slice(&(((version.2 as u32) << 16) | version.3 as u32).to_le_bytes());

    rsrc.extend_from_slice(&(SECTION_RVA + payload_offset).to_le_bytes());
    rsrc.extend_from_slice(&(payload.len() as u32).to_le_bytes());
    rsrc.extend_from_slice(&0u32.to_le_bytes());
    rsrc.extend_from_slice(&0u32.to_le_bytes());
    assert_eq!(rsrc.len(), payload_offset as usize);
    rsrc.extend_from_slice(&payload);

    let table = PE_OFFSET + 24 + optional_size as usize;
    let mut header = vec![0u8; 40];
    header[..8].copy_from_slice(b".rsrc\0\0\0");
    header[12..16].copy_from_slice(&SECTION_RVA.to_le_bytes());
    header[16..20].copy_from_slice(&(rsrc.len() as u32).to_le_bytes());
    header[20..24].copy_from_slice(&SECTION_RAW.to_le_bytes());
    image[table..table + 40].copy_from_slice(&header);

    image.extend_from_slice(&rsrc);
    image
}

#[test]
fn the_version_comes_out_of_the_resource_directory() {
    let image = pe_with_version(Version(310, 7, 0, 0));
    assert_eq!(parse(&image), Some(Version(310, 7, 0, 0)));
}

#[test]
fn a_four_part_version_survives_intact() {
    let image = pe_with_version(Version(1, 0, 1, 41314));
    assert_eq!(parse(&image), Some(Version(1, 0, 1, 41314)));
}

#[test]
fn anything_that_is_not_a_pe_is_refused_rather_than_misread() {
    assert_eq!(parse(b""), None);
    assert_eq!(parse(b"this is a text file"), None);
    let image = pe_with_version(Version(1, 2, 3, 4));
    assert_eq!(parse(&image[..image.len() / 2]), None);
}

#[test]
fn a_pe_without_a_resource_section_has_no_version() {
    let mut image = pe_with_version(Version(1, 2, 3, 4));
    let table = 0x80 + 24 + 0xF0;
    image[table..table + 8].copy_from_slice(b".text\0\0\0");
    assert_eq!(parse(&image), None);
    assert_eq!(find_resource_section(&image), None);
}

#[test]
fn the_resource_section_is_found_in_the_section_table() {
    let image = pe_with_version(Version(1, 2, 3, 4));
    let section = find_resource_section(&image).unwrap();
    assert_eq!(section.virtual_address, 0x1000);
    assert_eq!(section.raw_offset, 0x200);
    assert_eq!(section.raw_size, 128);
}

#[test]
fn a_dll_without_a_version_is_named_in_the_error() {
    let image = pe_with_version(Version(2, 0, 0, 0));
    assert_eq!(file_version("nvngx_dlss.dll", &image).unwrap(), Version(2, 0, 0, 0));
    match file_version("odd.dll", b"MZ") {
        Err(UpscalerError::NoVersion(path)) => assert_eq!(path, "odd.dll"),
        other => panic!("expected no version, got {other:?}"),
    }
    assert_eq!(file_version_opt(None), None);
    assert_eq!(file_version_opt(Some(&image)), Some(Version(2, 0, 0, 0)));
}
