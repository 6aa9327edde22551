use doom_terminal::wad::error::{WadError, WadErrorKind, ERR_INVALID_LUMP_DATA, ERR_VERTEX_LUMP_MISSING};
use doom_terminal::wad::reader::{
    blit_patch, compose_textures, find_lump_index, flat_names, is_valid_flat_name, load_flats,
    read_directory, read_lump_data, required_map_lump, validate_wad, BlitPatchParams,
    ComposeTexturesParams, LoadFlatsParams, ReadDirectoryParams, ReadLumpDataParams,
    RequiredMapLumpParams, FLAT_LUMP_SIZE, VERTEXES_LUMP_NAME, WAD_HEADER_SIZE,
};
use doom_terminal::wad::names::{read_name, ReadNameParams};
use doom_terminal::wad::world::{LumpInfo, Sector, TextureDef, TexturePatchRef, WadHeader};

const PATCH_POST_END: u8 = 255;

fn lump(name: &str, file_pos: i32, size: i32) -> LumpInfo {
    LumpInfo {
        name: name.to_string(),
        file_pos,
        size,
    }
}

fn sector(floor: &str, ceiling: &str) -> Sector {
    Sector {
        floor_texture: floor.to_string(),
        ceiling_texture: ceiling.to_string(),
        light_level: 160,
    }
}

#[test]
fn blit_patch_supports_tall_posts() {
    let mut patch_data = Vec::new();
    patch_data.extend_from_slice(&1u16.to_le_bytes());
    patch_data.extend_from_slice(&260u16.to_le_bytes());
    patch_data.extend_from_slice(&0u16.to_le_bytes());
    patch_data.extend_from_slice(&0u16.to_le_bytes());
    patch_data.extend_from_slice(&12u32.to_le_bytes());
    patch_data.extend_from_slice(&[250, 2, 0, 10, 11, 0]);
    patch_data.extend_from_slice(&[1, 2, 0, 12, 13, 0]);
    patch_data.push(PATCH_POST_END);

    let mut target = vec![0u8; 260];
    blit_patch(BlitPatchParams {
        patch_data: &patch_data,
        origin_x: 0,
        origin_y: 0,
        target_width: 1,
        target_height: 260,
        target_pixels: &mut target,
    });

    assert_eq!(&target[245..255], &[0, 0, 0, 0, 0, 10, 12, 13, 0, 0]);
}

#[test]
fn load_flats_skips_absent_or_placeholder_names() {
    let lumps = [lump("FLOOR0_1", 0, FLAT_LUMP_SIZE as i32)];
    let sectors = [sector("FLOOR0_1", ""), sector("-", "MISSING")];

    let names: Vec<String> = sectors
        .iter()
        .flat_map(|sector| [sector.floor_texture.clone(), sector.ceiling_texture.clone()])
        .filter(|name| is_valid_flat_name(name))
        .collect();

    assert!(names.contains(&"FLOOR0_1".to_string()));
    assert!(names.contains(&"MISSING".to_string()));
    assert!(!names.contains(&"-".to_string()));
    assert!(!names.contains(&"".to_string()));
    assert_eq!(lumps.len(), 1);
}

#[test]
fn find_required_map_lump_accepts_matching_lump_name() {
    let lumps = vec![lump("E1M1", 0, 0), lump(VERTEXES_LUMP_NAME, 0, 0)];

    let found = required_map_lump(RequiredMapLumpParams {
        lumps: &lumps,
        map_index: 0,
        offset: 1,
        expected_name: VERTEXES_LUMP_NAME,
        error: WadError::VertexLumpMissing,
    })
    .expect("expected matching lump to be accepted");

    assert_eq!(found.name, VERTEXES_LUMP_NAME);
}

#[test]
fn find_required_map_lump_rejects_unexpected_lump_name() {
    let lumps = vec![lump("E1M1", 0, 0), lump("THINGS", 0, 0)];

    let err = match required_map_lump(RequiredMapLumpParams {
        lumps: &lumps,
        map_index: 0,
        offset: 1,
        expected_name: VERTEXES_LUMP_NAME,
        error: WadError::VertexLumpMissing,
    }) {
        Ok(_) => panic!("expected wrong lump order to be rejected"),
        Err(err) => err,
    };

    assert_eq!(err.kind(), WadErrorKind::InvalidData);
    assert_eq!(err.message(), ERR_VERTEX_LUMP_MISSING);
}

#[test]
fn validate_wad_rejects_invalid_signature() {
    let err = match validate_wad(b"BADS\x00\x00\x00\x00\x0c\x00\x00\x00") {
        Ok(_) => panic!("expected invalid signature to be rejected"),
        Err(err) => err,
    };

    assert_eq!(err.kind(), WadErrorKind::InvalidData);
    assert_eq!(err, WadError::InvalidWadSignature);
}

#[test]
fn validate_wad_rejects_truncated_header() {
    let err = match validate_wad(b"IWAD") {
        Ok(_) => panic!("expected truncated header to be rejected"),
        Err(err) => err,
    };

    assert_eq!(err.kind(), WadErrorKind::InvalidData);
    assert_eq!(err, WadError::InvalidWadHeader);
}

#[test]
fn validate_wad_accepts_both_signatures() {
    let header = validate_wad(b"PWAD\x02\x00\x00\x00\x0c\x00\x00\x00").expect("valid header");
    assert_eq!(header.num_lumps, 2);
    assert_eq!(header.directory_offset, 12);
    assert!(validate_wad(b"IWAD\xff\xff\xff\xff\x0c\x00\x00\x00").is_err());
}

#[test]
fn read_directory_rejects_truncated_directory_entries() {
    let mut data = Vec::new();
    data.extend_from_slice(b"IWAD");
    data.extend_from_slice(&1i32.to_le_bytes());
    data.extend_from_slice(&(WAD_HEADER_SIZE as i32).to_le_bytes());
    data.extend_from_slice(&[0u8; 8]);

    let err = match read_directory(ReadDirectoryParams {
        data: &data,
        header: &WadHeader {
            num_lumps: 1,
            directory_offset: WAD_HEADER_SIZE as i32,
        },
    }) {
        Ok(_) => panic!("expected truncated directory entry to be rejected"),
        Err(err) => err,
    };

    assert_eq!(err.kind(), WadErrorKind::InvalidData);
    assert_eq!(err, WadError::InvalidWadHeader);
}

#[test]
fn read_directory_reads_names_without_padding() {
    let mut data = Vec::new();
    data.extend_from_slice(b"IWAD");
    data.extend_from_slice(&1i32.to_le_bytes());
    data.extend_from_slice(&(WAD_HEADER_SIZE as i32).to_le_bytes());
    data.extend_from_slice(&28i32.to_le_bytes());
    data.extend_from_slice(&3i32.to_le_bytes());
    data.extend_from_slice(b"E1M1\x00\x00\x00\x00");
    let lumps = read_directory(ReadDirectoryParams {
        data: &data,
        header: &WadHeader {
            num_lumps: 1,
            directory_offset: WAD_HEADER_SIZE as i32,
        },
    })
    .expect("directory");
    assert_eq!(lumps.len(), 1);
    assert_eq!(lumps[0].name, "E1M1");
    assert_eq!((lumps[0].file_pos, lumps[0].size), (28, 3));
    assert_eq!(find_lump_index(&lumps, "E1M1"), Some(0));
    assert_eq!(find_lump_index(&lumps, "E1M2"), None);
}

#[test]
fn read_lump_data_rejects_truncated_lump_payload() {
    let data = [1u8, 2u8];
    let test_lump = lump("TEST", 0, 4);

    let err = read_lump_data(ReadLumpDataParams {
        data: &data,
        lump: &test_lump,
    })
    .expect_err("expected truncated lump payload to be rejected");

    assert_eq!(err.kind(), WadErrorKind::InvalidData);
    assert_eq!(err.message(), ERR_INVALID_LUMP_DATA);
}

#[test]
fn read_lump_data_returns_the_lump_bytes() {
    let data = [9u8, 8, 7, 6, 5];
    let bytes = read_lump_data(ReadLumpDataParams {
        data: &data,
        lump: &lump("TEST", 1, 3),
    })
    .expect("bytes");
    assert_eq!(bytes, vec![8, 7, 6]);
    let empty = read_lump_data(ReadLumpDataParams {
        data: &data,
        lump: &lump("TEST", 100, 0),
    })
    .expect("empty lump");
    assert!(empty.is_empty());
}

#[test]
fn compose_textures_skips_missing_patch_lumps_with_safe_fallback() {
    let texture_defs = vec![TextureDef {
        name: "BROKEN".to_string(),
        width: 4,
        height: 4,
        patches: vec![TexturePatchRef {
            origin_x: 0,
            origin_y: 0,
            patch_name: "MISSINGP".to_string(),
        }],
    }];
    let lumps = vec![lump("UNUSED", 0, 0)];

    let textures = compose_textures(ComposeTexturesParams {
        data: &[],
        lumps: &lumps,
        texture_defs: &texture_defs,
    })
    .expect("missing optional patch lump should not fail texture composition");

    assert_eq!(textures.len(), 1);
    assert_eq!(textures[0].name, "BROKEN");
    assert_eq!(textures[0].width, 4);
    assert_eq!(textures[0].height, 4);
    assert!(textures[0].pixels.iter().all(|pixel| *pixel == 0));
}

#[test]
fn flats_are_listed_once_in_name_order() {
    let sectors = [sector("FLOOR4_8", "CEIL3_5"), sector("CEIL3_5", "-"), sector("", "FLOOR4_8")];
    assert_eq!(flat_names(&sectors), vec!["CEIL3_5".to_string(), "FLOOR4_8".to_string()]);

    let mut data = vec![0u8; FLAT_LUMP_SIZE];
    data[0] = 42;
    let lumps = [lump("FLOOR4_8", 0, FLAT_LUMP_SIZE as i32)];
    let flats = load_flats(LoadFlatsParams {
        data: &data,
        lumps: &lumps,
        sectors: &sectors,
    })
    .expect("flats");
    assert_eq!(flats.len(), 1);
    assert_eq!(flats[0].name, "FLOOR4_8");
    assert_eq!(flats[0].pixels.len(), FLAT_LUMP_SIZE);
    assert_eq!(flats[0].pixels[0], 42);
}

#[test]
fn read_name_drops_padding_and_replaces_invalid_bytes() {
    let chunk = [b'X', 0, 0, b'S', b'T', b'A', b'R', 0, 0xff, b'A', 0, 0];
    assert_eq!(read_name(ReadNameParams { chunk: &chunk, offset: 1, len: 7 }), "STAR");
    assert_eq!(read_name(ReadNameParams { chunk: &chunk, offset: 8, len: 4 }), "\u{fffd}A");
    assert_eq!(read_name(ReadNameParams { chunk: &chunk, offset: 1, len: 2 }), "");
}

#[test]
fn parse_texture_defs_skips_entries_past_the_lump() {
    let data = [
        2, 0, 0, 0, 0xe8, 3, 0, 0, 12, 0, 0, 0, 87, 65, 76, 76, 0, 0, 0, 0, 0, 0, 0, 0, 2, 0, 3, 0,
        0, 0, 0, 0, 1, 0, 1, 0, 0xff, 0xff, 0, 0, 0, 0, 0, 0,
    ];
    let names = vec!["P0".to_string()];
    let defs = doom_terminal::wad::parser::parse_texture_defs(&data, &names);
    assert_eq!(defs.len(), 1);
    assert_eq!(defs[0].name, "WALL");
    assert_eq!((defs[0].width, defs[0].height), (2, 3));
    assert_eq!(defs[0].patches.len(), 1);
    assert_eq!((defs[0].patches[0].origin_x, defs[0].patches[0].origin_y), (1, -1));
    assert_eq!(defs[0].patches[0].patch_name, "P0");
}

#[test]
fn parse_pnames_stops_at_the_end_of_the_lump() {
    let data = [2, 0, 0, 0, 80, 48, 0, 0, 0, 0, 0, 0];
    assert_eq!(doom_terminal::wad::parser::parse_pnames(&data), vec!["P0".to_string()]);
}

#[test]
fn load_map_data_reports_lumps_out_of_order() {
    let names = [
        "E1M1", "THINGS", "LINEDEFS", "SIDEDEFS", "SEGS", "VERTEXES", "SSECTORS", "NODES",
        "SECTORS", "PNAMES", "TEXTURE1", "PLAYPAL",
    ];
    let mut data = Vec::new();
    data.extend_from_slice(b"IWAD");
    data.extend_from_slice(&12i32.to_le_bytes());
    data.extend_from_slice(&12i32.to_le_bytes());
    for name in names {
        data.extend_from_slice(&0i32.to_le_bytes());
        data.extend_from_slice(&0i32.to_le_bytes());
        let mut field = [0u8; 8];
        field[..name.len()].copy_from_slice(name.as_bytes());
        data.extend_from_slice(&field);
    }
    let err = match doom_terminal::wad::reader::load_map_data(
        doom_terminal::wad::reader::LoadMapParams {
            data: &data,
            map_name: "E1M1",
        },
    ) {
        Ok(_) => panic!("expected wrong lump order to be rejected"),
        Err(err) => err,
    };
    assert_eq!(err.kind(), WadErrorKind::InvalidData);
    assert_eq!(err.message(), ERR_VERTEX_LUMP_MISSING);
}

#[test]
fn parse_texture_defs_keeps_only_patches_inside_the_lump() {
    let data = [
        1, 0, 0, 0, 8, 0, 0, 0, 87, 65, 76, 76, 0, 0, 0, 0, 0, 0, 0, 0, 4, 0, 4, 0, 0, 0, 0, 0, 3,
        0, 2, 0, 3, 0, 0, 0, 0, 0, 0, 0,
    ];
    let names = vec!["P0".to_string()];
    let defs = doom_terminal::wad::parser::parse_texture_defs(&data, &names);
    assert_eq!(defs.len(), 1);
    assert_eq!(defs[0].name, "WALL");
    assert_eq!((defs[0].width, defs[0].height), (4, 4));
    assert_eq!(defs[0].patches.len(), 1);
    assert_eq!((defs[0].patches[0].origin_x, defs[0].patches[0].origin_y), (2, 3));
    assert_eq!(defs[0].patches[0].patch_name, "P0");
}
