//! Decoding of the fixed-size records stored in map and texture lumps.

use vstd::prelude::*;

use crate::bytes::{
    read_i16_le, read_i32_le, read_u16_le, spec_i16_le, spec_i32_le, spec_u16_le,
};
use crate::wad::names::{read_name, spec_read_name, ReadNameParams};
use crate::wad::world::{
    lump_views, patch_ref_views, sector_views, sidedef_views, string_views, texture_def_views,
    LineDef, PaletteColor, Sector, SectorView, Seg, SideDef, SideDefView, TextureDef,
    TextureDefView, TexturePatchRef, TexturePatchRefView, Thing, Vertex,
};

verus! {

pub const VERTEX_BYTE_SIZE: usize = 4;
pub const LINEDEF_BYTE_SIZE: usize = 14;
pub const SIDEDEF_BYTE_SIZE: usize = 30;
pub const SECTOR_BYTE_SIZE: usize = 26;
pub const THING_BYTE_SIZE: usize = 10;
pub const SEG_BYTE_SIZE: usize = 12;
pub const TEXTURE_NAME_LEN: usize = 8;
pub const SIDEDEF_MIDDLE_TEXTURE_OFFSET: usize = 20;
pub const SIDEDEF_SECTOR_OFFSET: usize = 28;
pub const SECTOR_FLOOR_TEXTURE_OFFSET: usize = 4;
pub const SECTOR_CEILING_TEXTURE_OFFSET: usize = 12;
pub const SECTOR_LIGHT_LEVEL_OFFSET: usize = 20;
pub const PNAMES_NAMES_OFFSET: usize = 4;
pub const TEXTURE_OFFSET_TABLE_START: usize = 4;
pub const TEXTURE_DEF_WIDTH_OFFSET: usize = 12;
pub const TEXTURE_DEF_HEIGHT_OFFSET: usize = 14;
pub const TEXTURE_DEF_PATCH_COUNT_OFFSET: usize = 20;
pub const TEXTURE_DEF_PATCHES_OFFSET: usize = 22;
pub const TEXTURE_PATCH_BYTE_SIZE: usize = 10;
pub const PLAYPAL_COLOR_COUNT: usize = 256;
pub const PLAYPAL_CHANNELS: usize = 3;

proof fn lemma_record_in_bounds(i: int, len: int, size: int)
    requires
        size > 0,
        0 <= i < len / size,
        len >= 0,
    ensures
        i * size + size <= len,
        0 <= i * size,
{
    assert(i * size + size <= len) by (nonlinear_arith)
        requires
            size > 0,
            0 <= i < len / size,
            len >= 0,
    ;
    assert(0 <= i * size) by (nonlinear_arith)
        requires
            size > 0,
            0 <= i,
    ;
}

/// The vertex stored in the `i`-th 4-byte record.
pub open spec fn spec_vertex(data: Seq<u8>, i: int) -> Vertex {
    Vertex { x: spec_i16_le(data, 4 * i), y: spec_i16_le(data, 4 * i + 2) }
}

/// The records of a VERTEXES lump: every whole 4-byte record, in order;
/// a trailing partial record is ignored.
pub open spec fn spec_parse_vertexes(data: Seq<u8>) -> Seq<Vertex> {
    Seq::new(data.len() / 4, |i: int| spec_vertex(data, i))
}

/// Decodes every whole 4-byte record of a VERTEXES lump; a trailing partial
/// record is ignored.
pub fn parse_vertexes(data: &[u8]) -> (vertexes: Vec<Vertex>)
    ensures
        vertexes@ == spec_parse_vertexes(data@),
{
    let n = data.len();
    let count = n / VERTEX_BYTE_SIZE;
    let mut out: Vec<Vertex> = Vec::new();
    let mut i: usize = 0;
    while i < count
        invariant
            n == data@.len(),
            count == data@.len() / 4,
            i <= count,
            out@ =~= Seq::new(i as nat, |k: int| spec_vertex(data@, k)),
        decreases count - i,
    {
        proof {
            lemma_record_in_bounds(i as int, data@.len() as int, 4);
        }
        let off = i * VERTEX_BYTE_SIZE;
        out.push(Vertex { x: read_i16_le(data, off), y: read_i16_le(data, off + 2) });
        i = i + 1;
    }
    out
}

/// The linedef stored in the `i`-th 14-byte record.
pub open spec fn spec_linedef(data: Seq<u8>, i: int) -> LineDef {
    LineDef {
        start_vertex: spec_u16_le(data, 14 * i),
        end_vertex: spec_u16_le(data, 14 * i + 2),
        right_sidedef: spec_u16_le(data, 14 * i + 10),
        left_sidedef: spec_u16_le(data, 14 * i + 12),
    }
}

/// The records of a LINEDEFS lump: every whole 14-byte record, in order;
/// a trailing partial record is ignored.
pub open spec fn spec_parse_linedefs(data: Seq<u8>) -> Seq<LineDef> {
    Seq::new(data.len() / 14, |i: int| spec_linedef(data, i))
}

/// Decodes every whole 14-byte record of a LINEDEFS lump.
pub fn parse_linedefs(data: &[u8]) -> (lines: Vec<LineDef>)
    ensures
        lines@ == spec_parse_linedefs(data@),
{
    let n = data.len();
    let count = n / LINEDEF_BYTE_SIZE;
    let mut out: Vec<LineDef> = Vec::new();
    let mut i: usize = 0;
    while i < count
        invariant
            n == data@.len(),
            count == data@.len() / 14,
            i <= count,
            out@ =~= Seq::new(i as nat, |k: int| spec_linedef(data@, k)),
        decreases count - i,
    {
        proof {
            lemma_record_in_bounds(i as int, data@.len() as int, 14);
        }
        let off = i * LINEDEF_BYTE_SIZE;
        out.push(
            LineDef {
                start_vertex: read_u16_le(data, off),
                end_vertex: read_u16_le(data, off + 2),
                right_sidedef: read_u16_le(data, off + 10),
                left_sidedef: read_u16_le(data, off + 12),
            },
        );
        i = i + 1;
    }
    out
}

/// The sidedef stored in the `i`-th 30-byte record.
pub open spec fn spec_sidedef(data: Seq<u8>, i: int) -> SideDefView {
    SideDefView {
        sector: spec_u16_le(data, 30 * i + 28),
        middle_texture: spec_read_name(data, 30 * i + 20, 8),
    }
}

/// The records of a SIDEDEFS lump: every whole 30-byte record, in order;
/// a trailing partial record is ignored.
pub open spec fn spec_parse_sidedefs(data: Seq<u8>) -> Seq<SideDefView> {
    Seq::new(data.len() / 30, |i: int| spec_sidedef(data, i))
}

/// Decodes every whole 30-byte record of a SIDEDEFS lump.
pub fn parse_sidedefs(data: &[u8]) -> (sidedefs: Vec<SideDef>)
    ensures
        sidedef_views(sidedefs@) == spec_parse_sidedefs(data@),
{
    let n = data.len();
    let count = n / SIDEDEF_BYTE_SIZE;
    let mut out: Vec<SideDef> = Vec::new();
    let mut i: usize = 0;
    while i < count
        invariant
            n == data@.len(),
            count == data@.len() / 30,
            i <= count,
            sidedef_views(out@) =~= Seq::new(
                i as nat,
                |k: int| spec_sidedef(data@, k),
            ),
        decreases count - i,
    {
        proof {
            lemma_record_in_bounds(i as int, data@.len() as int, 30);
        }
        let off = i * SIDEDEF_BYTE_SIZE;
        let middle_texture = read_name(
            ReadNameParams { chunk: data, offset: off + SIDEDEF_MIDDLE_TEXTURE_OFFSET, len: 8 },
        );
        let sector = read_u16_le(data, off + SIDEDEF_SECTOR_OFFSET);
        let item = SideDef { sector, middle_texture };
        assert(item@ == spec_sidedef(data@, i as int));
        let ghost prev = out@;
        out.push(item);
        assert(sidedef_views(out@) =~= sidedef_views(prev).push(
            spec_sidedef(data@, i as int),
        ));
        i = i + 1;
    }
    out
}

/// The sector stored in the `i`-th 26-byte record.
pub open spec fn spec_sector(data: Seq<u8>, i: int) -> SectorView {
    SectorView {
        floor_texture: spec_read_name(data, 26 * i + 4, 8),
        ceiling_texture: spec_read_name(data, 26 * i + 12, 8),
        light_level: spec_i16_le(data, 26 * i + 20),
    }
}

/// The records of a SECTORS lump: every whole 26-byte record, in order;
/// a trailing partial record is ignored.
pub open spec fn spec_parse_sectors(data: Seq<u8>) -> Seq<SectorView> {
    Seq::new(data.len() / 26, |i: int| spec_sector(data, i))
}

/// Decodes every whole 26-byte record of a SECTORS lump.
pub fn parse_sectors(data: &[u8]) -> (sectors: Vec<Sector>)
    ensures
        sector_views(sectors@) == spec_parse_sectors(data@),
{
    let n = data.len();
    let count = n / SECTOR_BYTE_SIZE;
    let mut out: Vec<Sector> = Vec::new();
    let mut i: usize = 0;
    while i < count
        invariant
            n == data@.len(),
            count == data@.len() / 26,
            i <= count,
            sector_views(out@) =~= Seq::new(i as nat, |k: int| spec_sector(data@, k)),
        decreases count - i,
    {
        proof {
            lemma_record_in_bounds(i as int, data@.len() as int, 26);
        }
        let off = i * SECTOR_BYTE_SIZE;
        let floor_texture = read_name(
            ReadNameParams { chunk: data, offset: off + SECTOR_FLOOR_TEXTURE_OFFSET, len: 8 },
        );
        let ceiling_texture = read_name(
            ReadNameParams { chunk: data, offset: off + SECTOR_CEILING_TEXTURE_OFFSET, len: 8 },
        );
        let light_level = read_i16_le(data, off + SECTOR_LIGHT_LEVEL_OFFSET);
        let item = Sector { floor_texture, ceiling_texture, light_level };
        assert(item@ == spec_sector(data@, i as int));
        let ghost prev = out@;
        out.push(item);
        assert(sector_views(out@) =~= sector_views(prev).push(
            spec_sector(data@, i as int),
        ));
        i = i + 1;
    }
    out
}

/// The thing stored in the `i`-th 10-byte record.
pub open spec fn spec_thing(data: Seq<u8>, i: int) -> Thing {
    Thing {
        x: spec_i16_le(data, 10 * i),
        y: spec_i16_le(data, 10 * i + 2),
        thing_type: spec_u16_le(data, 10 * i + 6),
    }
}

/// The records of a THINGS lump: every whole 10-byte record, in order;
/// a trailing partial record is ignored.
pub open spec fn spec_parse_things(data: Seq<u8>) -> Seq<Thing> {
    Seq::new(data.len() / 10, |i: int| spec_thing(data, i))
}

/// Decodes every whole 10-byte record of a THINGS lump.
pub fn parse_things(data: &[u8]) -> (things: Vec<Thing>)
    ensures
        things@ == spec_parse_things(data@),
{
    let n = data.len();
    let count = n / THING_BYTE_SIZE;
    let mut out: Vec<Thing> = Vec::new();
    let mut i: usize = 0;
    while i < count
        invariant
            n == data@.len(),
            count == data@.len() / 10,
            i <= count,
            out@ =~= Seq::new(i as nat, |k: int| spec_thing(data@, k)),
        decreases count - i,
    {
        proof {
            lemma_record_in_bounds(i as int, data@.len() as int, 10);
        }
        let off = i * THING_BYTE_SIZE;
        out.push(
            Thing {
                x: read_i16_le(data, off),
                y: read_i16_le(data, off + 2),
                thing_type: read_u16_le(data, off + 6),
            },
        );
        i = i + 1;
    }
    out
}

/// The seg stored in the `i`-th 12-byte record.
pub open spec fn spec_seg(data: Seq<u8>, i: int) -> Seg {
    Seg { linedef: spec_u16_le(data, 12 * i + 6) }
}

/// The records of a SEGS lump: every whole 12-byte record, in order;
/// a trailing partial record is ignored.
pub open spec fn spec_parse_segs(data: Seq<u8>) -> Seq<Seg> {
    Seq::new(data.len() / 12, |i: int| spec_seg(data, i))
}

/// Decodes every whole 12-byte record of a SEGS lump.
pub fn parse_segs(data: &[u8]) -> (segs: Vec<Seg>)
    ensures
        segs@ == spec_parse_segs(data@),
{
    let n = data.len();
    let count = n / SEG_BYTE_SIZE;
    let mut out: Vec<Seg> = Vec::new();
    let mut i: usize = 0;
    while i < count
        invariant
            n == data@.len(),
            count == data@.len() / 12,
            i <= count,
            out@ =~= Seq::new(i as nat, |k: int| spec_seg(data@, k)),
        decreases count - i,
    {
        proof {
            lemma_record_in_bounds(i as int, data@.len() as int, 12);
        }
        let off = i * SEG_BYTE_SIZE;
        out.push(Seg { linedef: read_u16_le(data, off + 6) });
        i = i + 1;
    }
    out
}

/// The smaller of two integers.
pub open spec fn min_int(a: int, b: int) -> int {
    if a <= b { a } else { b }
}

/// A count field read as a signed 32-bit value; negative counts mean zero.
pub open spec fn spec_count_at(data: Seq<u8>, off: int) -> int {
    let c = spec_i32_le(data, off) as int;
    if c < 0 { 0 } else { c }
}

/// The patch names listed by a PNAMES lump: as many 8-byte names as the
/// count field announces and the lump holds.
pub open spec fn spec_pnames(data: Seq<u8>) -> Seq<Seq<char>> {
    if data.len() < 4 {
        Seq::empty()
    } else {
        Seq::new(
            min_int(spec_count_at(data, 0), (data.len() - 4) / 8) as nat,
            |i: int| spec_read_name(data, 4 + 8 * i, 8),
        )
    }
}

/// Decodes a PNAMES lump.
pub fn parse_pnames(data: &[u8]) -> (names: Vec<String>)
    ensures
        string_views(names@) == spec_pnames(data@),
{
    let n = data.len();
    if n < PNAMES_NAMES_OFFSET {
        let out: Vec<String> = Vec::new();
        assert(string_views(out@) =~= spec_pnames(data@));
        return out;
    }
    let raw_count = read_i32_le(data, 0);
    let patch_name_count: usize = if raw_count < 0 { 0 } else { raw_count as usize };
    let ghost limit = min_int(spec_count_at(data@, 0), (data@.len() - 4) / 8);
    let mut out: Vec<String> = Vec::new();
    let mut offset: usize = PNAMES_NAMES_OFFSET;
    let mut index: usize = 0;
    while index < patch_name_count
        invariant
            n == data@.len(),
            n >= 4,
            patch_name_count == spec_count_at(data@, 0),
            limit == min_int(spec_count_at(data@, 0), (data@.len() - 4) / 8),
            index <= patch_name_count,
            index <= limit,
            offset == 4 + 8 * index,
            offset <= n,
            string_views(out@) =~= Seq::new(
                index as nat,
                |k: int| spec_read_name(data@, 4 + 8 * k, 8),
            ),
        ensures
            string_views(out@) =~= Seq::new(
                limit as nat,
                |k: int| spec_read_name(data@, 4 + 8 * k, 8),
            ),
        decreases patch_name_count - index,
    {
        if n - offset < TEXTURE_NAME_LEN {
            assert(index == limit);
            break;
        }
        let name = read_name(ReadNameParams { chunk: data, offset, len: TEXTURE_NAME_LEN });
        let ghost prev = out@;
        out.push(name);
        assert(string_views(out@) =~= string_views(prev).push(
            spec_read_name(data@, 4 + 8 * index, 8),
        ));
        offset = offset + TEXTURE_NAME_LEN;
        index = index + 1;
    }
    out
}

/// The palette color stored at byte `3 * i`.
pub open spec fn spec_palette_color(data: Seq<u8>, i: int) -> PaletteColor {
    PaletteColor { r: data[3 * i], g: data[3 * i + 1], b: data[3 * i + 2] }
}

/// The first palette of a PLAYPAL lump: 256 colors when the lump holds at
/// least 768 bytes, none otherwise.
pub open spec fn spec_parse_playpal(data: Seq<u8>) -> Seq<PaletteColor> {
    if data.len() < 768 {
        Seq::empty()
    } else {
        Seq::new(256, |i: int| spec_palette_color(data, i))
    }
}

/// Decodes the first palette of a PLAYPAL lump: 256 colors when the lump
/// holds at least 768 bytes, none otherwise.
pub fn parse_playpal(data: &[u8]) -> (colors: Vec<PaletteColor>)
    ensures
        colors@ == spec_parse_playpal(data@),
{
    let required_len = PLAYPAL_COLOR_COUNT * PLAYPAL_CHANNELS;
    let mut colors: Vec<PaletteColor> = Vec::new();
    if data.len() < required_len {
        return colors;
    }
    let mut index: usize = 0;
    while index < PLAYPAL_COLOR_COUNT
        invariant
            data@.len() >= 768,
            index <= 256,
            colors@ =~= Seq::new(index as nat, |i: int| spec_palette_color(data@, i)),
        decreases 256 - index,
    {
        let offset = index * PLAYPAL_CHANNELS;
        colors.push(PaletteColor { r: data[offset], g: data[offset + 1], b: data[offset + 2] });
        index = index + 1;
    }
    colors
}

/// The name at `index` in the patch name table, or the empty name when the
/// index is past its end.
pub open spec fn spec_patch_name(names: Seq<Seq<char>>, index: int) -> Seq<char> {
    if 0 <= index < names.len() {
        names[index]
    } else {
        Seq::empty()
    }
}

/// The `j`-th patch reference of the texture definition at `def_offset`.
pub open spec fn spec_texture_patch(
    data: Seq<u8>,
    names: Seq<Seq<char>>,
    def_offset: int,
    j: int,
) -> TexturePatchRefView {
    let p = def_offset + 22 + 10 * j;
    TexturePatchRefView {
        origin_x: spec_i16_le(data, p),
        origin_y: spec_i16_le(data, p + 2),
        patch_name: spec_patch_name(names, spec_u16_le(data, p + 4) as int),
    }
}

/// The texture definition at `def_offset`: name, size, and as many patch
/// references as its count field announces and the lump holds.
pub open spec fn spec_texture_def(
    data: Seq<u8>,
    names: Seq<Seq<char>>,
    def_offset: int,
) -> TextureDefView {
    TextureDefView {
        name: spec_read_name(data, def_offset, 8),
        width: spec_u16_le(data, def_offset + 12),
        height: spec_u16_le(data, def_offset + 14),
        patches: Seq::new(
            min_int(
                spec_u16_le(data, def_offset + 20) as int,
                (data.len() - (def_offset + 22)) / 10,
            ) as nat,
            |j: int| spec_texture_patch(data, names, def_offset, j),
        ),
    }
}

/// The definitions reachable through the first `k` entries of the offset
/// table; entries whose definition header runs past the lump are skipped.
pub open spec fn spec_texture_defs_upto(
    data: Seq<u8>,
    names: Seq<Seq<char>>,
    k: nat,
) -> Seq<TextureDefView>
    decreases k,
{
    if k == 0 {
        Seq::empty()
    } else {
        let prev = spec_texture_defs_upto(data, names, (k - 1) as nat);
        let def_offset = spec_count_at(data, 4 + 4 * (k - 1));
        if def_offset + 22 > data.len() {
            prev
        } else {
            prev.push(spec_texture_def(data, names, def_offset))
        }
    }
}

/// The texture definitions of a TEXTUREx lump.
pub open spec fn spec_texture_defs(data: Seq<u8>, names: Seq<Seq<char>>) -> Seq<TextureDefView> {
    if data.len() < 4 {
        Seq::empty()
    } else {
        spec_texture_defs_upto(
            data,
            names,
            min_int(spec_count_at(data, 0), (data.len() - 4) / 4) as nat,
        )
    }
}

fn parse_texture_def(data: &[u8], patch_names: &[String], def_offset: usize) -> (def: TextureDef)
    requires
        def_offset + 22 <= data@.len(),
    ensures
        def@ == spec_texture_def(
            data@,
            string_views(patch_names@),
            def_offset as int,
        ),
{
    let ghost names = string_views(patch_names@);
    let n = data.len();
    let name = read_name(ReadNameParams { chunk: data, offset: def_offset, len: TEXTURE_NAME_LEN });
    let width = read_u16_le(data, def_offset + TEXTURE_DEF_WIDTH_OFFSET);
    let height = read_u16_le(data, def_offset + TEXTURE_DEF_HEIGHT_OFFSET);
    let patch_count = read_u16_le(data, def_offset + TEXTURE_DEF_PATCH_COUNT_OFFSET) as usize;
    let base = def_offset + TEXTURE_DEF_PATCHES_OFFSET;
    let ghost limit = min_int(patch_count as int, (data@.len() - base) / 10);
    let mut patches: Vec<TexturePatchRef> = Vec::new();
    let mut patch_idx: usize = 0;
    let mut patch_offset: usize = base;
    while patch_idx < patch_count
        invariant
            n == data@.len(),
            base == def_offset + 22,
            base <= n,
            limit == min_int(patch_count as int, (data@.len() - base) / 10),
            patch_idx <= patch_count,
            patch_idx <= limit,
            patch_offset == base + 10 * patch_idx,
            patch_offset <= n,
            names == string_views(patch_names@),
            patch_ref_views(patches@) =~= Seq::new(
                patch_idx as nat,
                |j: int| spec_texture_patch(data@, names, def_offset as int, j),
            ),
        ensures
            patch_ref_views(patches@) =~= Seq::new(
                limit as nat,
                |j: int| spec_texture_patch(data@, names, def_offset as int, j),
            ),
        decreases patch_count - patch_idx,
    {
        if n - patch_offset < TEXTURE_PATCH_BYTE_SIZE {
            assert(patch_idx == limit);
            break;
        }
        let origin_x = read_i16_le(data, patch_offset);
        let origin_y = read_i16_le(data, patch_offset + 2);
        let patch_index = read_u16_le(data, patch_offset + 4) as usize;
        let patch_name = if patch_index < patch_names.len() {
            patch_names[patch_index].clone()
        } else {
            String::new()
        };
        let item = TexturePatchRef { origin_x, origin_y, patch_name };
        assert(item@ == spec_texture_patch(data@, names, def_offset as int, patch_idx as int));
        let ghost prev = patches@;
        patches.push(item);
        assert(patch_ref_views(patches@) =~= patch_ref_views(prev).push(spec_texture_patch(data@, names, def_offset as int, patch_idx as int)));
        patch_idx = patch_idx + 1;
        patch_offset = patch_offset + TEXTURE_PATCH_BYTE_SIZE;
    }
    TextureDef { name, width, height, patches }
}

/// Decodes the texture definitions of a TEXTUREx lump, naming each patch
/// reference through `patch_names`.
pub fn parse_texture_defs(data: &[u8], patch_names: &[String]) -> (defs: Vec<TextureDef>)
    ensures
        texture_def_views(defs@) == spec_texture_defs(
            data@,
            string_views(patch_names@),
        ),
{
    let ghost names = string_views(patch_names@);
    let n = data.len();
    let mut defs: Vec<TextureDef> = Vec::new();
    if n < TEXTURE_OFFSET_TABLE_START {
        assert(texture_def_views(defs@) =~= spec_texture_defs(data@, names));
        return defs;
    }
    let raw_count = read_i32_le(data, 0);
    let texture_count: usize = if raw_count < 0 { 0 } else { raw_count as usize };
    let ghost limit = min_int(spec_count_at(data@, 0), (data@.len() - 4) / 4);
    let mut index: usize = 0;
    let mut table_offset: usize = TEXTURE_OFFSET_TABLE_START;
    while index < texture_count
        invariant
            n == data@.len(),
            n >= 4,
            texture_count == spec_count_at(data@, 0),
            limit == min_int(spec_count_at(data@, 0), (data@.len() - 4) / 4),
            index <= texture_count,
            index <= limit,
            table_offset == 4 + 4 * index,
            table_offset <= n,
            names == string_views(patch_names@),
            texture_def_views(defs@) =~= spec_texture_defs_upto(
                data@,
                names,
                index as nat,
            ),
        ensures
            texture_def_views(defs@) =~= spec_texture_defs_upto(
                data@,
                names,
                limit as nat,
            ),
        decreases texture_count - index,
    {
        if n - table_offset < 4 {
            assert(index == limit);
            break;
        }
        let raw_offset = read_i32_le(data, table_offset);
        let def_offset: usize = if raw_offset < 0 { 0 } else { raw_offset as usize };
        assert(def_offset == spec_count_at(data@, 4 + 4 * index));
        if def_offset <= n && n - def_offset >= TEXTURE_DEF_PATCHES_OFFSET {
            let def = parse_texture_def(data, patch_names, def_offset);
            let ghost prev = defs@;
            defs.push(def);
            assert(texture_def_views(defs@) =~= texture_def_views(prev).push(
                spec_texture_def(data@, names, def_offset as int),
            ));
        }
        index = index + 1;
        table_offset = table_offset + 4;
    }
    defs
}

} // verus!

verus! {

proof fn lemma_texture_defs_upto(data: Seq<u8>, names: Seq<Seq<char>>, k: nat)
    ensures
        spec_texture_defs_upto(data, names, k).len() <= k,
        forall|i: int, j: int|
            #![trigger spec_texture_defs_upto(data, names, k)[i].patches[j]]
            0 <= i < spec_texture_defs_upto(data, names, k).len() && 0 <= j
                < spec_texture_defs_upto(data, names, k)[i].patches.len() ==> {
                let name = spec_texture_defs_upto(data, names, k)[i].patches[j].patch_name;
                name == Seq::<char>::empty() || names.contains(name)
            },
        forall|i: int|
            0 <= i < spec_texture_defs_upto(data, names, k).len() ==> #[trigger] spec_read_from_header(
                data,
                names,
                spec_texture_defs_upto(data, names, k)[i],
            ),
    decreases k,
{
    if k > 0 {
        lemma_texture_defs_upto(data, names, (k - 1) as nat);
        let prev = spec_texture_defs_upto(data, names, (k - 1) as nat);
        let all = spec_texture_defs_upto(data, names, k);
        let def_offset = spec_count_at(data, 4 + 4 * (k - 1));
        assert forall|i: int| 0 <= i < all.len() implies #[trigger] spec_read_from_header(
            data,
            names,
            all[i],
        ) by {
            if i < prev.len() {
                assert(all[i] == prev[i]);
                assert(spec_read_from_header(data, names, prev[i]));
            } else {
                assert(all[i] == spec_texture_def(data, names, def_offset));
                assert(spec_read_at_header(data, names, all[i], def_offset));
            }
        }
        assert forall|i: int, j: int|
            #![trigger all[i].patches[j]]
            0 <= i < all.len() && 0 <= j < all[i].patches.len() implies {
            let name = all[i].patches[j].patch_name;
            name == Seq::<char>::empty() || names.contains(name)
        } by {
            if i < prev.len() {
                assert(all[i] == prev[i]);
            } else {
                let name = all[i].patches[j].patch_name;
                if name != Seq::<char>::empty() {
                    let idx = spec_u16_le(data, def_offset + 22 + 10 * j + 4) as int;
                    assert(0 <= idx < names.len() && names[idx] == name);
                }
            }
        }
    }
}

/// `def` is the definition whose header lies inside the lump at `offset`,
/// with no more patches than that header announces.
pub open spec fn spec_read_at_header(data: Seq<u8>, names: Seq<Seq<char>>, def: TextureDefView, offset: int) -> bool {
    &&& 0 <= offset
    &&& offset + 22 <= data.len()
    &&& def == spec_texture_def(data, names, offset)
    &&& def.patches.len() <= spec_u16_le(data, offset + 20)
}

/// `def` is read from some header inside the lump, with no more patches
/// than that header announces.
pub open spec fn spec_read_from_header(data: Seq<u8>, names: Seq<Seq<char>>, def: TextureDefView) -> bool {
    exists|offset: int| #[trigger] spec_read_at_header(data, names, def, offset)
}

/// The texture definitions of a lump: none when it is shorter than its
/// count field, at most as many as that count, each read from a header
/// inside the lump with no more patches than that header announces, and
/// every patch names an entry of the patch name table (or nothing, when
/// its index is past the table).
pub proof fn law_texture_defs_bounds(data: Seq<u8>, names: Seq<Seq<char>>)
    ensures
        data.len() < 4 ==> spec_texture_defs(data, names).len() == 0,
        data.len() >= 4 ==> spec_texture_defs(data, names).len() <= spec_count_at(data, 0),
        forall|i: int|
            0 <= i < spec_texture_defs(data, names).len() ==> #[trigger] spec_read_from_header(
                data,
                names,
                spec_texture_defs(data, names)[i],
            ),
        forall|i: int, j: int|
            #![trigger spec_texture_defs(data, names)[i].patches[j]]
            0 <= i < spec_texture_defs(data, names).len() && 0 <= j < spec_texture_defs(
                data,
                names,
            )[i].patches.len() ==> {
                let name = spec_texture_defs(data, names)[i].patches[j].patch_name;
                name == Seq::<char>::empty() || names.contains(name)
            },
{
    if data.len() >= 4 {
        let k = min_int(spec_count_at(data, 0), (data.len() - 4) / 4) as nat;
        lemma_texture_defs_upto(data, names, k);
        assert(spec_texture_defs(data, names) == spec_texture_defs_upto(data, names, k));
        let defs = spec_texture_defs(data, names);
        assert forall|i: int| 0 <= i < defs.len() implies #[trigger] spec_read_from_header(
            data,
            names,
            defs[i],
        ) by {
            assert(defs[i] == spec_texture_defs_upto(data, names, k)[i]);
        }
    } else {
        assert(spec_texture_defs(data, names).len() == 0);
    }
}

} // verus!

verus! {

/// The unsigned little-endian 16-bit number in the two bytes at `off`.
pub open spec fn le_u16_at(data: Seq<u8>, off: int) -> int {
    data[off] as int + 256 * (data[off + 1] as int)
}

/// The two's-complement little-endian 16-bit number in the two bytes at
/// `off`.
pub open spec fn le_i16_at(data: Seq<u8>, off: int) -> int {
    le_u16_at(data, off) - if data[off + 1] >= 128 { 65536int } else { 0int }
}

/// A VERTEXES lump holds one vertex per whole 4-byte record: x in bytes
/// 0-1 and y in bytes 2-3, both signed little-endian.
pub proof fn law_vertex_record_layout(data: Seq<u8>)
    ensures
        spec_parse_vertexes(data).len() == data.len() / 4,
        forall|i: int|
            #![trigger spec_parse_vertexes(data)[i]]
            0 <= i < data.len() / 4 ==> {
                &&& spec_parse_vertexes(data)[i].x as int == le_i16_at(data, 4 * i)
                &&& spec_parse_vertexes(data)[i].y as int == le_i16_at(data, 4 * i + 2)
            },
{
    assert forall|i: int| #![trigger spec_parse_vertexes(data)[i]] 0 <= i < data.len() / 4 implies {
        &&& spec_parse_vertexes(data)[i].x as int == le_i16_at(data, 4 * i)
        &&& spec_parse_vertexes(data)[i].y as int == le_i16_at(data, 4 * i + 2)
    } by {
        lemma_record_in_bounds(i, data.len() as int, 4);
        lemma_i16_le_bytes(data, 4 * i);
        lemma_i16_le_bytes(data, 4 * i + 2);
    }
}

proof fn lemma_u16_le_bytes(data: Seq<u8>, off: int)
    requires
        0 <= off,
        off + 2 <= data.len(),
    ensures
        spec_u16_le(data, off) as int == le_u16_at(data, off),
{
}

proof fn lemma_i16_le_bytes(data: Seq<u8>, off: int)
    requires
        0 <= off,
        off + 2 <= data.len(),
    ensures
        spec_i16_le(data, off) as int == le_i16_at(data, off),
{
    lemma_u16_le_bytes(data, off);
}

/// A LINEDEFS lump holds one linedef per whole 14-byte record: start
/// vertex in bytes 0-1, end vertex in bytes 2-3, right (front) sidedef in
/// bytes 10-11 and left (back) sidedef in bytes 12-13, all unsigned
/// little-endian.
pub proof fn law_linedef_record_layout(data: Seq<u8>)
    ensures
        spec_parse_linedefs(data).len() == data.len() / 14,
        forall|i: int|
            #![trigger spec_parse_linedefs(data)[i]]
            0 <= i < data.len() / 14 ==> {
                &&& spec_parse_linedefs(data)[i].start_vertex as int == le_u16_at(data, 14 * i)
                &&& spec_parse_linedefs(data)[i].end_vertex as int == le_u16_at(data, 14 * i + 2)
                &&& spec_parse_linedefs(data)[i].right_sidedef as int == le_u16_at(data, 14 * i + 10)
                &&& spec_parse_linedefs(data)[i].left_sidedef as int == le_u16_at(data, 14 * i + 12)
            },
{
    assert forall|i: int| #![trigger spec_parse_linedefs(data)[i]] 0 <= i < data.len() / 14 implies {
        &&& spec_parse_linedefs(data)[i].start_vertex as int == le_u16_at(data, 14 * i)
        &&& spec_parse_linedefs(data)[i].end_vertex as int == le_u16_at(data, 14 * i + 2)
        &&& spec_parse_linedefs(data)[i].right_sidedef as int == le_u16_at(data, 14 * i + 10)
        &&& spec_parse_linedefs(data)[i].left_sidedef as int == le_u16_at(data, 14 * i + 12)
    } by {
        lemma_record_in_bounds(i, data.len() as int, 14);
        lemma_u16_le_bytes(data, 14 * i);
        lemma_u16_le_bytes(data, 14 * i + 2);
        lemma_u16_le_bytes(data, 14 * i + 10);
        lemma_u16_le_bytes(data, 14 * i + 12);
    }
}

/// A SIDEDEFS lump holds one sidedef per whole 30-byte record: the middle
/// texture name in bytes 20-27 and the sector in bytes 28-29 (unsigned
/// little-endian).
pub proof fn law_sidedef_record_layout(data: Seq<u8>)
    ensures
        spec_parse_sidedefs(data).len() == data.len() / 30,
        forall|i: int|
            #![trigger spec_parse_sidedefs(data)[i]]
            0 <= i < data.len() / 30 ==> {
                &&& spec_parse_sidedefs(data)[i].sector as int == le_u16_at(data, 30 * i + 28)
                &&& spec_parse_sidedefs(data)[i].middle_texture == spec_read_name(data, 30 * i + 20, 8)
            },
{
    assert forall|i: int| #![trigger spec_parse_sidedefs(data)[i]] 0 <= i < data.len() / 30 implies {
        &&& spec_parse_sidedefs(data)[i].sector as int == le_u16_at(data, 30 * i + 28)
        &&& spec_parse_sidedefs(data)[i].middle_texture == spec_read_name(data, 30 * i + 20, 8)
    } by {
        lemma_record_in_bounds(i, data.len() as int, 30);
        lemma_u16_le_bytes(data, 30 * i + 28);
    }
}

/// A SECTORS lump holds one sector per whole 26-byte record: the floor
/// texture name in bytes 4-11, the ceiling texture name in bytes 12-19 and
/// the light level in bytes 20-21 (signed little-endian).
pub proof fn law_sector_record_layout(data: Seq<u8>)
    ensures
        spec_parse_sectors(data).len() == data.len() / 26,
        forall|i: int|
            #![trigger spec_parse_sectors(data)[i]]
            0 <= i < data.len() / 26 ==> {
                &&& spec_parse_sectors(data)[i].floor_texture == spec_read_name(data, 26 * i + 4, 8)
                &&& spec_parse_sectors(data)[i].ceiling_texture == spec_read_name(data, 26 * i + 12, 8)
                &&& spec_parse_sectors(data)[i].light_level as int == le_i16_at(data, 26 * i + 20)
            },
{
    assert forall|i: int| #![trigger spec_parse_sectors(data)[i]] 0 <= i < data.len() / 26 implies {
        &&& spec_parse_sectors(data)[i].floor_texture == spec_read_name(data, 26 * i + 4, 8)
        &&& spec_parse_sectors(data)[i].ceiling_texture == spec_read_name(data, 26 * i + 12, 8)
        &&& spec_parse_sectors(data)[i].light_level as int == le_i16_at(data, 26 * i + 20)
    } by {
        lemma_record_in_bounds(i, data.len() as int, 26);
        lemma_i16_le_bytes(data, 26 * i + 20);
    }
}

/// A THINGS lump holds one thing per whole 10-byte record: x in bytes 0-1
/// and y in bytes 2-3 (signed), and the type in bytes 6-7 (unsigned), all
/// little-endian.
pub proof fn law_thing_record_layout(data: Seq<u8>)
    ensures
        spec_parse_things(data).len() == data.len() / 10,
        forall|i: int|
            #![trigger spec_parse_things(data)[i]]
            0 <= i < data.len() / 10 ==> {
                &&& spec_parse_things(data)[i].x as int == le_i16_at(data, 10 * i)
                &&& spec_parse_things(data)[i].y as int == le_i16_at(data, 10 * i + 2)
                &&& spec_parse_things(data)[i].thing_type as int == le_u16_at(data, 10 * i + 6)
            },
{
    assert forall|i: int| #![trigger spec_parse_things(data)[i]] 0 <= i < data.len() / 10 implies {
        &&& spec_parse_things(data)[i].x as int == le_i16_at(data, 10 * i)
        &&& spec_parse_things(data)[i].y as int == le_i16_at(data, 10 * i + 2)
        &&& spec_parse_things(data)[i].thing_type as int == le_u16_at(data, 10 * i + 6)
    } by {
        lemma_record_in_bounds(i, data.len() as int, 10);
        lemma_i16_le_bytes(data, 10 * i);
        lemma_i16_le_bytes(data, 10 * i + 2);
        lemma_u16_le_bytes(data, 10 * i + 6);
    }
}

/// A SEGS lump holds one seg per whole 12-byte record, whose linedef is in
/// bytes 6-7 (unsigned little-endian).
pub proof fn law_seg_record_layout(data: Seq<u8>)
    ensures
        spec_parse_segs(data).len() == data.len() / 12,
        forall|i: int|
            #![trigger spec_parse_segs(data)[i]]
            0 <= i < data.len() / 12 ==> spec_parse_segs(data)[i].linedef as int == le_u16_at(
                data,
                12 * i + 6,
            ),
{
    assert forall|i: int| #![trigger spec_parse_segs(data)[i]] 0 <= i < data.len() / 12 implies spec_parse_segs(
        data,
    )[i].linedef as int == le_u16_at(data, 12 * i + 6) by {
        lemma_record_in_bounds(i, data.len() as int, 12);
        lemma_u16_le_bytes(data, 12 * i + 6);
    }
}

/// A texture definition read at `offset`: its name is the 8 bytes there,
/// its width the unsigned little-endian number at +12 and its height the
/// one at +14; it lists as many patches as the count at +20 announces and
/// the lump holds, each a 10-byte record from +22 on with signed x and y
/// origins in its first four bytes and, in the next two, the index of its
/// patch name (the empty name when the index is past the table).
pub proof fn law_texture_def_layout(data: Seq<u8>, names: Seq<Seq<char>>, offset: int)
    requires
        0 <= offset,
        offset + 22 <= data.len(),
    ensures
        ({
            let def = spec_texture_def(data, names, offset);
            &&& def.name == spec_read_name(data, offset, 8)
            &&& def.width as int == le_u16_at(data, offset + 12)
            &&& def.height as int == le_u16_at(data, offset + 14)
            &&& def.patches.len() <= le_u16_at(data, offset + 20)
            &&& offset + 22 + 10 * def.patches.len() <= data.len()
            &&& (le_u16_at(data, offset + 20) <= def.patches.len() || data.len() < offset + 22
                + 10 * (def.patches.len() + 1))
            &&& forall|j: int|
                #![trigger def.patches[j]]
                0 <= j < def.patches.len() ==> {
                    let p = offset + 22 + 10 * j;
                    let index = le_u16_at(data, p + 4);
                    &&& def.patches[j].origin_x as int == le_i16_at(data, p)
                    &&& def.patches[j].origin_y as int == le_i16_at(data, p + 2)
                    &&& def.patches[j].patch_name == if index < names.len() {
                        names[index]
                    } else {
                        Seq::<char>::empty()
                    }
                }
        }),
{
    let def = spec_texture_def(data, names, offset);
    lemma_u16_le_bytes(data, offset + 12);
    lemma_u16_le_bytes(data, offset + 14);
    lemma_u16_le_bytes(data, offset + 20);
    let room = (data.len() - (offset + 22)) / 10;
    vstd::arithmetic::div_mod::lemma_fundamental_div_mod(data.len() - (offset + 22), 10);
    assert(offset + 22 + 10 * def.patches.len() <= data.len());
    assert forall|j: int| #![trigger def.patches[j]] 0 <= j < def.patches.len() implies {
        let p = offset + 22 + 10 * j;
        let index = le_u16_at(data, p + 4);
        &&& def.patches[j].origin_x as int == le_i16_at(data, p)
        &&& def.patches[j].origin_y as int == le_i16_at(data, p + 2)
        &&& def.patches[j].patch_name == if index < names.len() {
            names[index]
        } else {
            Seq::<char>::empty()
        }
    } by {
        let p = offset + 22 + 10 * j;
        assert(p + 10 <= data.len());
        lemma_i16_le_bytes(data, p);
        lemma_i16_le_bytes(data, p + 2);
        lemma_u16_le_bytes(data, p + 4);
    }
}

/// A PLAYPAL lump of at least 768 bytes gives 256 colours, the i-th being
/// the three bytes at 3i in red, green, blue order; a shorter lump gives
/// none.
pub proof fn law_playpal_layout(data: Seq<u8>)
    ensures
        data.len() < 768 ==> spec_parse_playpal(data).len() == 0,
        data.len() >= 768 ==> spec_parse_playpal(data).len() == 256,
        data.len() >= 768 ==> forall|i: int|
            #![trigger spec_parse_playpal(data)[i]]
            0 <= i < 256 ==> spec_parse_playpal(data)[i].r == data[3 * i]
                && spec_parse_playpal(data)[i].g == data[3 * i + 1]
                && spec_parse_playpal(data)[i].b == data[3 * i + 2],
{
}

} // verus!
