//! Reading a WAD archive held in memory: header and directory checks, lump
//! lookup, texture composition, flats and the map as a whole.

use vstd::prelude::*;

use crate::bytes::{read_i32_le, read_u16_le, read_u32_le, spec_i32_le, spec_u16_le, spec_u32_le};
use crate::wad::error::WadError;
use crate::wad::parser::{
    parse_linedefs, parse_playpal, parse_pnames, parse_sectors, parse_segs, parse_sidedefs,
    parse_texture_defs, parse_things, parse_vertexes, spec_parse_linedefs, spec_parse_playpal,
    spec_parse_sectors, spec_parse_segs, spec_parse_sidedefs, spec_parse_things,
    spec_parse_vertexes, spec_pnames, spec_texture_defs,
};
use crate::wad::names::{
    name_lt, lemma_name_lt_order, lemma_sorted_insert,
    insert_sorted_unique, read_name, spec_read_name, str_eq, strictly_increasing, ReadNameParams,
};
use crate::wad::world::{
    lump_views, patch_ref_views, sector_views, sidedef_views, string_views, texture_def_views,
    flat_views, map_texture_views, MapData, MapDataView, FlatTexture, FlatTextureWithPixelsParams, FlatTextureView, LumpInfo, LumpInfoView, MapTexture,
    MapTextureView, MapTextureWithPixelsParams, Sector,
    SectorView, Seg, TextureDef, TextureDefView, WadHeader,
};

verus! {

pub const WAD_HEADER_SIZE: usize = 12;
pub const WAD_LUMP_ENTRY_SIZE: usize = 16;

/// `data` starts with the 4-byte signature `sig`.
pub open spec fn has_signature(data: Seq<u8>, sig: Seq<u8>) -> bool {
    &&& data.len() >= 4
    &&& data.subrange(0, 4) == sig
}

pub open spec fn iwad_signature() -> Seq<u8> {
    seq![0x49u8, 0x57u8, 0x41u8, 0x44u8]
}

pub open spec fn pwad_signature() -> Seq<u8> {
    seq![0x50u8, 0x57u8, 0x41u8, 0x44u8]
}

/// The header of a WAD file with contents `data`, or why it is refused: a
/// file shorter than the 12-byte header, a signature other than `IWAD` or
/// `PWAD`, or a negative lump count or directory offset.
pub open spec fn spec_wad_header(data: Seq<u8>) -> Result<WadHeader, WadError> {
    if data.len() < 12 {
        Err(WadError::InvalidWadHeader)
    } else if !has_signature(data, iwad_signature()) && !has_signature(data, pwad_signature()) {
        Err(WadError::InvalidWadSignature)
    } else if spec_i32_le(data, 4) < 0 || spec_i32_le(data, 8) < 0 {
        Err(WadError::InvalidWadHeader)
    } else {
        Ok(WadHeader { num_lumps: spec_i32_le(data, 4), directory_offset: spec_i32_le(data, 8) })
    }
}

pub struct NonNegativeI32PairParams {
    pub first: i32,
    pub second: i32,
}

pub fn has_non_negative_i32_pair(params: NonNegativeI32PairParams) -> (ok: bool)
    ensures
        ok == (params.first >= 0 && params.second >= 0),
{
    let NonNegativeI32PairParams { first, second } = params;
    first >= 0 && second >= 0
}

/// Checks the header at the start of the WAD file contents `data`.
pub fn validate_wad(data: &[u8]) -> (header: Result<WadHeader, WadError>)
    ensures
        header == spec_wad_header(data@),
{
    if data.len() < WAD_HEADER_SIZE {
        return Err(WadError::InvalidWadHeader);
    }
    let is_iwad = data[0] == 0x49 && data[1] == 0x57 && data[2] == 0x41 && data[3] == 0x44;
    let is_pwad = data[0] == 0x50 && data[1] == 0x57 && data[2] == 0x41 && data[3] == 0x44;
    proof {
        let head = data@.subrange(0, 4);
        assert(is_iwad <==> head =~= iwad_signature());
        assert(is_pwad <==> head =~= pwad_signature());
    }
    if !(is_iwad || is_pwad) {
        return Err(WadError::InvalidWadSignature);
    }
    let num_lumps = read_i32_le(data, 4);
    let directory_offset = read_i32_le(data, 8);
    let has_valid_header = has_non_negative_i32_pair(
        NonNegativeI32PairParams { first: num_lumps, second: directory_offset },
    );
    if !has_valid_header {
        return Err(WadError::InvalidWadHeader);
    }
    Ok(WadHeader { num_lumps, directory_offset })
}

/// The directory entry that starts at byte `pos`.
pub open spec fn spec_lump_entry(data: Seq<u8>, pos: int) -> LumpInfoView {
    LumpInfoView {
        name: spec_read_name(data, pos + 8, 8),
        file_pos: spec_i32_le(data, pos),
        size: spec_i32_le(data, pos + 4),
    }
}

/// The lump directory announced by `header`: every entry must lie inside
/// the file.
pub open spec fn spec_directory(data: Seq<u8>, header: WadHeader) -> Result<
    Seq<LumpInfoView>,
    WadError,
> {
    if header.num_lumps < 0 || header.directory_offset < 0 {
        Err(WadError::InvalidWadHeader)
    } else if header.num_lumps > 0 && header.directory_offset + 16 * header.num_lumps
        > data.len() {
        Err(WadError::InvalidWadHeader)
    } else {
        Ok(
            Seq::new(
                header.num_lumps as nat,
                |i: int| spec_lump_entry(data, header.directory_offset + 16 * i),
            ),
        )
    }
}

pub struct ReadDirectoryParams<'a> {
    pub data: &'a [u8],
    pub header: &'a WadHeader,
}

/// Reads the lump directory of the WAD file contents `data`.
pub fn read_directory(params: ReadDirectoryParams<'_>) -> (lumps: Result<Vec<LumpInfo>, WadError>)
    ensures
        lumps matches Ok(v) ==> spec_directory(params.data@, *params.header) == Ok::<
            Seq<LumpInfoView>,
            WadError,
        >(lump_views(v@)),
        lumps matches Err(e) ==> spec_directory(params.data@, *params.header) == Err::<
            Seq<LumpInfoView>,
            WadError,
        >(e),
{
    let ReadDirectoryParams { data, header } = params;
    let has_valid_header = has_non_negative_i32_pair(
        NonNegativeI32PairParams { first: header.num_lumps, second: header.directory_offset },
    );
    if !has_valid_header {
        return Err(WadError::InvalidWadHeader);
    }
    let n = data.len();
    let count = header.num_lumps as usize;
    let dir = header.directory_offset as usize;
    let ghost spec_entries = Seq::new(
        count as nat,
        |i: int| spec_lump_entry(data@, dir + 16 * i),
    );
    let mut lumps: Vec<LumpInfo> = Vec::new();
    let mut index: usize = 0;
    let mut pos: usize = dir;
    while index < count
        invariant
            n == data@.len(),
            params.data@ == data@,
            *params.header == *header,
            count == header.num_lumps,
            dir == header.directory_offset,
            0 <= dir,
            index <= count,
            pos == dir + 16 * index,
            index > 0 ==> pos <= n,
            spec_entries == Seq::new(count as nat, |i: int| spec_lump_entry(data@, dir + 16 * i)),
            lump_views(lumps@) =~= spec_entries.take(index as int),
        decreases count - index,
    {
        if pos > n || n - pos < WAD_LUMP_ENTRY_SIZE {
            assert(dir + 16 * count >= pos + 16);
            assert(header.num_lumps > 0);
            assert(header.directory_offset + 16 * header.num_lumps > data@.len());
            assert(spec_directory(data@, *header) == Err::<Seq<LumpInfoView>, WadError>(
                WadError::InvalidWadHeader,
            ));
            return Err(WadError::InvalidWadHeader);
        }
        let file_pos = read_i32_le(data, pos);
        let size = read_i32_le(data, pos + 4);
        let name = read_name(ReadNameParams { chunk: data, offset: pos + 8, len: 8 });
        let lump = LumpInfo { name, file_pos, size };
        assert(lump@ == spec_entries[index as int]);
        let ghost prev = lumps@;
        lumps.push(lump);
        assert(lump_views(lumps@) =~= lump_views(prev).push(
            spec_entries[index as int],
        ));
        assert(spec_entries.take(index + 1) =~= spec_entries.take(index as int).push(
            spec_entries[index as int],
        ));
        index = index + 1;
        pos = pos + WAD_LUMP_ENTRY_SIZE;
    }
    assert(spec_entries.take(count as int) =~= spec_entries);
    Ok(lumps)
}

/// The bytes of `lump` inside the file contents `data`, or `None` when its
/// position or size is negative or it runs past the end of the file.  An
/// empty lump is read as empty wherever it points.
pub open spec fn spec_lump_bytes(data: Seq<u8>, lump: LumpInfoView) -> Option<Seq<u8>> {
    if lump.file_pos < 0 || lump.size < 0 {
        None
    } else if lump.size == 0 {
        Some(Seq::empty())
    } else if lump.file_pos + lump.size > data.len() {
        None
    } else {
        Some(data.subrange(lump.file_pos as int, lump.file_pos + lump.size))
    }
}

pub struct ReadLumpDataParams<'a> {
    pub data: &'a [u8],
    pub lump: &'a LumpInfo,
}

/// Copies the bytes of a lump out of the file contents.
pub fn read_lump_data(params: ReadLumpDataParams<'_>) -> (bytes: Result<Vec<u8>, WadError>)
    ensures
        match spec_lump_bytes(params.data@, params.lump@) {
            Some(b) => bytes matches Ok(v) && v@ == b,
            None => bytes == Err::<Vec<u8>, WadError>(WadError::InvalidLumpData),
        },
{
    let ReadLumpDataParams { data, lump } = params;
    let has_valid_lump = has_non_negative_i32_pair(
        NonNegativeI32PairParams { first: lump.file_pos, second: lump.size },
    );
    if !has_valid_lump {
        return Err(WadError::InvalidLumpData);
    }
    if lump.size == 0 {
        return Ok(Vec::new());
    }
    let start = lump.file_pos as usize;
    let size = lump.size as usize;
    if start > data.len() || data.len() - start < size {
        return Err(WadError::InvalidLumpData);
    }
    Ok(copy_bytes(&data[start..start + size]))
}

/// A new vector holding the bytes.
fn copy_bytes(bytes: &[u8]) -> (v: Vec<u8>)
    ensures
        v@ == bytes@,
{
    let mut v: Vec<u8> = Vec::with_capacity(bytes.len());
    let mut k: usize = 0;
    while k < bytes.len()
        invariant
            k <= bytes@.len(),
            v@ == bytes@.take(k as int),
        decreases bytes@.len() - k,
    {
        v.push(bytes[k]);
        assert(v@ =~= bytes@.take(k + 1));
        k = k + 1;
    }
    assert(bytes@.take(k as int) =~= bytes@);
    v
}

/// Index of the first lump called `name`.
pub open spec fn spec_find_lump(lumps: Seq<LumpInfoView>, name: Seq<char>) -> Option<int>
    decreases lumps.len(),
{
    if lumps.len() == 0 {
        None
    } else {
        match spec_find_lump(lumps.drop_last(), name) {
            Some(i) => Some(i),
            None => if lumps.last().name == name {
                Some(lumps.len() - 1)
            } else {
                None
            },
        }
    }
}

proof fn lemma_find_lump_some(lumps: Seq<LumpInfoView>, name: Seq<char>)
    ensures
        spec_find_lump(lumps, name) matches Some(i) ==> 0 <= i < lumps.len() && lumps[i].name
            == name && forall|j: int| 0 <= j < i ==> lumps[j].name != name,
        spec_find_lump(lumps, name) is None ==> forall|j: int|
            0 <= j < lumps.len() ==> lumps[j].name != name,
    decreases lumps.len(),
{
    if lumps.len() > 0 {
        let init = lumps.drop_last();
        lemma_find_lump_some(init, name);
        assert forall|j: int| 0 <= j < init.len() implies init[j] == lumps[j] by {}
    }
}

/// Finds the first lump called `name`.
pub fn find_lump_index(lumps: &[LumpInfo], name: &str) -> (found: Option<usize>)
    ensures
        found matches Some(i) ==> i < lumps@.len() && spec_find_lump(lump_views(lumps@), name@)
            == Some(i as int),
        found is None ==> spec_find_lump(lump_views(lumps@), name@) is None,
{
    let ghost views = lump_views(lumps@);
    let mut index: usize = 0;
    while index < lumps.len()
        invariant
            index <= lumps@.len(),
            views == lump_views(lumps@),
            spec_find_lump(views.take(index as int), name@) is None,
        decreases lumps@.len() - index,
    {
        let is_match = str_eq(lumps[index].name.as_str(), name);
        assert(views.take(index + 1).drop_last() =~= views.take(index as int));
        if is_match {
            proof {
                lemma_find_lump_some(views, name@);
                lemma_find_lump_some(views.take(index as int), name@);
                assert(views[index as int].name == name@);
                if let Some(i) = spec_find_lump(views, name@) {
                    if i < index {
                        assert(views.take(index as int)[i] == views[i]);
                    }
                    if i > index {
                        assert(views[index as int].name != name@);
                    }
                }
            }
            return Some(index);
        }
        index = index + 1;
    }
    assert(views.take(index as int) =~= views);
    None
}

pub struct RequiredMapLumpParams<'a> {
    pub lumps: &'a [LumpInfo],
    pub map_index: usize,
    pub offset: usize,
    pub expected_name: &'a str,
    pub error: WadError,
}

/// The lump `offset` places after the map marker, if it carries the
/// expected name; `error` otherwise.
pub fn required_map_lump<'a>(params: RequiredMapLumpParams<'a>) -> (lump: Result<&'a LumpInfo, WadError>)
    requires
        params.map_index + params.offset <= usize::MAX,
    ensures
        ({
            let idx = params.map_index + params.offset;
            if idx < params.lumps@.len() && params.lumps@[idx]@.name == params.expected_name@ {
                lump matches Ok(l) && *l == params.lumps@[idx]
            } else {
                lump == Err::<&LumpInfo, WadError>(params.error)
            }
        }),
{
    let RequiredMapLumpParams { lumps, map_index, offset, expected_name, error } = params;
    let index = map_index + offset;
    if index >= lumps.len() {
        return Err(error);
    }
    let lump = &lumps[index];
    if !str_eq(lump.name.as_str(), expected_name) {
        return Err(error);
    }
    Ok(lump)
}

/// A name that can refer to a flat: neither empty nor the `-` placeholder.
pub open spec fn spec_is_valid_flat_name(name: Seq<char>) -> bool {
    name.len() != 0 && name != seq!['-']
}

pub fn is_valid_flat_name(name: &str) -> (valid: bool)
    ensures
        valid == spec_is_valid_flat_name(name@),
{
    let bytes = name.as_bytes();
    let ghost dash = seq!['-'];
    proof {
        vstd::utf8::encode_utf8_decode_utf8(name@);
        vstd::utf8::encode_utf8_decode_utf8(dash);
        vstd::utf8::encode_utf8_decode_utf8(Seq::<char>::empty());
        assert(vstd::utf8::encode_utf8(Seq::<char>::empty()) =~= Seq::<u8>::empty());
        assert(vstd::utf8::is_ascii_chars(dash));
        vstd::utf8::is_ascii_chars_encode_utf8(dash);
        assert(vstd::utf8::encode_utf8(dash) =~= seq![0x2du8]);
        if name@.len() == 0 {
            assert(name@ =~= Seq::<char>::empty());
        }
    }
    if bytes.len() == 0 {
        return false;
    }
    let is_placeholder = bytes.len() == 1 && bytes[0] == 0x2d;
    proof {
        if is_placeholder {
            assert(bytes@ =~= seq![0x2du8]);
        }
    }
    !is_placeholder
}

/// The linedef indices reached by `segments`, in order of first appearance,
/// without repeats and skipping indices not below `line_count`.
pub open spec fn spec_bsp_line_indices(segments: Seq<Seg>, line_count: int) -> Seq<u16>
    decreases segments.len(),
{
    if segments.len() == 0 {
        Seq::empty()
    } else {
        let prev = spec_bsp_line_indices(segments.drop_last(), line_count);
        let linedef = segments.last().linedef;
        if linedef < line_count && !prev.contains(linedef) {
            prev.push(linedef)
        } else {
            prev
        }
    }
}

pub struct CollectBspLineIndicesParams<'a> {
    pub segments: &'a [Seg],
    pub line_count: usize,
}

/// Orders the linedefs the way the segs reach them.
pub fn collect_bsp_line_indices(params: CollectBspLineIndicesParams<'_>) -> (indices: Vec<u16>)
    ensures
        indices@ == spec_bsp_line_indices(params.segments@, params.line_count as int),
{
    let CollectBspLineIndicesParams { segments, line_count } = params;
    let mut seen_linedefs: Vec<bool> = Vec::new();
    let mut k: usize = 0;
    while k < line_count
        invariant
            k <= line_count,
            seen_linedefs@.len() == k,
            forall|j: int| 0 <= j < k ==> !seen_linedefs@[j],
        decreases line_count - k,
    {
        seen_linedefs.push(false);
        k = k + 1;
    }
    let mut ordered: Vec<u16> = Vec::new();
    let mut index: usize = 0;
    while index < segments.len()
        invariant
            index <= segments@.len(),
            seen_linedefs@.len() == line_count,
            ordered@ == spec_bsp_line_indices(segments@.take(index as int), line_count as int),
            forall|v: u16|
                (v as int) < line_count ==> (seen_linedefs@[v as int] <==> ordered@.contains(v)),
            forall|j: int| 65536 <= j < line_count ==> !seen_linedefs@[j],
        decreases segments@.len() - index,
    {
        let linedef = segments[index].linedef;
        let linedef_index = linedef as usize;
        assert(segments@.take(index + 1).drop_last() =~= segments@.take(index as int));
        proof {
            if (linedef as int) < line_count {
                assert(seen_linedefs@[linedef as int] <==> ordered@.contains(linedef));
            }
        }
        if linedef_index < line_count && !seen_linedefs[linedef_index] {
            seen_linedefs.set(linedef_index, true);
            let ghost prev = ordered@;
            ordered.push(linedef);
            assert forall|v: u16| (v as int) < line_count implies (seen_linedefs@[v as int]
                <==> ordered@.contains(v)) by {
                if v == linedef {
                    assert(ordered@[ordered@.len() - 1] == linedef);
                } else {
                    if ordered@.contains(v) {
                        let w = choose|w: int| 0 <= w < ordered@.len() && ordered@[w] == v;
                        if w < prev.len() {
                            assert(prev[w] == v);
                        }
                    }
                    if prev.contains(v) {
                        let w = choose|w: int| 0 <= w < prev.len() && prev[w] == v;
                        assert(ordered@[w] == v);
                    }
                }
            }
        }
        index = index + 1;
    }
    assert(segments@.take(segments@.len() as int) =~= segments@);
    ordered
}

/// The horizontal target position of `column` of a patch placed at `origin_x`.
pub open spec fn spec_dst_x(origin_x: i16, column: int) -> int {
    origin_x + (column as i16) as int
}

/// The target after drawing one post: the `length` bytes at `data_start`
/// go down the column from row `origin_y + top`, and only the pixels that
/// fall inside the `target_width` by `target_height` texture are written.
pub open spec fn spec_blit_post(
    target: Seq<u8>,
    patch: Seq<u8>,
    data_start: int,
    length: int,
    origin_x: i16,
    origin_y: i16,
    column: int,
    top: int,
    target_width: u16,
    target_height: u16,
) -> Seq<u8> {
    let dst_x = spec_dst_x(origin_x, column);
    let w = target_width as int;
    Seq::new(
        target.len(),
        |i: int|
            {
                let row = i / w - origin_y - top;
                if 0 <= dst_x < (target_width as i16) as int && i % w == dst_x && 0 <= row < length
                    && i / w < (target_height as i16) as int {
                    patch[data_start + row]
                } else {
                    target[i]
                }
            },
    )
}

/// The target after drawing the posts of a column that start at byte
/// `post_offset`.  A post whose top does not exceed the previous post's top
/// continues below it (tall patches); the column ends at a 255 marker, at a
/// header or data that runs past the patch, or at the end of the patch.
pub open spec fn spec_blit_column_from(
    patch: Seq<u8>,
    post_offset: int,
    previous_top: int,
    origin_x: i16,
    origin_y: i16,
    column: int,
    target_width: u16,
    target_height: u16,
    target: Seq<u8>,
) -> Seq<u8>
    decreases patch.len() + 1 - post_offset,
{
    if post_offset < 0 || post_offset >= patch.len() {
        target
    } else if patch[post_offset] == 255 || post_offset + 3 > patch.len() {
        target
    } else {
        let top_delta = patch[post_offset] as int;
        let length = patch[post_offset + 1] as int;
        let data_start = post_offset + 3;
        let data_end = data_start + length;
        if data_end > patch.len() {
            target
        } else {
            let top = if top_delta <= previous_top {
                previous_top + top_delta
            } else {
                top_delta
            };
            spec_blit_column_from(
                patch,
                data_end + 1,
                top,
                origin_x,
                origin_y,
                column,
                target_width,
                target_height,
                spec_blit_post(
                    target,
                    patch,
                    data_start,
                    length,
                    origin_x,
                    origin_y,
                    column,
                    top,
                    target_width,
                    target_height,
                ),
            )
        }
    }
}

/// The target after drawing columns `column..width` of a patch; drawing
/// stops at the first column whose offset entry lies past the patch.
pub open spec fn spec_blit_columns(
    patch: Seq<u8>,
    column: int,
    width: int,
    origin_x: i16,
    origin_y: i16,
    target_width: u16,
    target_height: u16,
    target: Seq<u8>,
) -> Seq<u8>
    decreases width - column,
{
    if column >= width || column < 0 {
        target
    } else if 8 + 4 * column + 4 > patch.len() {
        target
    } else {
        spec_blit_columns(
            patch,
            column + 1,
            width,
            origin_x,
            origin_y,
            target_width,
            target_height,
            spec_blit_column_from(
                patch,
                spec_u32_le(patch, 8 + 4 * column) as int,
                -1,
                origin_x,
                origin_y,
                column,
                target_width,
                target_height,
                target,
            ),
        )
    }
}

/// The target after drawing a patch (picture format) at the given origin.
pub open spec fn spec_blit_patch(
    patch: Seq<u8>,
    origin_x: i16,
    origin_y: i16,
    target_width: u16,
    target_height: u16,
    target: Seq<u8>,
) -> Seq<u8> {
    if patch.len() < 8 {
        target
    } else {
        spec_blit_columns(
            patch,
            0,
            spec_u16_le(patch, 0) as int,
            origin_x,
            origin_y,
            target_width,
            target_height,
            target,
        )
    }
}

pub struct BlitPatchParams<'a> {
    pub patch_data: &'a [u8],
    pub origin_x: i16,
    pub origin_y: i16,
    pub target_width: u16,
    pub target_height: u16,
    pub target_pixels: &'a mut [u8],
}

pub struct BlitPatchColumnParams<'a> {
    pub patch_data: &'a [u8],
    pub column: usize,
    pub origin_x: i16,
    pub origin_y: i16,
    pub target_width: u16,
    pub target_height: u16,
}

pub struct BlitPatchPostParams<'a> {
    pub patch_data: &'a [u8],
    pub data_start: usize,
    pub length: usize,
    pub origin_x: i16,
    pub origin_y: i16,
    pub column: usize,
    pub previous_post_top: i128,
    pub target_width: u16,
    pub target_height: u16,
}

proof fn lemma_u16_as_i16(x: u16)
    ensures
        (x as i16) as int <= x as int,
        (x as int) < 0x8000 ==> (x as i16) as int == x as int,
{
    assert((x as i16) as int <= x as int) by (bit_vector);
    assert((x as int) < 0x8000 ==> (x as i16) as int == x as int) by (bit_vector);
}

proof fn lemma_target_index(y: int, x: int, w: int, h: int, len: int)
    requires
        0 <= x < w,
        0 <= y < h,
        w * h <= len,
    ensures
        (y * w + x) / w == y,
        (y * w + x) % w == x,
        0 <= y * w + x < len,
{
    vstd::arithmetic::div_mod::lemma_fundamental_div_mod_converse(y * w + x, w, y, x);
    assert(0 <= y * w + x < len) by (nonlinear_arith)
        requires
            0 <= x < w,
            0 <= y < h,
            w * h <= len,
    ;
}

/// Draws one post of a patch column.
pub fn blit_patch_post(params: BlitPatchPostParams<'_>, target_pixels: &mut [u8])
    requires
        params.data_start + params.length <= params.patch_data@.len(),
        old(target_pixels)@.len() >= params.target_width as int * params.target_height as int,
        -1 <= params.previous_post_top <= 0x1_0000_0000_0000_0000_0000,
    ensures
        final(target_pixels)@ == spec_blit_post(
            old(target_pixels)@,
            params.patch_data@,
            params.data_start as int,
            params.length as int,
            params.origin_x,
            params.origin_y,
            params.column as int,
            params.previous_post_top as int,
            params.target_width,
            params.target_height,
        ),
{
    let BlitPatchPostParams {
        patch_data,
        data_start,
        length,
        origin_x,
        origin_y,
        column,
        previous_post_top,
        target_width,
        target_height,
    } = params;
    let ghost original = target_pixels@;
    let ghost w = target_width as int;
    let dst_x: i32 = origin_x as i32 + (#[verifier::truncate] (column as i16)) as i32;
    let width_limit: i32 = (#[verifier::truncate] (target_width as i16)) as i32;
    let height_limit: i128 = (#[verifier::truncate] (target_height as i16)) as i128;
    let total = target_pixels.len();
    let plen = patch_data.len();
    proof {
        lemma_u16_as_i16(target_width);
        lemma_u16_as_i16(target_height);
    }
    let mut row: usize = 0;
    while row < length
        invariant
            row <= length,
            data_start + length <= patch_data@.len(),
            target_pixels@.len() == original.len(),
            total == original.len(),
            plen == patch_data@.len(),
            width_limit <= target_width,
            height_limit <= target_height,
            original.len() >= target_width as int * target_height as int,
            -1 <= previous_post_top <= 0x1_0000_0000_0000_0000_0000,
            dst_x == spec_dst_x(origin_x, column as int),
            width_limit == (target_width as i16) as int,
            height_limit == (target_height as i16) as int,
            w == target_width as int,
            forall|i: int|
                0 <= i < original.len() ==> target_pixels@[i] == {
                    let r = i / w - origin_y - previous_post_top;
                    if 0 <= dst_x < width_limit && i % w == dst_x && 0 <= r < row && i / w
                        < height_limit {
                        patch_data@[data_start + r]
                    } else {
                        original[i]
                    }
                },
        decreases length - row,
    {
        let dst_y: i128 = origin_y as i128 + previous_post_top + row as i128;
        let out_of_bounds = dst_x < 0 || dst_y < 0 || dst_x >= width_limit || dst_y
            >= height_limit;
        if !out_of_bounds {
            proof {
                assert(width_limit <= target_width);
                assert(height_limit <= target_height);
                lemma_target_index(dst_y as int, dst_x as int, w, target_height as int, original.len() as int);
            }
            let y = dst_y as usize;
            let x = dst_x as usize;
            assert((y as int) * w + (x as int) < total);
            let dst_index = y * target_width as usize + x;
            let value = patch_data[data_start + row];
            target_pixels[dst_index] = value;
            proof {
                assert forall|i: int| 0 <= i < original.len() implies target_pixels@[i] == {
                    let r = i / w - origin_y - previous_post_top;
                    if 0 <= dst_x < width_limit && i % w == dst_x && 0 <= r < row + 1 && i / w
                        < height_limit {
                        patch_data@[data_start + r]
                    } else {
                        original[i]
                    }
                } by {
                    if i != dst_index as int {
                        let r = i / w - origin_y - previous_post_top;
                        if 0 <= dst_x < width_limit && i % w == dst_x && r == row {
                            vstd::arithmetic::div_mod::lemma_fundamental_div_mod(i, w);
                            assert(i == (i / w) * w + i % w) by (nonlinear_arith)
                                requires
                                    i == w * (i / w) + i % w,
                            ;
                            assert(i / w == dst_y);
                            assert(i == dst_index as int);
                        }
                    }
                }
            }
        } else {
            proof {
                assert forall|i: int| 0 <= i < original.len() implies target_pixels@[i] == {
                    let r = i / w - origin_y - previous_post_top;
                    if 0 <= dst_x < width_limit && i % w == dst_x && 0 <= r < row + 1 && i / w
                        < height_limit {
                        patch_data@[data_start + r]
                    } else {
                        original[i]
                    }
                } by {
                    if 0 <= dst_x < width_limit && i % w == dst_x && i / w - origin_y
                        - previous_post_top == row {
                        assert(i / w == dst_y);
                        vstd::arithmetic::div_mod::lemma_div_pos_is_pos(i, w);
                    }
                }
            }
        }
        row = row + 1;
    }
    proof {
        assert(target_pixels@ =~= spec_blit_post(
            original,
            patch_data@,
            data_start as int,
            length as int,
            origin_x,
            origin_y,
            column as int,
            previous_post_top as int,
            target_width,
            target_height,
        ));
    }
}

proof fn lemma_blit_column_len(
    patch: Seq<u8>,
    post_offset: int,
    previous_top: int,
    origin_x: i16,
    origin_y: i16,
    column: int,
    target_width: u16,
    target_height: u16,
    target: Seq<u8>,
)
    ensures
        spec_blit_column_from(
            patch,
            post_offset,
            previous_top,
            origin_x,
            origin_y,
            column,
            target_width,
            target_height,
            target,
        ).len() == target.len(),
    decreases patch.len() + 1 - post_offset,
{
    if 0 <= post_offset < patch.len() && patch[post_offset] != 255 && post_offset + 3
        <= patch.len() {
        let top_delta = patch[post_offset] as int;
        let length = patch[post_offset + 1] as int;
        let data_start = post_offset + 3;
        let data_end = data_start + length;
        if data_end <= patch.len() {
            let top = if top_delta <= previous_top {
                previous_top + top_delta
            } else {
                top_delta
            };
            lemma_blit_column_len(
                patch,
                data_end + 1,
                top,
                origin_x,
                origin_y,
                column,
                target_width,
                target_height,
                spec_blit_post(
                    target,
                    patch,
                    data_start,
                    length,
                    origin_x,
                    origin_y,
                    column,
                    top,
                    target_width,
                    target_height,
                ),
            );
        }
    }
}

/// Draws the posts of one patch column; `false` when the column's offset
/// entry lies past the end of the patch, which ends the drawing.
pub fn blit_patch_column(params: BlitPatchColumnParams<'_>, target_pixels: &mut [u8]) -> (continue_reading: bool)
    requires
        old(target_pixels)@.len() >= params.target_width as int * params.target_height as int,
    ensures
        continue_reading == (8 + 4 * params.column + 4 <= params.patch_data@.len()),
        final(target_pixels)@ == if continue_reading {
            spec_blit_column_from(
                params.patch_data@,
                spec_u32_le(params.patch_data@, 8 + 4 * params.column) as int,
                -1,
                params.origin_x,
                params.origin_y,
                params.column as int,
                params.target_width,
                params.target_height,
                old(target_pixels)@,
            )
        } else {
            old(target_pixels)@
        },
{
    let BlitPatchColumnParams {
        patch_data,
        column,
        origin_x,
        origin_y,
        target_width,
        target_height,
    } = params;
    let ghost original = target_pixels@;
    let plen = patch_data.len();
    if plen < 12 || column > (plen - 12) / 4 {
        return false;
    }
    let offset_pos = 8 + column * 4;
    let start = read_u32_le(patch_data, offset_pos) as usize;
    let ghost patch = patch_data@;
    let mut post_offset: usize = start;
    let mut previous_post_top: i128 = -1;
    while post_offset < plen
        invariant_except_break
            -1 <= previous_post_top <= 255 * post_offset,
            spec_blit_column_from(
                patch,
                post_offset as int,
                previous_post_top as int,
                origin_x,
                origin_y,
                column as int,
                target_width,
                target_height,
                target_pixels@,
            ) == spec_blit_column_from(
                patch,
                start as int,
                -1,
                origin_x,
                origin_y,
                column as int,
                target_width,
                target_height,
                original,
            ),
        invariant
            plen == patch.len(),
            patch == patch_data@,
            target_pixels@.len() == original.len(),
            original.len() >= target_width as int * target_height as int,
        ensures
            target_pixels@ == spec_blit_column_from(
                patch,
                start as int,
                -1,
                origin_x,
                origin_y,
                column as int,
                target_width,
                target_height,
                original,
            ),
        decreases plen - post_offset,
    {
        let top_delta = patch_data[post_offset];
        if top_delta == 255 || plen - post_offset < 3 {
            break;
        }
        let length = patch_data[post_offset + 1] as usize;
        let data_start = post_offset + 3;
        if plen - data_start < length {
            break;
        }
        let data_end = data_start + length;
        let ghost old_target = target_pixels@;
        let top: i128 = if (top_delta as i128) <= previous_post_top {
            previous_post_top + top_delta as i128
        } else {
            top_delta as i128
        };
        blit_patch_post(
            BlitPatchPostParams {
                patch_data,
                data_start,
                length,
                origin_x,
                origin_y,
                column,
                previous_post_top: top,
                target_width,
                target_height,
            },
            target_pixels,
        );
        assert(spec_blit_column_from(
            patch,
            post_offset as int,
            previous_post_top as int,
            origin_x,
            origin_y,
            column as int,
            target_width,
            target_height,
            old_target,
        ) == spec_blit_column_from(
            patch,
            data_end + 1,
            top as int,
            origin_x,
            origin_y,
            column as int,
            target_width,
            target_height,
            target_pixels@,
        ));
        if data_end >= plen {
            break;
        }
        post_offset = data_end + 1;
        previous_post_top = top;
    }
    true
}

/// Draws a patch (picture format) into a `target_width` by `target_height`
/// texture at the given origin.  Patches too short for a header are ignored.
pub fn blit_patch(params: BlitPatchParams<'_>)
    requires
        old(params.target_pixels)@.len() >= params.target_width as int * params.target_height as int,
    ensures
        final(params.target_pixels)@ == spec_blit_patch(
            params.patch_data@,
            params.origin_x,
            params.origin_y,
            params.target_width,
            params.target_height,
            old(params.target_pixels)@,
        ),
{
    let BlitPatchParams {
        patch_data,
        origin_x,
        origin_y,
        target_width,
        target_height,
        target_pixels,
    } = params;
    let ghost original = target_pixels@;
    if patch_data.len() < 8 {
        return;
    }
    let patch_width = read_u16_le(patch_data, 0) as usize;
    let mut column: usize = 0;
    while column < patch_width
        invariant
            patch_data@.len() >= 8,
            patch_width == spec_u16_le(patch_data@, 0),
            column <= patch_width,
            target_pixels@.len() == original.len(),
            original.len() >= target_width as int * target_height as int,
            spec_blit_columns(
                patch_data@,
                column as int,
                patch_width as int,
                origin_x,
                origin_y,
                target_width,
                target_height,
                target_pixels@,
            ) == spec_blit_columns(
                patch_data@,
                0,
                patch_width as int,
                origin_x,
                origin_y,
                target_width,
                target_height,
                original,
            ),
        ensures
            target_pixels@ == spec_blit_columns(
                patch_data@,
                0,
                patch_width as int,
                origin_x,
                origin_y,
                target_width,
                target_height,
                original,
            ),
        decreases patch_width - column,
    {
        proof {
            lemma_blit_column_len(
                patch_data@,
                spec_u32_le(patch_data@, 8 + 4 * column) as int,
                -1,
                origin_x,
                origin_y,
                column as int,
                target_width,
                target_height,
                target_pixels@,
            );
        }
        let continue_reading = blit_patch_column(
            BlitPatchColumnParams {
                patch_data,
                column,
                origin_x,
                origin_y,
                target_width,
                target_height,
            },
            target_pixels,
        );
        if !continue_reading {
            break;
        }
        column = column + 1;
    }
}

/// `value`, raised to one when it is zero.
pub open spec fn at_least_one(value: u16) -> u16 {
    if value == 0 { 1 } else { value }
}

/// The texture pixels after drawing the first `k` patches of `def` over
/// `base`: a patch whose lump is absent is skipped, and `None` means a
/// patch lump could not be read.
pub open spec fn spec_apply_patches(
    wad: Seq<u8>,
    lumps: Seq<LumpInfoView>,
    def: TextureDefView,
    k: nat,
    base: Seq<u8>,
) -> Option<Seq<u8>>
    decreases k,
{
    if k == 0 {
        Some(base)
    } else {
        match spec_apply_patches(wad, lumps, def, (k - 1) as nat, base) {
            None => None,
            Some(pixels) => {
                let patch = def.patches[k - 1];
                match spec_find_lump(lumps, patch.patch_name) {
                    None => Some(pixels),
                    Some(i) => match spec_lump_bytes(wad, lumps[i]) {
                        None => None,
                        Some(bytes) => Some(
                            spec_blit_patch(
                                bytes,
                                patch.origin_x,
                                patch.origin_y,
                                def.width,
                                def.height,
                                pixels,
                            ),
                        ),
                    },
                }
            },
        }
    }
}

/// The composed pixels of a texture: its patches drawn in order over a
/// zeroed canvas whose sides are at least one.
pub open spec fn spec_texture_pixels(
    wad: Seq<u8>,
    lumps: Seq<LumpInfoView>,
    def: TextureDefView,
) -> Option<Seq<u8>> {
    spec_apply_patches(
        wad,
        lumps,
        def,
        def.patches.len(),
        Seq::new(
            (at_least_one(def.width) as nat) * (at_least_one(def.height) as nat),
            |i: int| 0u8,
        ),
    )
}

/// The composed textures, in definition order; `None` when a patch lump
/// cannot be read.
pub open spec fn spec_compose_textures(
    wad: Seq<u8>,
    lumps: Seq<LumpInfoView>,
    defs: Seq<TextureDefView>,
) -> Option<Seq<MapTextureView>>
    decreases defs.len(),
{
    if defs.len() == 0 {
        Some(Seq::empty())
    } else {
        match spec_compose_textures(wad, lumps, defs.drop_last()) {
            None => None,
            Some(prev) => {
                let def = defs.last();
                match spec_texture_pixels(wad, lumps, def) {
                    None => None,
                    Some(pixels) => Some(
                        prev.push(
                            MapTextureView {
                                name: def.name,
                                width: at_least_one(def.width),
                                height: at_least_one(def.height),
                                pixels,
                            },
                        ),
                    ),
                }
            },
        }
    }
}

pub struct ApplyTexturePatchesParams<'a> {
    pub data: &'a [u8],
    pub lumps: &'a [LumpInfo],
    pub texture_definition: &'a TextureDef,
    pub target_pixels: &'a mut [u8],
}

proof fn lemma_apply_patches_len(
    wad: Seq<u8>,
    lumps: Seq<LumpInfoView>,
    def: TextureDefView,
    k: nat,
    base: Seq<u8>,
)
    requires
        k <= def.patches.len(),
    ensures
        spec_apply_patches(wad, lumps, def, k, base) matches Some(p) ==> p.len() == base.len(),
    decreases k,
{
    if k > 0 {
        lemma_apply_patches_len(wad, lumps, def, (k - 1) as nat, base);
        if let Some(pixels) = spec_apply_patches(wad, lumps, def, (k - 1) as nat, base) {
            let patch = def.patches[k - 1];
            if let Some(i) = spec_find_lump(lumps, patch.patch_name) {
                if let Some(bytes) = spec_lump_bytes(wad, lumps[i]) {
                    law_blit_preserves_size(
                        bytes,
                        patch.origin_x,
                        patch.origin_y,
                        def.width,
                        def.height,
                        pixels,
                    );
                }
            }
        }
    }
}

proof fn lemma_blit_columns_len(
    patch: Seq<u8>,
    column: int,
    width: int,
    origin_x: i16,
    origin_y: i16,
    target_width: u16,
    target_height: u16,
    target: Seq<u8>,
)
    ensures
        spec_blit_columns(
            patch,
            column,
            width,
            origin_x,
            origin_y,
            target_width,
            target_height,
            target,
        ).len() == target.len(),
    decreases width - column,
{
    if column < width && column >= 0 && 8 + 4 * column + 4 <= patch.len() {
        let next = spec_blit_column_from(
            patch,
            spec_u32_le(patch, 8 + 4 * column) as int,
            -1,
            origin_x,
            origin_y,
            column,
            target_width,
            target_height,
            target,
        );
        lemma_blit_column_len(
            patch,
            spec_u32_le(patch, 8 + 4 * column) as int,
            -1,
            origin_x,
            origin_y,
            column,
            target_width,
            target_height,
            target,
        );
        lemma_blit_columns_len(
            patch,
            column + 1,
            width,
            origin_x,
            origin_y,
            target_width,
            target_height,
            next,
        );
    }
}

/// Drawing a patch never changes the size of the texture it is drawn on.
pub proof fn law_blit_preserves_size(
    patch: Seq<u8>,
    origin_x: i16,
    origin_y: i16,
    target_width: u16,
    target_height: u16,
    target: Seq<u8>,
)
    ensures
        spec_blit_patch(patch, origin_x, origin_y, target_width, target_height, target).len()
            == target.len(),
{
    if patch.len() >= 8 {
        lemma_blit_columns_len(
            patch,
            0,
            spec_u16_le(patch, 0) as int,
            origin_x,
            origin_y,
            target_width,
            target_height,
            target,
        );
    }
}

proof fn lemma_apply_patches_none(
    wad: Seq<u8>,
    lumps: Seq<LumpInfoView>,
    def: TextureDefView,
    k: nat,
    m: nat,
    base: Seq<u8>,
)
    requires
        k <= m,
        spec_apply_patches(wad, lumps, def, k, base) is None,
    ensures
        spec_apply_patches(wad, lumps, def, m, base) is None,
    decreases m - k,
{
    if k < m {
        lemma_apply_patches_none(wad, lumps, def, k, (m - 1) as nat, base);
    }
}

/// Draws every patch of a texture definition whose lump is present.
pub fn apply_texture_patches(params: ApplyTexturePatchesParams<'_>) -> (result: Result<(), WadError>)
    requires
        old(params.target_pixels)@.len() >= params.texture_definition.width as int
            * params.texture_definition.height as int,
    ensures
        match spec_apply_patches(
            params.data@,
            lump_views(params.lumps@),
            params.texture_definition@,
            params.texture_definition@.patches.len(),
            old(params.target_pixels)@,
        ) {
            Some(p) => result is Ok && final(params.target_pixels)@ == p,
            None => result == Err::<(), WadError>(WadError::InvalidLumpData),
        },
{
    let ApplyTexturePatchesParams { data, lumps, texture_definition, target_pixels } = params;
    let ghost original = target_pixels@;
    let ghost views = lump_views(lumps@);
    let ghost def = texture_definition@;
    let patch_count = texture_definition.patches.len();
    let mut k: usize = 0;
    while k < patch_count
        invariant
            patch_count == texture_definition.patches@.len(),
            def == texture_definition@,
            views == lump_views(lumps@),
            k <= patch_count,
            params.data@ == data@,
            params.lumps@ == lumps@,
            params.texture_definition == texture_definition,
            original == old(params.target_pixels)@,
            target_pixels@.len() == original.len(),
            original.len() >= texture_definition.width as int * texture_definition.height as int,
            spec_apply_patches(data@, views, def, k as nat, original) == Some(target_pixels@),
        decreases patch_count - k,
    {
        let patch = &texture_definition.patches[k];
        assert(def.patches[k as int] == patch@);
        let found = find_lump_index(lumps, patch.patch_name.as_str());
        match found {
            None => {},
            Some(lump_index) => {
                let read = read_lump_data(ReadLumpDataParams { data, lump: &lumps[lump_index] });
                match read {
                    Err(e) => {
                        proof {
                            assert(views[lump_index as int] == lumps@[lump_index as int]@);
                            assert(spec_apply_patches(data@, views, def, (k + 1) as nat, original)
                                is None);
                            lemma_apply_patches_none(
                                data@,
                                views,
                                def,
                                (k + 1) as nat,
                                patch_count as nat,
                                original,
                            );
                        }
                        return Err(e);
                    },
                    Ok(patch_data) => {
                        proof {
                            assert(views[lump_index as int] == lumps@[lump_index as int]@);
                            law_blit_preserves_size(
                                patch_data@,
                                patch.origin_x,
                                patch.origin_y,
                                texture_definition.width,
                                texture_definition.height,
                                target_pixels@,
                            );
                        }
                        let ghost before = target_pixels@;
                        blit_patch(
                            BlitPatchParams {
                                patch_data: patch_data.as_slice(),
                                origin_x: patch.origin_x,
                                origin_y: patch.origin_y,
                                target_width: texture_definition.width,
                                target_height: texture_definition.height,
                                target_pixels: &mut *target_pixels,
                            },
                        );
                        assert(target_pixels@ == spec_blit_patch(
                            patch_data@,
                            patch.origin_x,
                            patch.origin_y,
                            texture_definition.width,
                            texture_definition.height,
                            before,
                        ));
                        assert(spec_find_lump(views, def.patches[k as int].patch_name) == Some(lump_index as int));
                        assert(spec_lump_bytes(data@, views[lump_index as int]) == Some(patch_data@));
                        assert(spec_apply_patches(data@, views, def, k as nat, original) == Some(before));
                        assert(spec_apply_patches(data@, views, def, (k + 1) as nat, original)
                            == Some(target_pixels@));
                    },
                }
            },
        }
        k = k + 1;
    }
    Ok(())
}

/// A vector of `len` zero bytes.
pub fn zeroed_pixels(len: usize) -> (pixels: Vec<u8>)
    ensures
        pixels@ == Seq::new(len as nat, |i: int| 0u8),
{
    let mut pixels: Vec<u8> = Vec::new();
    let mut k: usize = 0;
    while k < len
        invariant
            k <= len,
            pixels@ =~= Seq::new(k as nat, |i: int| 0u8),
        decreases len - k,
    {
        pixels.push(0);
        k = k + 1;
    }
    pixels
}

pub struct ComposeTexturesParams<'a> {
    pub data: &'a [u8],
    pub lumps: &'a [LumpInfo],
    pub texture_defs: &'a [TextureDef],
}

proof fn lemma_compose_none(
    wad: Seq<u8>,
    lumps: Seq<LumpInfoView>,
    defs: Seq<TextureDefView>,
    k: int,
)
    requires
        0 <= k <= defs.len(),
        spec_compose_textures(wad, lumps, defs.take(k)) is None,
    ensures
        spec_compose_textures(wad, lumps, defs) is None,
    decreases defs.len() - k,
{
    if k < defs.len() {
        assert(defs.take(k + 1).drop_last() =~= defs.take(k));
        lemma_compose_none(wad, lumps, defs, k + 1);
    } else {
        assert(defs.take(k) =~= defs);
    }
}

/// Composes every texture definition from its patches.
pub fn compose_textures(params: ComposeTexturesParams<'_>) -> (textures: Result<Vec<MapTexture>, WadError>)
    ensures
        match spec_compose_textures(
            params.data@,
            lump_views(params.lumps@),
            texture_def_views(params.texture_defs@),
        ) {
            Some(t) => textures matches Ok(v) && map_texture_views(v@) == t,
            None => textures == Err::<Vec<MapTexture>, WadError>(WadError::InvalidLumpData),
        },
{
    let ComposeTexturesParams { data, lumps, texture_defs } = params;
    let ghost views = lump_views(lumps@);
    let ghost defs = texture_def_views(texture_defs@);
    let mut textures: Vec<MapTexture> = Vec::new();
    let mut k: usize = 0;
    while k < texture_defs.len()
        invariant
            k <= texture_defs@.len(),
            params.data@ == data@,
            params.lumps@ == lumps@,
            params.texture_defs@ == texture_defs@,
            views == lump_views(lumps@),
            defs == texture_def_views(texture_defs@),
            spec_compose_textures(data@, views, defs.take(k as int)) == Some(
                map_texture_views(textures@),
            ),
        decreases texture_defs@.len() - k,
    {
        let texture_definition = &texture_defs[k];
        assert(defs[k as int] == texture_definition@);
        assert(defs.take(k + 1).drop_last() =~= defs.take(k as int));
        let width: usize = if texture_definition.width == 0 { 1 } else { texture_definition.width as usize };
        let height: usize = if texture_definition.height == 0 { 1 } else { texture_definition.height as usize };
        assert(width * height <= 0xffff * 0xffff) by (nonlinear_arith)
            requires
                1 <= width <= 0xffff,
                1 <= height <= 0xffff,
        ;
        assert(width * height >= texture_definition.width as int * texture_definition.height as int)
            by (nonlinear_arith)
            requires
                width >= texture_definition.width as int,
                height >= texture_definition.height as int,
                texture_definition.width >= 0,
                texture_definition.height >= 0,
        ;
        let mut pixels = zeroed_pixels(width * height);
        let applied = apply_texture_patches(
            ApplyTexturePatchesParams {
                data,
                lumps,
                texture_definition,
                target_pixels: pixels.as_mut_slice(),
            },
        );
        match applied {
            Err(e) => {
                proof {
                    lemma_compose_none(data@, views, defs, k + 1);
                }
                return Err(e);
            },
            Ok(()) => {},
        }
        let texture = MapTexture::with_pixels(
            MapTextureWithPixelsParams {
                name: texture_definition.name.clone(),
                width: texture_definition.width,
                height: texture_definition.height,
                pixels,
            },
        );
        let ghost prev = textures@;
        textures.push(texture);
        assert(map_texture_views(textures@) =~= map_texture_views(prev).push(texture@));
        k = k + 1;
    }
    assert(defs.take(k as int) =~= defs);
    Ok(textures)
}

/// The names of the flats the sectors use: floor and ceiling names that are
/// neither empty nor the `-` placeholder.
pub open spec fn spec_flat_name_set(sectors: Seq<SectorView>) -> Set<Seq<char>> {
    Set::new(
        |n: Seq<char>|
            spec_is_valid_flat_name(n) && exists|i: int|
                0 <= i < sectors.len() && (sectors[i].floor_texture == n
                    || sectors[i].ceiling_texture == n),
    )
}

/// The flat names of the sectors in increasing byte order, each once.
pub open spec fn spec_sorted_flat_names(sectors: Seq<SectorView>) -> Seq<Seq<char>> {
    choose|s: Seq<Seq<char>>|
        strictly_increasing(s) && s.to_set() == spec_flat_name_set(sectors)
}

/// Lists the flat names of the sectors in increasing order without repeats.
pub fn flat_names(sectors: &[Sector]) -> (names: Vec<String>)
    ensures
        strictly_increasing(string_views(names@)),
        string_views(names@).to_set() == spec_flat_name_set(sector_views(sectors@)),
        string_views(names@) == spec_sorted_flat_names(sector_views(sectors@)),
{
    let ghost views = sector_views(sectors@);
    let mut names: Vec<String> = Vec::new();
    assert(string_views(names@).to_set() =~= spec_flat_name_set(views.take(0)));
    let mut k: usize = 0;
    while k < sectors.len()
        invariant
            k <= sectors@.len(),
            views == sector_views(sectors@),
            strictly_increasing(string_views(names@)),
            string_views(names@).to_set() == spec_flat_name_set(views.take(k as int)),
        decreases sectors@.len() - k,
    {
        let sector = &sectors[k];
        assert(views[k as int] == sector@);
        let ghost before = string_views(names@).to_set();
        if is_valid_flat_name(sector.floor_texture.as_str()) {
            insert_sorted_unique(&mut names, sector.floor_texture.clone());
        }
        if is_valid_flat_name(sector.ceiling_texture.as_str()) {
            insert_sorted_unique(&mut names, sector.ceiling_texture.clone());
        }
        proof {
            let t0 = views.take(k as int);
            let t1 = views.take(k + 1);
            let prev_set = spec_flat_name_set(t0);
            let next_set = spec_flat_name_set(t1);
            let now = string_views(names@).to_set();
            assert(t1[k as int] == sector@);
            assert forall|n: Seq<char>| now.contains(n) implies next_set.contains(n) by {
                if prev_set.contains(n) {
                    let i = choose|i: int|
                        0 <= i < t0.len() && (#[trigger] t0[i].floor_texture == n
                            || t0[i].ceiling_texture == n);
                    assert(t1[i] == t0[i]);
                }
            }
            assert forall|n: Seq<char>| next_set.contains(n) implies now.contains(n) by {
                let i = choose|i: int|
                    0 <= i < t1.len() && (#[trigger] t1[i].floor_texture == n
                        || t1[i].ceiling_texture == n);
                if i < k {
                    assert(t0[i] == t1[i]);
                    assert(prev_set.contains(n));
                }
            }
            assert(now =~= next_set);
        }
        k = k + 1;
    }
    assert(views.take(k as int) =~= views);
    proof {
        let s = string_views(names@);
        assert(strictly_increasing(s) && s.to_set() == spec_flat_name_set(views));
        let c = spec_sorted_flat_names(views);
        crate::wad::names::lemma_increasing_listing_unique(s, c);
    }
    names
}

pub const FLAT_LUMP_SIZE: usize = 4096;

/// The flats read for `names`, in order: a name without a lump, or whose
/// lump holds fewer than 4096 bytes, is skipped; `None` when a lump cannot
/// be read.
pub open spec fn spec_flats(
    wad: Seq<u8>,
    lumps: Seq<LumpInfoView>,
    names: Seq<Seq<char>>,
) -> Option<Seq<FlatTextureView>>
    decreases names.len(),
{
    if names.len() == 0 {
        Some(Seq::empty())
    } else {
        match spec_flats(wad, lumps, names.drop_last()) {
            None => None,
            Some(prev) => {
                let name = names.last();
                match spec_find_lump(lumps, name) {
                    None => Some(prev),
                    Some(i) => match spec_lump_bytes(wad, lumps[i]) {
                        None => None,
                        Some(bytes) => if bytes.len() < 4096 {
                            Some(prev)
                        } else {
                            Some(prev.push(FlatTextureView { name, pixels: bytes.take(4096) }))
                        },
                    },
                }
            },
        }
    }
}

proof fn lemma_flats_none(
    wad: Seq<u8>,
    lumps: Seq<LumpInfoView>,
    names: Seq<Seq<char>>,
    k: int,
)
    requires
        0 <= k <= names.len(),
        spec_flats(wad, lumps, names.take(k)) is None,
    ensures
        spec_flats(wad, lumps, names) is None,
    decreases names.len() - k,
{
    if k < names.len() {
        assert(names.take(k + 1).drop_last() =~= names.take(k));
        lemma_flats_none(wad, lumps, names, k + 1);
    } else {
        assert(names.take(k) =~= names);
    }
}

pub struct LoadFlatsParams<'a> {
    pub data: &'a [u8],
    pub lumps: &'a [LumpInfo],
    pub sectors: &'a [Sector],
}

/// Loads the flats the sectors name, in increasing name order.
pub fn load_flats(params: LoadFlatsParams<'_>) -> (flats: Result<Vec<FlatTexture>, WadError>)
    ensures
        match spec_flats(
            params.data@,
            lump_views(params.lumps@),
            spec_sorted_flat_names(sector_views(params.sectors@)),
        ) {
            Some(f) => flats matches Ok(v) && flat_views(v@) == f,
            None => flats == Err::<Vec<FlatTexture>, WadError>(WadError::InvalidLumpData),
        },
{
    let LoadFlatsParams { data, lumps, sectors } = params;
    let names = flat_names(sectors);
    let ghost order = string_views(names@);
    let ghost views = lump_views(lumps@);
    let mut flats: Vec<FlatTexture> = Vec::new();
    let mut k: usize = 0;
    while k < names.len()
        invariant
            k <= names@.len(),
            params.data@ == data@,
            params.lumps@ == lumps@,
            order == string_views(names@),
            order == spec_sorted_flat_names(sector_views(params.sectors@)),
            views == lump_views(lumps@),
            spec_flats(data@, views, order.take(k as int)) == Some(flat_views(flats@)),
        decreases names@.len() - k,
    {
        let name = &names[k];
        assert(order[k as int] == name@);
        assert(order.take(k + 1).drop_last() =~= order.take(k as int));
        match find_lump_index(lumps, name.as_str()) {
            None => {},
            Some(lump_index) => {
                assert(views[lump_index as int] == lumps@[lump_index as int]@);
                match read_lump_data(ReadLumpDataParams { data, lump: &lumps[lump_index] }) {
                    Err(e) => {
                        proof {
                            lemma_flats_none(data@, views, order, k + 1);
                        }
                        return Err(e);
                    },
                    Ok(bytes) => {
                        if bytes.len() >= FLAT_LUMP_SIZE {
                            let flat = FlatTexture::with_pixels(
                                FlatTextureWithPixelsParams {
                                    name: name.clone(),
                                    pixels: copy_bytes(&bytes.as_slice()[0..FLAT_LUMP_SIZE]),
                                },
                            );
                            let ghost prev = flats@;
                            flats.push(flat);
                            assert(flat_views(flats@) =~= flat_views(prev).push(flat@));
                        }
                    },
                }
            },
        }
        k = k + 1;
    }
    assert(order.take(k as int) =~= order);
    Ok(flats)
}

pub struct ReadAndParseLumpParams<'a, F> {
    pub data: &'a [u8],
    pub lump: &'a LumpInfo,
    pub parse_fn: F,
}

/// Reads a lump and decodes it with `parse_fn`.
pub fn read_and_parse_lump<T, F>(params: ReadAndParseLumpParams<'_, F>) -> (parsed: Result<T, WadError>)
    where
        F: FnOnce(&[u8]) -> T,
    requires
        forall|bytes: &[u8]| call_requires(params.parse_fn, (bytes,)),
    ensures
        match spec_lump_bytes(params.data@, params.lump@) {
            Some(b) => parsed matches Ok(v) && exists|bytes: &[u8]|
                bytes@ == b && call_ensures(params.parse_fn, (bytes,), v),
            None => parsed is Err && parsed->Err_0 == WadError::InvalidLumpData,
        },
{
    let ReadAndParseLumpParams { data, lump, parse_fn } = params;
    let lump_data = read_lump_data(ReadLumpDataParams { data, lump })?;
    let bytes = lump_data.as_slice();
    let value = parse_fn(bytes);
    Ok(value)
}

pub const PNAMES_LUMP_NAME: &'static str = "PNAMES";
pub const TEXTURE1_LUMP_NAME: &'static str = "TEXTURE1";
pub const PLAYPAL_LUMP_NAME: &'static str = "PLAYPAL";
pub const VERTEXES_LUMP_NAME: &'static str = "VERTEXES";
pub const THINGS_LUMP_NAME: &'static str = "THINGS";
pub const LINEDEFS_LUMP_NAME: &'static str = "LINEDEFS";
pub const SIDEDEFS_LUMP_NAME: &'static str = "SIDEDEFS";
pub const SEGS_LUMP_NAME: &'static str = "SEGS";
pub const SECTORS_LUMP_NAME: &'static str = "SECTORS";
pub const THING_LUMP_OFFSET: usize = 1;
pub const LINEDEF_LUMP_OFFSET: usize = 2;
pub const SIDEDEF_LUMP_OFFSET: usize = 3;
pub const VERTEX_LUMP_OFFSET: usize = 4;
pub const SEG_LUMP_OFFSET: usize = 5;
pub const SECTOR_LUMP_OFFSET: usize = 8;

/// The lump `offset` entries after the map marker exists and is called `name`.
pub open spec fn spec_has_map_lump(
    lumps: Seq<LumpInfoView>,
    map_index: int,
    offset: int,
    name: Seq<char>,
) -> bool {
    map_index + offset < lumps.len() && lumps[map_index + offset].name == name
}

/// The lumps of a map must follow its marker in the usual order; the first
/// one that does not is reported.
pub open spec fn spec_map_lumps_error(lumps: Seq<LumpInfoView>, map_index: int) -> Option<
    WadError,
> {
    if !spec_has_map_lump(lumps, map_index, 4, VERTEXES_LUMP_NAME@) {
        Some(WadError::VertexLumpMissing)
    } else if !spec_has_map_lump(lumps, map_index, 1, THINGS_LUMP_NAME@) {
        Some(WadError::ThingLumpMissing)
    } else if !spec_has_map_lump(lumps, map_index, 2, LINEDEFS_LUMP_NAME@) {
        Some(WadError::LinedefLumpMissing)
    } else if !spec_has_map_lump(lumps, map_index, 3, SIDEDEFS_LUMP_NAME@) {
        Some(WadError::SidedefLumpMissing)
    } else if !spec_has_map_lump(lumps, map_index, 5, SEGS_LUMP_NAME@) {
        Some(WadError::SegLumpMissing)
    } else if !spec_has_map_lump(lumps, map_index, 8, SECTORS_LUMP_NAME@) {
        Some(WadError::SectorLumpMissing)
    } else {
        None
    }
}

/// The map called `map_name` in the WAD file contents `wad`, or the first
/// problem met while loading it.
pub open spec fn spec_load_map_data(wad: Seq<u8>, map_name: Seq<char>) -> Result<
    MapDataView,
    WadError,
> {
    match spec_wad_header(wad) {
        Err(e) => Err(e),
        Ok(header) => match spec_directory(wad, header) {
            Err(e) => Err(e),
            Ok(lumps) => match spec_find_lump(lumps, map_name) {
                None => Err(WadError::MapNotFound),
                Some(m) => {
                    let pnames = spec_find_lump(lumps, PNAMES_LUMP_NAME@);
                    let texture1 = spec_find_lump(lumps, TEXTURE1_LUMP_NAME@);
                    let playpal = spec_find_lump(lumps, PLAYPAL_LUMP_NAME@);
                    if pnames is None {
                        Err(WadError::PnamesLumpMissing)
                    } else if texture1 is None {
                        Err(WadError::Texture1LumpMissing)
                    } else if playpal is None {
                        Err(WadError::PlaypalLumpMissing)
                    } else if spec_map_lumps_error(lumps, m) is Some {
                        Err(spec_map_lumps_error(lumps, m)->Some_0)
                    } else {
                        let vertex_bytes = spec_lump_bytes(wad, lumps[m + 4]);
                        let thing_bytes = spec_lump_bytes(wad, lumps[m + 1]);
                        let linedef_bytes = spec_lump_bytes(wad, lumps[m + 2]);
                        let sidedef_bytes = spec_lump_bytes(wad, lumps[m + 3]);
                        let seg_bytes = spec_lump_bytes(wad, lumps[m + 5]);
                        let sector_bytes = spec_lump_bytes(wad, lumps[m + 8]);
                        let playpal_bytes = spec_lump_bytes(wad, lumps[playpal->Some_0]);
                        let pnames_bytes = spec_lump_bytes(wad, lumps[pnames->Some_0]);
                        let texture1_bytes = spec_lump_bytes(wad, lumps[texture1->Some_0]);
                        if vertex_bytes is None || thing_bytes is None || linedef_bytes is None
                            || sidedef_bytes is None || seg_bytes is None || sector_bytes is None
                            || playpal_bytes is None || pnames_bytes is None || texture1_bytes is None {
                            Err(WadError::InvalidLumpData)
                        } else {
                            let sectors = spec_parse_sectors(sector_bytes->Some_0);
                            let lines = spec_parse_linedefs(linedef_bytes->Some_0);
                            let defs = spec_texture_defs(
                                texture1_bytes->Some_0,
                                spec_pnames(pnames_bytes->Some_0),
                            );
                            let textures = spec_compose_textures(wad, lumps, defs);
                            let flats = spec_flats(wad, lumps, spec_sorted_flat_names(sectors));
                            if textures is None || flats is None {
                                Err(WadError::InvalidLumpData)
                            } else {
                                Ok(
                                    MapDataView {
                                        vertexes: spec_parse_vertexes(vertex_bytes->Some_0),
                                        lines,
                                        sidedefs: spec_parse_sidedefs(sidedef_bytes->Some_0),
                                        sectors,
                                        palette: spec_parse_playpal(playpal_bytes->Some_0),
                                        textures: textures->Some_0,
                                        flats: flats->Some_0,
                                        things: spec_parse_things(thing_bytes->Some_0),
                                        bsp_line_indices: spec_bsp_line_indices(
                                            spec_parse_segs(seg_bytes->Some_0),
                                            lines.len() as int,
                                        ),
                                    },
                                )
                            }
                        }
                    }
                },
            },
        },
    }
}

pub struct LoadMapParams<'a> {
    pub data: &'a [u8],
    pub map_name: &'a str,
}

/// Loads the map called `map_name` from the WAD file contents `data`:
/// geometry, things, palette, composed textures, flats and the order in
/// which the segs reach the linedefs.
#[verifier::rlimit(50)]
pub fn load_map_data(params: LoadMapParams<'_>) -> (map: Result<MapData, WadError>)
    ensures
        match spec_load_map_data(params.data@, params.map_name@) {
            Ok(v) => map matches Ok(m) && m@ == v,
            Err(e) => map matches Err(f) && f == e,
        },
{
    let LoadMapParams { data, map_name } = params;
    let header = validate_wad(data)?;
    let lumps = read_directory(ReadDirectoryParams { data, header: &header })?;
    let ghost views = lump_views(lumps@);
    let map_index = match find_lump_index(lumps.as_slice(), map_name) {
        Some(i) => i,
        None => return Err(WadError::MapNotFound),
    };
    let pnames_index = match find_lump_index(lumps.as_slice(), PNAMES_LUMP_NAME) {
        Some(i) => i,
        None => return Err(WadError::PnamesLumpMissing),
    };
    let texture1_index = match find_lump_index(lumps.as_slice(), TEXTURE1_LUMP_NAME) {
        Some(i) => i,
        None => return Err(WadError::Texture1LumpMissing),
    };
    let playpal_index = match find_lump_index(lumps.as_slice(), PLAYPAL_LUMP_NAME) {
        Some(i) => i,
        None => return Err(WadError::PlaypalLumpMissing),
    };
    assert(lumps@.len() <= 0x7fff_ffff);
    let vertex_lump = required_map_lump(
        RequiredMapLumpParams {
            lumps: lumps.as_slice(),
            map_index,
            offset: VERTEX_LUMP_OFFSET,
            expected_name: VERTEXES_LUMP_NAME,
            error: WadError::VertexLumpMissing,
        },
    )?;
    let thing_lump = required_map_lump(
        RequiredMapLumpParams {
            lumps: lumps.as_slice(),
            map_index,
            offset: THING_LUMP_OFFSET,
            expected_name: THINGS_LUMP_NAME,
            error: WadError::ThingLumpMissing,
        },
    )?;
    let linedef_lump = required_map_lump(
        RequiredMapLumpParams {
            lumps: lumps.as_slice(),
            map_index,
            offset: LINEDEF_LUMP_OFFSET,
            expected_name: LINEDEFS_LUMP_NAME,
            error: WadError::LinedefLumpMissing,
        },
    )?;
    let sidedef_lump = required_map_lump(
        RequiredMapLumpParams {
            lumps: lumps.as_slice(),
            map_index,
            offset: SIDEDEF_LUMP_OFFSET,
            expected_name: SIDEDEFS_LUMP_NAME,
            error: WadError::SidedefLumpMissing,
        },
    )?;
    let seg_lump = required_map_lump(
        RequiredMapLumpParams {
            lumps: lumps.as_slice(),
            map_index,
            offset: SEG_LUMP_OFFSET,
            expected_name: SEGS_LUMP_NAME,
            error: WadError::SegLumpMissing,
        },
    )?;
    let sector_lump = required_map_lump(
        RequiredMapLumpParams {
            lumps: lumps.as_slice(),
            map_index,
            offset: SECTOR_LUMP_OFFSET,
            expected_name: SECTORS_LUMP_NAME,
            error: WadError::SectorLumpMissing,
        },
    )?;
    proof {
        assert(views[map_index + 4] == vertex_lump@);
        assert(views[map_index + 1] == thing_lump@);
        assert(views[map_index + 2] == linedef_lump@);
        assert(views[map_index + 3] == sidedef_lump@);
        assert(views[map_index + 5] == seg_lump@);
        assert(views[map_index + 8] == sector_lump@);
        assert(views[pnames_index as int] == lumps@[pnames_index as int]@);
        assert(views[texture1_index as int] == lumps@[texture1_index as int]@);
        assert(views[playpal_index as int] == lumps@[playpal_index as int]@);
    }
    let vertexes = read_and_parse_lump(
        ReadAndParseLumpParams { data, lump: vertex_lump, parse_fn: parse_vertexes },
    )?;
    let things = read_and_parse_lump(
        ReadAndParseLumpParams { data, lump: thing_lump, parse_fn: parse_things },
    )?;
    let lines = read_and_parse_lump(
        ReadAndParseLumpParams { data, lump: linedef_lump, parse_fn: parse_linedefs },
    )?;
    let sidedefs = read_and_parse_lump(
        ReadAndParseLumpParams { data, lump: sidedef_lump, parse_fn: parse_sidedefs },
    )?;
    let segments = read_and_parse_lump(
        ReadAndParseLumpParams { data, lump: seg_lump, parse_fn: parse_segs },
    )?;
    let sectors = read_and_parse_lump(
        ReadAndParseLumpParams { data, lump: sector_lump, parse_fn: parse_sectors },
    )?;
    let palette = read_and_parse_lump(
        ReadAndParseLumpParams { data, lump: &lumps[playpal_index], parse_fn: parse_playpal },
    )?;
    let patch_names = read_and_parse_lump(
        ReadAndParseLumpParams { data, lump: &lumps[pnames_index], parse_fn: parse_pnames },
    )?;
    let texture1_data = read_lump_data(ReadLumpDataParams { data, lump: &lumps[texture1_index] })?;
    let texture_defs = parse_texture_defs(texture1_data.as_slice(), patch_names.as_slice());
    let textures = compose_textures(
        ComposeTexturesParams {
            data,
            lumps: lumps.as_slice(),
            texture_defs: texture_defs.as_slice(),
        },
    )?;
    let flats = load_flats(
        LoadFlatsParams { data, lumps: lumps.as_slice(), sectors: sectors.as_slice() },
    )?;
    let bsp_line_indices = collect_bsp_line_indices(
        CollectBspLineIndicesParams { segments: segments.as_slice(), line_count: lines.len() },
    );
    Ok(
        MapData {
            vertexes,
            lines,
            sidedefs,
            sectors,
            palette,
            textures,
            flats,
            things,
            bsp_line_indices,
        },
    )
}

} // verus!

verus! {

/// Every composed texture is named after its definition, is as wide and
/// tall as the definition (raised to at least one) and holds exactly
/// width x height pixels.
pub proof fn law_composed_textures_are_sized(
    wad: Seq<u8>,
    lumps: Seq<LumpInfoView>,
    defs: Seq<TextureDefView>,
)
    ensures
        spec_compose_textures(wad, lumps, defs) matches Some(textures) ==> {
            &&& textures.len() == defs.len()
            &&& forall|i: int|
                #![trigger textures[i]]
                0 <= i < textures.len() ==> {
                    &&& textures[i].width == at_least_one(defs[i].width)
                    &&& textures[i].height == at_least_one(defs[i].height)
                    &&& textures[i].width >= 1
                    &&& textures[i].height >= 1
                    &&& textures[i].pixels.len() == textures[i].width * textures[i].height
                    &&& textures[i].name == defs[i].name
                }
        },
    decreases defs.len(),
{
    if defs.len() > 0 {
        law_composed_textures_are_sized(wad, lumps, defs.drop_last());
        let def = defs.last();
        lemma_apply_patches_len(
            wad,
            lumps,
            def,
            def.patches.len(),
            Seq::new(
                (at_least_one(def.width) as nat) * (at_least_one(def.height) as nat),
                |i: int| 0u8,
            ),
        );
    }
}

} // verus!

verus! {

/// Every loaded flat holds exactly 4096 pixels, and the flats come in the
/// order of the names they were read for.
pub proof fn law_flats_are_full_size(
    wad: Seq<u8>,
    lumps: Seq<LumpInfoView>,
    names: Seq<Seq<char>>,
)
    ensures
        spec_flats(wad, lumps, names) matches Some(flats) ==> {
            &&& flats.len() <= names.len()
            &&& forall|i: int|
                #![trigger flats[i]]
                0 <= i < flats.len() ==> flats[i].pixels.len() == FLAT_LUMP_SIZE && names.contains(
                    flats[i].name,
                )
        },
    decreases names.len(),
{
    if names.len() > 0 {
        let rest = names.drop_last();
        law_flats_are_full_size(wad, lumps, rest);
        if let Some(flats) = spec_flats(wad, lumps, names) {
            assert forall|i: int| #![trigger flats[i]] 0 <= i < flats.len() implies flats[i].pixels.len()
                == FLAT_LUMP_SIZE && names.contains(flats[i].name) by {
                let prev = spec_flats(wad, lumps, rest)->Some_0;
                if i < prev.len() {
                    assert(flats[i] == prev[i]);
                    let w = choose|w: int| 0 <= w < rest.len() && rest[w] == prev[i].name;
                    assert(names[w] == rest[w]);
                } else {
                    assert(names[names.len() - 1] == flats[i].name);
                }
            }
        }
    }
}

} // verus!

verus! {

/// `after` differs from `before` only inside the first `width * height`
/// bytes, and only with bytes taken from `patch`.
pub open spec fn spec_drawn_from(before: Seq<u8>, after: Seq<u8>, patch: Seq<u8>, width: u16, height: u16) -> bool {
    &&& after.len() == before.len()
    &&& forall|i: int|
        #![trigger after[i]]
        0 <= i < after.len() && after[i] != before[i] ==> i < width * height && patch.contains(
            after[i],
        )
}

proof fn lemma_drawn_from_transitive(a: Seq<u8>, b: Seq<u8>, c: Seq<u8>, patch: Seq<u8>, width: u16, height: u16)
    requires
        spec_drawn_from(a, b, patch, width, height),
        spec_drawn_from(b, c, patch, width, height),
    ensures
        spec_drawn_from(a, c, patch, width, height),
{
    assert forall|i: int| #![trigger c[i]] 0 <= i < c.len() && c[i] != a[i] implies i < width * height
        && patch.contains(c[i]) by {
        if c[i] == b[i] {
            assert(b[i] != a[i]);
        }
    }
}

proof fn lemma_drawn_from_post(
    target: Seq<u8>,
    patch: Seq<u8>,
    data_start: int,
    length: int,
    origin_x: i16,
    origin_y: i16,
    column: int,
    top: int,
    target_width: u16,
    target_height: u16,
)
    requires
        0 <= data_start,
        data_start + length <= patch.len(),
    ensures
        spec_drawn_from(
            target,
            spec_blit_post(
                target,
                patch,
                data_start,
                length,
                origin_x,
                origin_y,
                column,
                top,
                target_width,
                target_height,
            ),
            patch,
            target_width,
            target_height,
        ),
{
    let after = spec_blit_post(
        target,
        patch,
        data_start,
        length,
        origin_x,
        origin_y,
        column,
        top,
        target_width,
        target_height,
    );
    let w = target_width as int;
    let h = target_height as int;
    assert forall|i: int| #![trigger after[i]] 0 <= i < after.len() && after[i] != target[i] implies i
        < target_width * target_height && patch.contains(after[i]) by {
        let dst_x = spec_dst_x(origin_x, column);
        let row = i / w - origin_y - top;
        assert(0 <= dst_x < (target_width as i16) as int && i % w == dst_x && 0 <= row < length
            && i / w < (target_height as i16) as int);
        assert(patch[data_start + row] == after[i]);
        assert(w > 0);
        assert((target_height as i16) as int <= target_height) by (bit_vector);
        if i >= w * h {
            vstd::arithmetic::div_mod::lemma_div_is_ordered(w * h, i, w);
            vstd::arithmetic::div_mod::lemma_div_multiples_vanish(h, w);
            assert(w * h == h * w) by (nonlinear_arith);
        }
    }
}

proof fn lemma_drawn_from_column(
    patch: Seq<u8>,
    post_offset: int,
    previous_top: int,
    origin_x: i16,
    origin_y: i16,
    column: int,
    target_width: u16,
    target_height: u16,
    target: Seq<u8>,
)
    ensures
        spec_drawn_from(
            target,
            spec_blit_column_from(
                patch,
                post_offset,
                previous_top,
                origin_x,
                origin_y,
                column,
                target_width,
                target_height,
                target,
            ),
            patch,
            target_width,
            target_height,
        ),
    decreases patch.len() + 1 - post_offset,
{
    if 0 <= post_offset < patch.len() && patch[post_offset] != 255 && post_offset + 3
        <= patch.len() {
        let top_delta = patch[post_offset] as int;
        let length = patch[post_offset + 1] as int;
        let data_start = post_offset + 3;
        let data_end = data_start + length;
        if data_end <= patch.len() {
            let top = if top_delta <= previous_top {
                previous_top + top_delta
            } else {
                top_delta
            };
            let drawn = spec_blit_post(
                target,
                patch,
                data_start,
                length,
                origin_x,
                origin_y,
                column,
                top,
                target_width,
                target_height,
            );
            lemma_drawn_from_post(
                target,
                patch,
                data_start,
                length,
                origin_x,
                origin_y,
                column,
                top,
                target_width,
                target_height,
            );
            lemma_drawn_from_column(
                patch,
                data_end + 1,
                top,
                origin_x,
                origin_y,
                column,
                target_width,
                target_height,
                drawn,
            );
            lemma_drawn_from_transitive(
                target,
                drawn,
                spec_blit_column_from(
                    patch,
                    data_end + 1,
                    top,
                    origin_x,
                    origin_y,
                    column,
                    target_width,
                    target_height,
                    drawn,
                ),
                patch,
                target_width,
                target_height,
            );
        }
    }
}

proof fn lemma_drawn_from_columns(
    patch: Seq<u8>,
    column: int,
    width: int,
    origin_x: i16,
    origin_y: i16,
    target_width: u16,
    target_height: u16,
    target: Seq<u8>,
)
    ensures
        spec_drawn_from(
            target,
            spec_blit_columns(
                patch,
                column,
                width,
                origin_x,
                origin_y,
                target_width,
                target_height,
                target,
            ),
            patch,
            target_width,
            target_height,
        ),
    decreases width - column,
{
    if column < width && column >= 0 && 8 + 4 * column + 4 <= patch.len() {
        let next = spec_blit_column_from(
            patch,
            spec_u32_le(patch, 8 + 4 * column) as int,
            -1,
            origin_x,
            origin_y,
            column,
            target_width,
            target_height,
            target,
        );
        lemma_drawn_from_column(
            patch,
            spec_u32_le(patch, 8 + 4 * column) as int,
            -1,
            origin_x,
            origin_y,
            column,
            target_width,
            target_height,
            target,
        );
        lemma_drawn_from_columns(
            patch,
            column + 1,
            width,
            origin_x,
            origin_y,
            target_width,
            target_height,
            next,
        );
        lemma_drawn_from_transitive(
            target,
            next,
            spec_blit_columns(
                patch,
                column + 1,
                width,
                origin_x,
                origin_y,
                target_width,
                target_height,
                next,
            ),
            patch,
            target_width,
            target_height,
        );
    }
}

/// Drawing a patch changes nothing past the texture's width x height bytes,
/// every byte it changes is a byte of the patch, and a patch shorter than
/// its header changes nothing.
pub proof fn law_blit_writes_patch_bytes_inside_texture(
    patch: Seq<u8>,
    origin_x: i16,
    origin_y: i16,
    target_width: u16,
    target_height: u16,
    target: Seq<u8>,
)
    ensures
        spec_drawn_from(
            target,
            spec_blit_patch(patch, origin_x, origin_y, target_width, target_height, target),
            patch,
            target_width,
            target_height,
        ),
        patch.len() < 8 ==> spec_blit_patch(
            patch,
            origin_x,
            origin_y,
            target_width,
            target_height,
            target,
        ) == target,
{
    if patch.len() >= 8 {
        lemma_drawn_from_columns(
            patch,
            0,
            spec_u16_le(patch, 0) as int,
            origin_x,
            origin_y,
            target_width,
            target_height,
            target,
        );
    }
}

} // verus!

verus! {

/// Patch `j` of `def` names a lump that exists but cannot be read.
pub open spec fn spec_patch_unreadable(
    wad: Seq<u8>,
    lumps: Seq<LumpInfoView>,
    def: TextureDefView,
    j: int,
) -> bool {
    match spec_find_lump(lumps, def.patches[j].patch_name) {
        Some(i) => spec_lump_bytes(wad, lumps[i]) is None,
        None => false,
    }
}

proof fn lemma_apply_patches_fails_iff_unreadable(
    wad: Seq<u8>,
    lumps: Seq<LumpInfoView>,
    def: TextureDefView,
    k: nat,
    base: Seq<u8>,
)
    requires
        k <= def.patches.len(),
    ensures
        spec_apply_patches(wad, lumps, def, k, base) is None <==> exists|j: int|
            0 <= j < k && #[trigger] spec_patch_unreadable(wad, lumps, def, j),
    decreases k,
{
    if k > 0 {
        lemma_apply_patches_fails_iff_unreadable(wad, lumps, def, (k - 1) as nat, base);
        if spec_patch_unreadable(wad, lumps, def, k - 1) {
            if spec_apply_patches(wad, lumps, def, (k - 1) as nat, base) is Some {
                assert(spec_apply_patches(wad, lumps, def, k, base) is None);
            }
        }
    }
}

/// Composing textures fails exactly when some patch of some definition
/// names a lump that exists but cannot be read; a patch without a lump is
/// skipped.
pub proof fn law_compose_fails_only_on_unreadable_patch(
    wad: Seq<u8>,
    lumps: Seq<LumpInfoView>,
    defs: Seq<TextureDefView>,
)
    ensures
        spec_compose_textures(wad, lumps, defs) is None <==> exists|d: int, j: int|
            0 <= d < defs.len() && 0 <= j < defs[d].patches.len()
                && #[trigger] spec_patch_unreadable(wad, lumps, defs[d], j),
    decreases defs.len(),
{
    if defs.len() > 0 {
        let rest = defs.drop_last();
        let last = defs.last();
        law_compose_fails_only_on_unreadable_patch(wad, lumps, rest);
        lemma_apply_patches_fails_iff_unreadable(
            wad,
            lumps,
            last,
            last.patches.len(),
            Seq::new(
                (at_least_one(last.width) as nat) * (at_least_one(last.height) as nat),
                |i: int| 0u8,
            ),
        );
        if exists|d: int, j: int|
            0 <= d < rest.len() && 0 <= j < rest[d].patches.len()
                && #[trigger] spec_patch_unreadable(wad, lumps, rest[d], j) {
            let (d, j) = choose|d: int, j: int|
                0 <= d < rest.len() && 0 <= j < rest[d].patches.len()
                    && #[trigger] spec_patch_unreadable(wad, lumps, rest[d], j);
            assert(defs[d] == rest[d]);
        }
        if exists|d: int, j: int|
            0 <= d < defs.len() && 0 <= j < defs[d].patches.len()
                && #[trigger] spec_patch_unreadable(wad, lumps, defs[d], j) {
            let (d, j) = choose|d: int, j: int|
                0 <= d < defs.len() && 0 <= j < defs[d].patches.len()
                    && #[trigger] spec_patch_unreadable(wad, lumps, defs[d], j);
            if d < rest.len() {
                assert(rest[d] == defs[d]);
            } else {
                assert(defs[d] == last);
            }
        }
    }
}

} // verus!

verus! {

/// The names of flats.
pub open spec fn flat_view_names(flats: Seq<FlatTextureView>) -> Seq<Seq<char>> {
    flats.map_values(|f: FlatTextureView| f.name)
}

/// The flat is the first 4096 bytes of the first lump with its name.
pub open spec fn spec_flat_from_first_lump(wad: Seq<u8>, lumps: Seq<LumpInfoView>, flat: FlatTextureView) -> bool {
    match spec_find_lump(lumps, flat.name) {
        Some(l) => match spec_lump_bytes(wad, lumps[l]) {
            Some(bytes) => flat.pixels == bytes.take(4096),
            None => false,
        },
        None => false,
    }
}

/// No flat can be read for the name: it has no lump, or its lump is
/// shorter than 4096 bytes.
pub open spec fn spec_no_flat_for(wad: Seq<u8>, lumps: Seq<LumpInfoView>, name: Seq<char>) -> bool {
    match spec_find_lump(lumps, name) {
        Some(l) => match spec_lump_bytes(wad, lumps[l]) {
            Some(bytes) => bytes.len() < 4096,
            None => false,
        },
        None => true,
    }
}

/// Flats read for names in increasing order come out in increasing order;
/// each is the first 4096 bytes of the first lump with its name; and a
/// name gets no flat only when it has no lump or its lump is shorter than
/// 4096 bytes.
pub proof fn law_flats_follow_names(
    wad: Seq<u8>,
    lumps: Seq<LumpInfoView>,
    names: Seq<Seq<char>>,
)
    requires
        strictly_increasing(names),
    ensures
        spec_flats(wad, lumps, names) matches Some(flats) ==> {
            &&& strictly_increasing(flat_view_names(flats))
            &&& forall|i: int|
                #![trigger flats[i]]
                0 <= i < flats.len() ==> names.contains(flats[i].name)
                    && spec_flat_from_first_lump(wad, lumps, flats[i])
            &&& forall|n: Seq<char>|
                #![trigger names.contains(n)]
                names.contains(n) && !flat_view_names(flats).contains(n) ==> spec_no_flat_for(
                    wad,
                    lumps,
                    n,
                )
        },
    decreases names.len(),
{
    if names.len() > 0 {
        let rest = names.drop_last();
        let last = names.last();
        assert(strictly_increasing(rest)) by {
            assert forall|i: int, j: int| 0 <= i < j < rest.len() implies name_lt(rest[i], rest[j]) by {
                assert(rest[i] == names[i] && rest[j] == names[j]);
            }
        }
        law_flats_follow_names(wad, lumps, rest);
        if let Some(flats) = spec_flats(wad, lumps, names) {
            let prev = spec_flats(wad, lumps, rest)->Some_0;
            assert forall|x: Seq<char>| rest.contains(x) implies name_lt(x, last) by {
                let w = choose|w: int| 0 <= w < rest.len() && rest[w] == x;
                assert(names[w] == x);
            }
            assert forall|x: Seq<char>| #![trigger names.contains(x)] names.contains(x) implies (
            rest.contains(x) || x == last) by {
                let w = choose|w: int| 0 <= w < names.len() && names[w] == x;
                if w < rest.len() {
                    assert(rest[w] == x);
                }
            }
            assert forall|x: Seq<char>| rest.contains(x) implies #[trigger] names.contains(x) by {
                let w = choose|w: int| 0 <= w < rest.len() && rest[w] == x;
                assert(names[w] == x);
            }
            assert(names.contains(last)) by {
                assert(names[names.len() - 1] == last);
            }
            lemma_name_lt_order(last, last, last);
            let pn = flat_view_names(prev);
            let fnames = flat_view_names(flats);
            if flats.len() > prev.len() {
                assert(flats =~= prev.push(flats[flats.len() - 1]));
                assert(fnames =~= pn.push(last));
                assert forall|i: int, j: int| 0 <= i < j < fnames.len() implies name_lt(
                    fnames[i],
                    fnames[j],
                ) by {
                    if j == fnames.len() - 1 {
                        assert(fnames[i] == prev[i].name);
                        assert(rest.contains(prev[i].name));
                    } else {
                        assert(fnames[i] == pn[i] && fnames[j] == pn[j]);
                    }
                }
                assert forall|n: Seq<char>| #![trigger names.contains(n)] names.contains(n)
                    && !fnames.contains(n) implies spec_no_flat_for(wad, lumps, n) by {
                    assert(fnames[fnames.len() - 1] == last);
                    if n != last {
                        assert(rest.contains(n));
                        if pn.contains(n) {
                            let w = choose|w: int| 0 <= w < pn.len() && pn[w] == n;
                            assert(fnames[w] == n);
                        }
                    }
                }
            } else {
                assert(flats == prev);
                assert forall|n: Seq<char>| #![trigger names.contains(n)] names.contains(n)
                    && !fnames.contains(n) implies spec_no_flat_for(wad, lumps, n) by {
                    if n != last {
                        assert(rest.contains(n));
                    }
                }
            }
        }
    }
}

} // verus!

verus! {

/// An increasing listing of the sectors' flat names exists.
proof fn lemma_flat_name_listing(sectors: Seq<SectorView>) -> (names: Seq<Seq<char>>)
    ensures
        strictly_increasing(names),
        names.to_set() == spec_flat_name_set(sectors),
    decreases sectors.len(),
{
    if sectors.len() == 0 {
        let names = Seq::<Seq<char>>::empty();
        assert(names.to_set() =~= spec_flat_name_set(sectors));
        names
    } else {
        let prev = sectors.drop_last();
        let last = sectors.last();
        let s0 = lemma_flat_name_listing(prev);
        let s1 = if spec_is_valid_flat_name(last.floor_texture) {
            lemma_sorted_insert(s0, last.floor_texture)
        } else {
            s0
        };
        let s2 = if spec_is_valid_flat_name(last.ceiling_texture) {
            lemma_sorted_insert(s1, last.ceiling_texture)
        } else {
            s1
        };
        let prev_set = spec_flat_name_set(prev);
        let all = spec_flat_name_set(sectors);
        assert(sectors[sectors.len() - 1] == last);
        assert forall|n: Seq<char>| s2.to_set().contains(n) implies all.contains(n) by {
            if prev_set.contains(n) {
                let i = choose|i: int|
                    0 <= i < prev.len() && (#[trigger] prev[i].floor_texture == n
                        || prev[i].ceiling_texture == n);
                assert(sectors[i] == prev[i]);
            }
        }
        assert forall|n: Seq<char>| all.contains(n) implies s2.to_set().contains(n) by {
            let i = choose|i: int|
                0 <= i < sectors.len() && (#[trigger] sectors[i].floor_texture == n
                    || sectors[i].ceiling_texture == n);
            if i < prev.len() {
                assert(prev[i] == sectors[i]);
                assert(prev_set.contains(n));
            }
        }
        assert(s2.to_set() =~= all);
        s2
    }
}

/// The sorted flat names of the sectors are strictly increasing and are
/// exactly their valid floor and ceiling names.
pub proof fn law_sorted_flat_names(sectors: Seq<SectorView>)
    ensures
        strictly_increasing(spec_sorted_flat_names(sectors)),
        spec_sorted_flat_names(sectors).to_set() == spec_flat_name_set(sectors),
{
    let witness = lemma_flat_name_listing(sectors);
    assert(strictly_increasing(witness) && witness.to_set() == spec_flat_name_set(sectors));
}

/// The flats loaded for the sectors: their names are strictly increasing;
/// each is a valid floor or ceiling name of some sector and holds the first
/// 4096 bytes of the first lump with its name; and a valid name a sector
/// uses is missing only when it has no lump or its lump is shorter than
/// 4096 bytes.
pub proof fn law_loaded_flats(wad: Seq<u8>, lumps: Seq<LumpInfoView>, sectors: Seq<SectorView>)
    ensures
        spec_flats(wad, lumps, spec_sorted_flat_names(sectors)) matches Some(flats) ==> {
            &&& strictly_increasing(flat_view_names(flats))
            &&& forall|i: int|
                #![trigger flats[i]]
                0 <= i < flats.len() ==> {
                    &&& flats[i].pixels.len() == FLAT_LUMP_SIZE
                    &&& spec_is_valid_flat_name(flats[i].name)
                    &&& exists|s: int|
                        0 <= s < sectors.len() && (#[trigger] sectors[s].floor_texture
                            == flats[i].name || sectors[s].ceiling_texture == flats[i].name)
                    &&& spec_flat_from_first_lump(wad, lumps, flats[i])
                }
            &&& forall|n: Seq<char>|
                #![trigger spec_flat_name_set(sectors).contains(n)]
                spec_flat_name_set(sectors).contains(n) && !flat_view_names(flats).contains(n)
                    ==> spec_no_flat_for(wad, lumps, n)
        },
{
    let names = spec_sorted_flat_names(sectors);
    law_sorted_flat_names(sectors);
    law_flats_follow_names(wad, lumps, names);
    law_flats_are_full_size(wad, lumps, names);
    if let Some(flats) = spec_flats(wad, lumps, names) {
        assert forall|i: int| #![trigger flats[i]] 0 <= i < flats.len() implies spec_flat_name_set(
            sectors,
        ).contains(flats[i].name) by {
            assert(names.contains(flats[i].name));
            assert(names.to_set().contains(flats[i].name));
        }
        assert forall|n: Seq<char>| #![trigger spec_flat_name_set(sectors).contains(n)]
            spec_flat_name_set(sectors).contains(n) && !flat_view_names(flats).contains(n)
            implies spec_no_flat_for(wad, lumps, n) by {
            assert(names.to_set().contains(n));
            assert(names.contains(n));
        }
    }
}

proof fn lemma_bsp_indices_distinct_in_range(segments: Seq<Seg>, line_count: int)
    ensures
        forall|i: int|
            #![trigger spec_bsp_line_indices(segments, line_count)[i]]
            0 <= i < spec_bsp_line_indices(segments, line_count).len() ==> (spec_bsp_line_indices(
                segments,
                line_count,
            )[i] as int) < line_count,
        forall|i: int, j: int|
            #![trigger spec_bsp_line_indices(segments, line_count)[i], spec_bsp_line_indices(segments, line_count)[j]]
            0 <= i < j < spec_bsp_line_indices(segments, line_count).len()
                ==> spec_bsp_line_indices(segments, line_count)[i] != spec_bsp_line_indices(
                segments,
                line_count,
            )[j],
    decreases segments.len(),
{
    if segments.len() > 0 {
        lemma_bsp_indices_distinct_in_range(segments.drop_last(), line_count);
        let prev = spec_bsp_line_indices(segments.drop_last(), line_count);
        let all = spec_bsp_line_indices(segments, line_count);
        let linedef = segments.last().linedef;
        if linedef < line_count && !prev.contains(linedef) {
            assert forall|i: int, j: int| 0 <= i < j < all.len() implies all[i] != all[j] by {
                if j == all.len() - 1 {
                    assert(all[i] == prev[i]);
                    if all[i] == all[j] {
                        assert(prev.contains(linedef));
                    }
                } else {
                    assert(all[i] == prev[i] && all[j] == prev[j]);
                }
            }
            assert forall|i: int| 0 <= i < all.len() implies (all[i] as int) < line_count by {
                if i < prev.len() {
                    assert(all[i] == prev[i]);
                }
            }
        }
    }
}

/// A loaded map: its BSP line order lists each linedef at most once and
/// only existing ones; its palette is empty or has 256 colours; its
/// textures hold width x height pixels; its flats hold 4096 pixels each and
/// come in strictly increasing name order; and it has one
/// vertex per 4 bytes, one linedef per 14 bytes and one thing per 10 bytes
/// of the corresponding lumps.
pub proof fn law_loaded_map_shape(wad: Seq<u8>, map_name: Seq<char>)
    ensures
        spec_load_map_data(wad, map_name) matches Ok(map) ==> {
            let lumps = spec_directory(wad, spec_wad_header(wad)->Ok_0)->Ok_0;
            let m = spec_find_lump(lumps, map_name)->Some_0;
            &&& map.vertexes.len() == lumps[m + 4].size / 4
            &&& map.things.len() == lumps[m + 1].size / 10
            &&& map.lines.len() == lumps[m + 2].size / 14
            &&& map.palette.len() == 0 || map.palette.len() == 256
            &&& forall|i: int|
                #![trigger map.bsp_line_indices[i]]
                0 <= i < map.bsp_line_indices.len() ==> (map.bsp_line_indices[i] as int)
                    < map.lines.len()
            &&& forall|i: int, j: int|
                #![trigger map.bsp_line_indices[i], map.bsp_line_indices[j]]
                0 <= i < j < map.bsp_line_indices.len() ==> map.bsp_line_indices[i]
                    != map.bsp_line_indices[j]
            &&& forall|i: int|
                #![trigger map.textures[i]]
                0 <= i < map.textures.len() ==> map.textures[i].width >= 1
                    && map.textures[i].height >= 1 && map.textures[i].pixels.len()
                    == map.textures[i].width * map.textures[i].height
            &&& forall|i: int|
                #![trigger map.flats[i]]
                0 <= i < map.flats.len() ==> map.flats[i].pixels.len() == FLAT_LUMP_SIZE
            &&& strictly_increasing(flat_view_names(map.flats))
        },
{
    if let Ok(map) = spec_load_map_data(wad, map_name) {
        let header = spec_wad_header(wad)->Ok_0;
        let lumps = spec_directory(wad, header)->Ok_0;
        let m = spec_find_lump(lumps, map_name)->Some_0;
        let pnames = spec_find_lump(lumps, PNAMES_LUMP_NAME@)->Some_0;
        let texture1 = spec_find_lump(lumps, TEXTURE1_LUMP_NAME@)->Some_0;
        let sector_bytes = spec_lump_bytes(wad, lumps[m + 8])->Some_0;
        let sectors = spec_parse_sectors(sector_bytes);
        let defs = spec_texture_defs(
            spec_lump_bytes(wad, lumps[texture1])->Some_0,
            spec_pnames(spec_lump_bytes(wad, lumps[pnames])->Some_0),
        );
        law_composed_textures_are_sized(wad, lumps, defs);
        law_flats_are_full_size(wad, lumps, spec_sorted_flat_names(sectors));
        law_loaded_flats(wad, lumps, sectors);
        let lines = spec_parse_linedefs(spec_lump_bytes(wad, lumps[m + 2])->Some_0);
        lemma_bsp_indices_distinct_in_range(
            spec_parse_segs(spec_lump_bytes(wad, lumps[m + 5])->Some_0),
            lines.len() as int,
        );
    }
}

} // verus!
