//! The decoded contents of a WAD map and the structures read on the way.

use vstd::prelude::*;

verus! {

#[derive(Clone, Copy, Debug, PartialEq, Eq, Structural)]
pub struct Vertex {
    pub x: i16,
    pub y: i16,
}

#[derive(Clone, Copy, Debug, PartialEq, Eq, Structural)]
pub struct LineDef {
    pub start_vertex: u16,
    pub end_vertex: u16,
    pub right_sidedef: u16,
    pub left_sidedef: u16,
}

#[derive(Debug)]
pub struct SideDef {
    pub sector: u16,
    pub middle_texture: String,
}

pub ghost struct SideDefView {
    pub sector: u16,
    pub middle_texture: Seq<char>,
}

impl View for SideDef {
    type V = SideDefView;

    open spec fn view(&self) -> SideDefView {
        SideDefView { sector: self.sector, middle_texture: self.middle_texture@ }
    }
}

#[derive(Debug)]
pub struct Sector {
    pub floor_texture: String,
    pub ceiling_texture: String,
    pub light_level: i16,
}

pub ghost struct SectorView {
    pub floor_texture: Seq<char>,
    pub ceiling_texture: Seq<char>,
    pub light_level: i16,
}

impl View for Sector {
    type V = SectorView;

    open spec fn view(&self) -> SectorView {
        SectorView {
            floor_texture: self.floor_texture@,
            ceiling_texture: self.ceiling_texture@,
            light_level: self.light_level,
        }
    }
}

#[derive(Clone, Copy, Debug, PartialEq, Eq, Structural)]
pub struct PaletteColor {
    pub r: u8,
    pub g: u8,
    pub b: u8,
}

#[derive(Debug)]
pub struct TexturePatchRef {
    pub origin_x: i16,
    pub origin_y: i16,
    pub patch_name: String,
}

pub ghost struct TexturePatchRefView {
    pub origin_x: i16,
    pub origin_y: i16,
    pub patch_name: Seq<char>,
}

impl View for TexturePatchRef {
    type V = TexturePatchRefView;

    open spec fn view(&self) -> TexturePatchRefView {
        TexturePatchRefView {
            origin_x: self.origin_x,
            origin_y: self.origin_y,
            patch_name: self.patch_name@,
        }
    }
}

#[derive(Debug)]
pub struct TextureDef {
    pub name: String,
    pub width: u16,
    pub height: u16,
    pub patches: Vec<TexturePatchRef>,
}

pub ghost struct TextureDefView {
    pub name: Seq<char>,
    pub width: u16,
    pub height: u16,
    pub patches: Seq<TexturePatchRefView>,
}

impl View for TextureDef {
    type V = TextureDefView;

    open spec fn view(&self) -> TextureDefView {
        TextureDefView {
            name: self.name@,
            width: self.width,
            height: self.height,
            patches: patch_ref_views(self.patches@),
        }
    }
}

#[derive(Debug)]
pub struct MapTexture {
    pub name: String,
    pub width: u16,
    pub height: u16,
    pub pixels: Vec<u8>,
}

pub ghost struct MapTextureView {
    pub name: Seq<char>,
    pub width: u16,
    pub height: u16,
    pub pixels: Seq<u8>,
}

impl View for MapTexture {
    type V = MapTextureView;

    open spec fn view(&self) -> MapTextureView {
        MapTextureView {
            name: self.name@,
            width: self.width,
            height: self.height,
            pixels: self.pixels@,
        }
    }
}

#[derive(Debug)]
pub struct FlatTexture {
    pub name: String,
    pub pixels: Vec<u8>,
}

pub ghost struct FlatTextureView {
    pub name: Seq<char>,
    pub pixels: Seq<u8>,
}

impl View for FlatTexture {
    type V = FlatTextureView;

    open spec fn view(&self) -> FlatTextureView {
        FlatTextureView { name: self.name@, pixels: self.pixels@ }
    }
}

#[derive(Clone, Copy, Debug, PartialEq, Eq, Structural)]
pub struct Thing {
    pub x: i16,
    pub y: i16,
    pub thing_type: u16,
}

#[derive(Clone, Copy, Debug, PartialEq, Eq, Structural)]
pub struct Seg {
    pub linedef: u16,
}

#[derive(Debug)]
pub struct MapData {
    pub vertexes: Vec<Vertex>,
    pub lines: Vec<LineDef>,
    pub sidedefs: Vec<SideDef>,
    pub sectors: Vec<Sector>,
    pub palette: Vec<PaletteColor>,
    pub textures: Vec<MapTexture>,
    pub flats: Vec<FlatTexture>,
    pub things: Vec<Thing>,
    pub bsp_line_indices: Vec<u16>,
}

pub ghost struct MapDataView {
    pub vertexes: Seq<Vertex>,
    pub lines: Seq<LineDef>,
    pub sidedefs: Seq<SideDefView>,
    pub sectors: Seq<SectorView>,
    pub palette: Seq<PaletteColor>,
    pub textures: Seq<MapTextureView>,
    pub flats: Seq<FlatTextureView>,
    pub things: Seq<Thing>,
    pub bsp_line_indices: Seq<u16>,
}

impl View for MapData {
    type V = MapDataView;

    open spec fn view(&self) -> MapDataView {
        MapDataView {
            vertexes: self.vertexes@,
            lines: self.lines@,
            sidedefs: sidedef_views(self.sidedefs@),
            sectors: sector_views(self.sectors@),
            palette: self.palette@,
            textures: map_texture_views(self.textures@),
            flats: flat_views(self.flats@),
            things: self.things@,
            bsp_line_indices: self.bsp_line_indices@,
        }
    }
}

/// Integer extents of a map's vertexes; `width` and `height` are at least one.
#[derive(Clone, Copy, Debug, PartialEq, Eq, Structural)]
pub struct MapBounds {
    pub min_x: i32,
    pub min_y: i32,
    pub width: i32,
    pub height: i32,
}

#[derive(Clone, Copy, Debug, PartialEq, Eq, Structural)]
pub struct WadHeader {
    pub num_lumps: i32,
    pub directory_offset: i32,
}

#[derive(Debug)]
pub struct LumpInfo {
    pub name: String,
    pub file_pos: i32,
    pub size: i32,
}

pub ghost struct LumpInfoView {
    pub name: Seq<char>,
    pub file_pos: i32,
    pub size: i32,
}

impl View for LumpInfo {
    type V = LumpInfoView;

    open spec fn view(&self) -> LumpInfoView {
        LumpInfoView { name: self.name@, file_pos: self.file_pos, size: self.size }
    }
}

pub struct MapTextureWithPixelsParams {
    pub name: String,
    pub width: u16,
    pub height: u16,
    pub pixels: Vec<u8>,
}

pub struct FlatTextureWithPixelsParams {
    pub name: String,
    pub pixels: Vec<u8>,
}

pub struct LumpInfoWithRawParams {
    pub name: String,
    pub file_pos: i32,
    pub size: i32,
}

impl MapTexture {
    /// Builds a texture; a zero width or height is raised to one.
    pub fn with_pixels(params: MapTextureWithPixelsParams) -> (texture: Self)
        ensures
            texture.name@ == params.name@,
            texture.width == (if params.width == 0 { 1u16 } else { params.width }),
            texture.height == (if params.height == 0 { 1u16 } else { params.height }),
            texture.pixels@ == params.pixels@,
    {
        let MapTextureWithPixelsParams { name, width, height, pixels } = params;
        Self {
            name,
            width: if width == 0 { 1 } else { width },
            height: if height == 0 { 1 } else { height },
            pixels,
        }
    }
}

impl FlatTexture {
    pub fn with_pixels(params: FlatTextureWithPixelsParams) -> (flat: Self)
        ensures
            flat.name@ == params.name@,
            flat.pixels@ == params.pixels@,
    {
        let FlatTextureWithPixelsParams { name, pixels } = params;
        Self { name, pixels }
    }
}

impl LumpInfo {
    pub fn with_raw(params: LumpInfoWithRawParams) -> (lump: Self)
        ensures
            lump.name@ == params.name@,
            lump.file_pos == params.file_pos,
            lump.size == params.size,
    {
        let LumpInfoWithRawParams { name, file_pos, size } = params;
        Self { name, file_pos, size }
    }
}

/// The views of a sequence of strings.
pub open spec fn string_views(s: Seq<String>) -> Seq<Seq<char>> {
    s.map_values(|x: String| x@)
}

pub open spec fn lump_views(s: Seq<LumpInfo>) -> Seq<LumpInfoView> {
    s.map_values(|x: LumpInfo| x@)
}

pub open spec fn texture_def_views(s: Seq<TextureDef>) -> Seq<TextureDefView> {
    s.map_values(|x: TextureDef| x@)
}

pub open spec fn patch_ref_views(s: Seq<TexturePatchRef>) -> Seq<TexturePatchRefView> {
    s.map_values(|x: TexturePatchRef| x@)
}

pub open spec fn sector_views(s: Seq<Sector>) -> Seq<SectorView> {
    s.map_values(|x: Sector| x@)
}

pub open spec fn sidedef_views(s: Seq<SideDef>) -> Seq<SideDefView> {
    s.map_values(|x: SideDef| x@)
}

pub open spec fn map_texture_views(s: Seq<MapTexture>) -> Seq<MapTextureView> {
    s.map_values(|x: MapTexture| x@)
}

pub open spec fn flat_views(s: Seq<FlatTexture>) -> Seq<FlatTextureView> {
    s.map_values(|x: FlatTexture| x@)
}

} // verus!
