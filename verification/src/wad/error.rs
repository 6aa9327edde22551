//! Errors raised while decoding a WAD archive.

use vstd::prelude::*;

verus! {

/// How an error is classified by the caller that reports it.
#[derive(Clone, Copy, Debug, PartialEq, Eq, Structural)]
pub enum WadErrorKind {
    NotFound,
    InvalidData,
}

#[derive(Clone, Copy, Debug, PartialEq, Eq, Structural)]
pub enum WadError {
    InvalidWadSignature,
    InvalidWadHeader,
    MapNotFound,
    Texture1LumpMissing,
    PnamesLumpMissing,
    PlaypalLumpMissing,
    VertexLumpMissing,
    LinedefLumpMissing,
    SidedefLumpMissing,
    ThingLumpMissing,
    SegLumpMissing,
    SectorLumpMissing,
    InvalidLumpData,
}

pub const ERR_INVALID_WAD_SIGNATURE: &'static str = "Assinatura WAD invalida.";
pub const ERR_INVALID_WAD_HEADER: &'static str = "Cabecalho WAD com valores invalidos.";
pub const ERR_MAP_NOT_FOUND: &'static str = "Mapa nao encontrado no WAD.";
pub const ERR_TEXTURE1_LUMP_MISSING: &'static str = "Lump TEXTURE1 ausente.";
pub const ERR_PNAMES_LUMP_MISSING: &'static str = "Lump PNAMES ausente.";
pub const ERR_PLAYPAL_LUMP_MISSING: &'static str = "Lump PLAYPAL ausente.";
pub const ERR_VERTEX_LUMP_MISSING: &'static str = "Lump de vertexes ausente.";
pub const ERR_LINEDEF_LUMP_MISSING: &'static str = "Lump de linedefs ausente.";
pub const ERR_SIDEDEF_LUMP_MISSING: &'static str = "Lump de sidedefs ausente.";
pub const ERR_THING_LUMP_MISSING: &'static str = "Lump de things ausente.";
pub const ERR_SEG_LUMP_MISSING: &'static str = "Lump de segs ausente.";
pub const ERR_SECTOR_LUMP_MISSING: &'static str = "Lump de sectors ausente.";
pub const ERR_INVALID_LUMP_DATA: &'static str = "Lump com tamanho ou posicao invalida.";

impl WadError {
    /// A missing map is reported as "not found"; every other error as invalid data.
    pub fn kind(&self) -> (kind: WadErrorKind)
        ensures
            kind == (if *self == WadError::MapNotFound {
                WadErrorKind::NotFound
            } else {
                WadErrorKind::InvalidData
            }),
    {
        match self {
            WadError::MapNotFound => WadErrorKind::NotFound,
            _ => WadErrorKind::InvalidData,
        }
    }

    /// The user-facing message of the error.
    pub fn message(&self) -> (message: &'static str)
        ensures
            message == match *self {
                WadError::InvalidWadSignature => ERR_INVALID_WAD_SIGNATURE,
                WadError::InvalidWadHeader => ERR_INVALID_WAD_HEADER,
                WadError::MapNotFound => ERR_MAP_NOT_FOUND,
                WadError::Texture1LumpMissing => ERR_TEXTURE1_LUMP_MISSING,
                WadError::PnamesLumpMissing => ERR_PNAMES_LUMP_MISSING,
                WadError::PlaypalLumpMissing => ERR_PLAYPAL_LUMP_MISSING,
                WadError::VertexLumpMissing => ERR_VERTEX_LUMP_MISSING,
                WadError::LinedefLumpMissing => ERR_LINEDEF_LUMP_MISSING,
                WadError::SidedefLumpMissing => ERR_SIDEDEF_LUMP_MISSING,
                WadError::ThingLumpMissing => ERR_THING_LUMP_MISSING,
                WadError::SegLumpMissing => ERR_SEG_LUMP_MISSING,
                WadError::SectorLumpMissing => ERR_SECTOR_LUMP_MISSING,
                WadError::InvalidLumpData => ERR_INVALID_LUMP_DATA,
            },
    {
        match self {
            WadError::InvalidWadSignature => ERR_INVALID_WAD_SIGNATURE,
            WadError::InvalidWadHeader => ERR_INVALID_WAD_HEADER,
            WadError::MapNotFound => ERR_MAP_NOT_FOUND,
            WadError::Texture1LumpMissing => ERR_TEXTURE1_LUMP_MISSING,
            WadError::PnamesLumpMissing => ERR_PNAMES_LUMP_MISSING,
            WadError::PlaypalLumpMissing => ERR_PLAYPAL_LUMP_MISSING,
            WadError::VertexLumpMissing => ERR_VERTEX_LUMP_MISSING,
            WadError::LinedefLumpMissing => ERR_LINEDEF_LUMP_MISSING,
            WadError::SidedefLumpMissing => ERR_SIDEDEF_LUMP_MISSING,
            WadError::ThingLumpMissing => ERR_THING_LUMP_MISSING,
            WadError::SegLumpMissing => ERR_SEG_LUMP_MISSING,
            WadError::SectorLumpMissing => ERR_SECTOR_LUMP_MISSING,
            WadError::InvalidLumpData => ERR_INVALID_LUMP_DATA,
        }
    }
}

} // verus!
