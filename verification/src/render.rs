//! Integer rules of the terminal renderer: colours of a cell, the glyph a
//! cell takes, edge strength of a luma grid, spans of equal style, the cell
//! cache and the checks on a frame before it is drawn.

use vstd::prelude::*;

verus! {

/// A colour after tone mapping.
#[derive(Clone, Copy, Debug, PartialEq, Eq, Structural)]
pub struct ToneMappedColor {
    pub red: u8,
    pub green: u8,
    pub blue: u8,
}

impl ToneMappedColor {
    pub fn new(red: u8, green: u8, blue: u8) -> (color: Self)
        ensures
            color.red == red,
            color.green == green,
            color.blue == blue,
    {
        ToneMappedColor { red, green, blue }
    }

    /// The channel-wise mean, rounded down.
    pub fn blend(self, other: ToneMappedColor) -> (blended: ToneMappedColor)
        ensures
            blended.red == (self.red + other.red) / 2,
            blended.green == (self.green + other.green) / 2,
            blended.blue == (self.blue + other.blue) / 2,
    {
        ToneMappedColor::new(
            ((self.red as u16 + other.red as u16) / 2) as u8,
            ((self.green as u16 + other.green as u16) / 2) as u8,
            ((self.blue as u16 + other.blue as u16) / 2) as u8,
        )
    }
}

/// The glyph of a terminal cell: the upper half block (foreground on top,
/// background below), the heavy density block, or a full block.
#[derive(Clone, Copy, Debug, PartialEq, Eq, Structural)]
pub enum CellGlyph {
    UpperHalf,
    DensityHeavy,
    Solid,
}

/// How a terminal cell is drawn.
#[derive(Clone, Copy, Debug, PartialEq, Eq, Structural)]
pub struct FramebufferCellStyle {
    pub foreground: ToneMappedColor,
    pub background: ToneMappedColor,
    pub glyph: CellGlyph,
}

/// Integer weights of a luma estimate: (r*red + g*green + b*blue) / divisor.
#[derive(Clone, Copy, Debug, PartialEq, Eq, Structural)]
pub struct LumaWeights {
    pub red: u16,
    pub green: u16,
    pub blue: u16,
    pub divisor: u16,
}

impl LumaWeights {
    /// The weighted sum of any colour fits in 16 bits and the divisor is not
    /// zero.
    pub open spec fn is_valid(&self) -> bool {
        &&& self.divisor > 0
        &&& 255 * (self.red + self.green + self.blue) <= u16::MAX
    }
}

/// The thresholds that pick a cell's glyph.
#[derive(Clone, Copy, Debug, PartialEq, Eq, Structural)]
pub struct GlyphThresholds {
    /// Colour distance up to which a cell counts as flat.
    pub flat_cell: u16,
    /// Colour distance up to which a cell of low luma contrast is blended.
    pub soft_blend_cell: u16,
    /// Luma contrast from which the upper half block is used.
    pub half_block_luma: u16,
    /// Largest luma contrast of a density cell.
    pub density_luma_max: u16,
    /// Smallest colour distance of a density cell.
    pub heavy_density_chroma: u16,
    /// Luma slack that keeps the previous glyph.
    pub hysteresis_luma: u16,
    /// Colour slack that keeps the previous glyph.
    pub hysteresis_chroma: u16,
}

/// The luma weights of the renderer: the Rec. 601 weights in 256ths.
pub fn default_luma_weights() -> (weights: LumaWeights)
    ensures
        weights == (LumaWeights { red: 77, green: 150, blue: 29, divisor: 256 }),
        weights.is_valid(),
{
    LumaWeights { red: 77, green: 150, blue: 29, divisor: 256 }
}

/// The glyph thresholds of the renderer.
pub fn default_glyph_thresholds() -> (thresholds: GlyphThresholds)
    ensures
        thresholds == (GlyphThresholds {
            flat_cell: 12,
            soft_blend_cell: 96,
            half_block_luma: 24,
            density_luma_max: 16,
            heavy_density_chroma: 120,
            hysteresis_luma: 4,
            hysteresis_chroma: 12,
        }),
{
    GlyphThresholds {
        flat_cell: 12,
        soft_blend_cell: 96,
        half_block_luma: 24,
        density_luma_max: 16,
        heavy_density_chroma: 120,
        hysteresis_luma: 4,
        hysteresis_chroma: 12,
    }
}

/// A region whose luma grid has a neighbour step above this is an edge.
pub const FRAMEBUFFER_EDGE_DETECTION_THRESHOLD: u8 = 48;

/// Each sample of a cell fingerprint is rotated this many bits more than
/// the previous one.
pub const FRAMEBUFFER_SIGNATURE_ROTATE_STEP_BITS: u32 = 16;

pub open spec fn spec_luma(weights: LumaWeights, red: u8, green: u8, blue: u8) -> int {
    (red * weights.red + green * weights.green + blue * weights.blue) / (weights.divisor as int)
}

proof fn lemma_weighted_sum_bound(weights: LumaWeights, red: u8, green: u8, blue: u8)
    requires
        weights.is_valid(),
    ensures
        0 <= red * weights.red + green * weights.green + blue * weights.blue <= 255 * (weights.red
            + weights.green + weights.blue),
{
    assert(0 <= red * weights.red <= 255 * weights.red) by (nonlinear_arith)
        requires
            red <= 255,
    ;
    assert(0 <= green * weights.green <= 255 * weights.green) by (nonlinear_arith)
        requires
            green <= 255,
    ;
    assert(0 <= blue * weights.blue <= 255 * weights.blue) by (nonlinear_arith)
        requires
            blue <= 255,
    ;
}

/// The weighted luma of a colour.
pub fn luma_from_rgb(weights: &LumaWeights, red: u8, green: u8, blue: u8) -> (luma: u16)
    requires
        weights.is_valid(),
    ensures
        luma == spec_luma(*weights, red, green, blue),
{
    proof {
        lemma_weighted_sum_bound(*weights, red, green, blue);
    }
    (red as u16 * weights.red + green as u16 * weights.green + blue as u16 * weights.blue)
        / weights.divisor
}

pub fn perceived_luminance(weights: &LumaWeights, color: ToneMappedColor) -> (luma: u16)
    requires
        weights.is_valid(),
    ensures
        luma == spec_luma(*weights, color.red, color.green, color.blue),
{
    luma_from_rgb(weights, color.red, color.green, color.blue)
}

/// The luma of a colour as a byte (its low 8 bits).
pub fn approximate_luma(weights: &LumaWeights, red: u8, green: u8, blue: u8) -> (luma: u8)
    requires
        weights.is_valid(),
    ensures
        luma == spec_luma(*weights, red, green, blue) as u8,
{
    #[verifier::truncate]
    (luma_from_rgb(weights, red, green, blue) as u8)
}

pub open spec fn abs_diff(a: int, b: int) -> int {
    if a >= b { a - b } else { b - a }
}

fn abs_diff_u8(a: u8, b: u8) -> (d: u8)
    ensures
        d == abs_diff(a as int, b as int),
{
    if a >= b { a - b } else { b - a }
}

fn abs_diff_u16(a: u16, b: u16) -> (d: u16)
    ensures
        d == abs_diff(a as int, b as int),
{
    if a >= b { a - b } else { b - a }
}

/// Sum of the channel distances of two colours.
pub open spec fn spec_color_delta(a: ToneMappedColor, b: ToneMappedColor) -> int {
    abs_diff(a.red as int, b.red as int) + abs_diff(a.green as int, b.green as int) + abs_diff(
        a.blue as int,
        b.blue as int,
    )
}

pub open spec fn spec_upper_half_cell(upper: ToneMappedColor, lower: ToneMappedColor) -> FramebufferCellStyle {
    FramebufferCellStyle { foreground: upper, background: lower, glyph: CellGlyph::UpperHalf }
}

/// A density cell draws the brighter colour over the darker one.
pub open spec fn spec_density_cell(
    upper: ToneMappedColor,
    lower: ToneMappedColor,
    upper_luma: int,
    lower_luma: int,
) -> FramebufferCellStyle {
    if upper_luma >= lower_luma {
        FramebufferCellStyle { foreground: upper, background: lower, glyph: CellGlyph::DensityHeavy }
    } else {
        FramebufferCellStyle { foreground: lower, background: upper, glyph: CellGlyph::DensityHeavy }
    }
}

pub open spec fn spec_blend(a: ToneMappedColor, b: ToneMappedColor) -> ToneMappedColor {
    ToneMappedColor {
        red: ((a.red + b.red) / 2) as u8,
        green: ((a.green + b.green) / 2) as u8,
        blue: ((a.blue + b.blue) / 2) as u8,
    }
}

/// A solid cell shows the mean of both colours.
pub open spec fn spec_solid_blended_cell(upper: ToneMappedColor, lower: ToneMappedColor) -> FramebufferCellStyle {
    FramebufferCellStyle {
        foreground: spec_blend(upper, lower),
        background: spec_blend(upper, lower),
        glyph: CellGlyph::Solid,
    }
}

pub fn upper_half_cell(upper: ToneMappedColor, lower: ToneMappedColor) -> (style: FramebufferCellStyle)
    ensures
        style == spec_upper_half_cell(upper, lower),
{
    FramebufferCellStyle { foreground: upper, background: lower, glyph: CellGlyph::UpperHalf }
}

pub fn density_cell(upper: ToneMappedColor, lower: ToneMappedColor, upper_luma: u16, lower_luma: u16) -> (style: FramebufferCellStyle)
    ensures
        style == spec_density_cell(upper, lower, upper_luma as int, lower_luma as int),
{
    if upper_luma >= lower_luma {
        FramebufferCellStyle { foreground: upper, background: lower, glyph: CellGlyph::DensityHeavy }
    } else {
        FramebufferCellStyle { foreground: lower, background: upper, glyph: CellGlyph::DensityHeavy }
    }
}

pub fn solid_blended_cell(upper: ToneMappedColor, lower: ToneMappedColor) -> (style: FramebufferCellStyle)
    ensures
        style == spec_solid_blended_cell(upper, lower),
{
    let blended = upper.blend(lower);
    FramebufferCellStyle { foreground: blended, background: blended, glyph: CellGlyph::Solid }
}

/// The style of a cell drawn with a given glyph.
pub open spec fn spec_glyph_style(
    weights: LumaWeights,
    glyph: CellGlyph,
    upper: ToneMappedColor,
    lower: ToneMappedColor,
) -> FramebufferCellStyle {
    match glyph {
        CellGlyph::UpperHalf => spec_upper_half_cell(upper, lower),
        CellGlyph::DensityHeavy => spec_density_cell(
            upper,
            lower,
            spec_luma(weights, upper.red, upper.green, upper.blue),
            spec_luma(weights, lower.red, lower.green, lower.blue),
        ),
        CellGlyph::Solid => spec_solid_blended_cell(upper, lower),
    }
}

pub fn glyph_style(weights: &LumaWeights, glyph: CellGlyph, upper: ToneMappedColor, lower: ToneMappedColor) -> (style: FramebufferCellStyle)
    requires
        weights.is_valid(),
    ensures
        style == spec_glyph_style(*weights, glyph, upper, lower),
{
    match glyph {
        CellGlyph::UpperHalf => upper_half_cell(upper, lower),
        CellGlyph::DensityHeavy => {
            let upper_luma = perceived_luminance(weights, upper);
            let lower_luma = perceived_luminance(weights, lower);
            density_cell(upper, lower, upper_luma, lower_luma)
        },
        CellGlyph::Solid => solid_blended_cell(upper, lower),
    }
}

/// Whether the previous glyph still fits within the hysteresis slack.
pub open spec fn spec_keep_previous_glyph(
    thresholds: GlyphThresholds,
    previous: Option<CellGlyph>,
    luma_delta: int,
    color_delta: int,
) -> bool {
    match previous {
        Some(CellGlyph::UpperHalf) => luma_delta + thresholds.hysteresis_luma
            >= thresholds.half_block_luma,
        Some(CellGlyph::DensityHeavy) => luma_delta <= thresholds.density_luma_max
            + thresholds.hysteresis_luma && color_delta + thresholds.hysteresis_chroma
            >= thresholds.heavy_density_chroma,
        Some(CellGlyph::Solid) => color_delta <= thresholds.soft_blend_cell
            + thresholds.hysteresis_chroma && luma_delta < thresholds.half_block_luma
            + thresholds.hysteresis_luma,
        None => false,
    }
}

pub fn should_keep_previous_glyph(thresholds: &GlyphThresholds, previous: Option<CellGlyph>, luma_delta: u16, color_delta: u16) -> (keep: bool)
    ensures
        keep == spec_keep_previous_glyph(*thresholds, previous, luma_delta as int, color_delta as int),
{
    let luma = luma_delta as u32;
    let color = color_delta as u32;
    match previous {
        Some(CellGlyph::UpperHalf) => luma + thresholds.hysteresis_luma as u32
            >= thresholds.half_block_luma as u32,
        Some(CellGlyph::DensityHeavy) => luma <= thresholds.density_luma_max as u32
            + thresholds.hysteresis_luma as u32 && color + thresholds.hysteresis_chroma as u32
            >= thresholds.heavy_density_chroma as u32,
        Some(CellGlyph::Solid) => color <= thresholds.soft_blend_cell as u32
            + thresholds.hysteresis_chroma as u32 && luma < thresholds.half_block_luma as u32
            + thresholds.hysteresis_luma as u32,
        None => false,
    }
}

/// The style of a cell whose upper half has colour `upper` and lower half
/// `lower`: keep the previous glyph while it still fits; else a flat cell is
/// solid, a soft low-contrast cell is solid, a strong luma split takes the
/// upper half block, a low-luma but colourful cell takes the density block,
/// and anything else is solid.
pub open spec fn spec_cell_style(
    weights: LumaWeights,
    thresholds: GlyphThresholds,
    upper: ToneMappedColor,
    lower: ToneMappedColor,
    previous: Option<CellGlyph>,
) -> FramebufferCellStyle {
    let upper_luma = spec_luma(weights, upper.red, upper.green, upper.blue);
    let lower_luma = spec_luma(weights, lower.red, lower.green, lower.blue);
    let luma_delta = abs_diff(upper_luma, lower_luma);
    let color_delta = spec_color_delta(upper, lower);
    if spec_keep_previous_glyph(thresholds, previous, luma_delta, color_delta) {
        spec_glyph_style(weights, previous->Some_0, upper, lower)
    } else if color_delta <= thresholds.flat_cell {
        spec_solid_blended_cell(upper, lower)
    } else if color_delta <= thresholds.soft_blend_cell && luma_delta < thresholds.half_block_luma {
        spec_solid_blended_cell(upper, lower)
    } else if luma_delta >= thresholds.half_block_luma {
        spec_upper_half_cell(upper, lower)
    } else if luma_delta <= thresholds.density_luma_max && color_delta
        >= thresholds.heavy_density_chroma {
        spec_density_cell(upper, lower, upper_luma, lower_luma)
    } else {
        spec_solid_blended_cell(upper, lower)
    }
}

pub struct FramebufferCellStyleParams {
    pub upper_color: ToneMappedColor,
    pub lower_color: ToneMappedColor,
    pub previous_glyph: Option<CellGlyph>,
    pub weights: LumaWeights,
    pub thresholds: GlyphThresholds,
}

pub fn framebuffer_cell_style(params: FramebufferCellStyleParams) -> (style: FramebufferCellStyle)
    requires
        params.weights.is_valid(),
    ensures
        style == spec_cell_style(
            params.weights,
            params.thresholds,
            params.upper_color,
            params.lower_color,
            params.previous_glyph,
        ),
{
    let FramebufferCellStyleParams { upper_color, lower_color, previous_glyph, weights, thresholds } =
        params;
    let upper_luma = perceived_luminance(&weights, upper_color);
    let lower_luma = perceived_luminance(&weights, lower_color);
    let luma_delta = abs_diff_u16(upper_luma, lower_luma);
    let color_delta = abs_diff_u8(upper_color.red, lower_color.red) as u16 + abs_diff_u8(
        upper_color.green,
        lower_color.green,
    ) as u16 + abs_diff_u8(upper_color.blue, lower_color.blue) as u16;
    if should_keep_previous_glyph(&thresholds, previous_glyph, luma_delta, color_delta) {
        let glyph = match previous_glyph {
            Some(glyph) => glyph,
            None => CellGlyph::Solid,
        };
        return glyph_style(&weights, glyph, upper_color, lower_color);
    }
    if color_delta <= thresholds.flat_cell {
        return solid_blended_cell(upper_color, lower_color);
    }
    if color_delta <= thresholds.soft_blend_cell && luma_delta < thresholds.half_block_luma {
        return solid_blended_cell(upper_color, lower_color);
    }
    if luma_delta >= thresholds.half_block_luma {
        return upper_half_cell(upper_color, lower_color);
    }
    if luma_delta <= thresholds.density_luma_max && color_delta >= thresholds.heavy_density_chroma {
        return density_cell(upper_color, lower_color, upper_luma, lower_luma);
    }
    solid_blended_cell(upper_color, lower_color)
}

/// The largest distance between the sample at `index` and its neighbours
/// among the first `n` indices that lie inside the samples.
pub open spec fn spec_neighbor_diff_upto(samples: Seq<u8>, index: int, neighbors: Seq<usize>, n: nat) -> int
    decreases n,
{
    if n == 0 {
        0
    } else {
        let earlier = spec_neighbor_diff_upto(samples, index, neighbors, (n - 1) as nat);
        let neighbor = neighbors[n - 1] as int;
        if neighbor < samples.len() {
            let diff = abs_diff(samples[index] as int, samples[neighbor] as int);
            if diff > earlier { diff } else { earlier }
        } else {
            earlier
        }
    }
}

pub open spec fn spec_neighbor_diff(samples: Seq<u8>, index: int, neighbors: Seq<usize>) -> int {
    spec_neighbor_diff_upto(samples, index, neighbors, neighbors.len())
}

proof fn lemma_neighbor_diff_is_byte(samples: Seq<u8>, index: int, neighbors: Seq<usize>, n: nat)
    requires
        n <= neighbors.len(),
    ensures
        0 <= spec_neighbor_diff_upto(samples, index, neighbors, n) <= 255,
    decreases n,
{
    if n > 0 {
        lemma_neighbor_diff_is_byte(samples, index, neighbors, (n - 1) as nat);
    }
}

/// The largest distance between the sample at `sample_index` and the
/// listed neighbours that exist.
pub fn compare_with_neighbors(luma_samples: &[u8], sample_index: usize, neighbor_indices: &[usize]) -> (max_diff: u8)
    requires
        sample_index < luma_samples@.len(),
    ensures
        max_diff == spec_neighbor_diff(luma_samples@, sample_index as int, neighbor_indices@),
{
    let mut max_diff: u8 = 0;
    let mut k: usize = 0;
    while k < neighbor_indices.len()
        invariant
            k <= neighbor_indices@.len(),
            sample_index < luma_samples@.len(),
            max_diff == spec_neighbor_diff_upto(
                luma_samples@,
                sample_index as int,
                neighbor_indices@,
                k as nat,
            ),
        decreases neighbor_indices@.len() - k,
    {
        let neighbor_index = neighbor_indices[k];
        if neighbor_index < luma_samples.len() {
            let diff = abs_diff_u8(luma_samples[sample_index], luma_samples[neighbor_index]);
            if diff > max_diff {
                max_diff = diff;
            }
        }
        k = k + 1;
    }
    max_diff
}

/// The neighbours of a sample in a 3-wide grid, in the order they are
/// compared: left, right, above, below. A neighbour that falls outside the
/// `len` samples is marked by `usize::MAX`, which no sample index reaches.
pub open spec fn spec_grid_neighbors(index: int, len: int) -> Seq<usize> {
    seq![
        (if index >= 1 { index - 1 } else { usize::MAX as int }) as usize,
        (if index + 1 < len { index + 1 } else { usize::MAX as int }) as usize,
        (if index >= 3 { index - 3 } else { usize::MAX as int }) as usize,
        (if index + 3 < len { index + 3 } else { usize::MAX as int }) as usize,
    ]
}

/// The largest neighbour distance over the first `n` samples.
pub open spec fn spec_max_local_diff_upto(samples: Seq<u8>, n: nat) -> int
    decreases n,
{
    if n == 0 {
        0
    } else {
        let earlier = spec_max_local_diff_upto(samples, (n - 1) as nat);
        let here = spec_neighbor_diff(samples, n - 1, spec_grid_neighbors(n - 1, samples.len() as int));
        if here > earlier { here } else { earlier }
    }
}

/// The edge strength of a luma grid: the largest distance between a sample
/// and its grid neighbours.
pub fn calculate_max_local_diff(luma_samples: &[u8]) -> (max_local_diff: u8)
    ensures
        max_local_diff == spec_max_local_diff_upto(luma_samples@, luma_samples@.len()),
{
    let mut max_local_diff: u8 = 0;
    let mut sample_index: usize = 0;
    while sample_index < luma_samples.len()
        invariant
            sample_index <= luma_samples@.len(),
            max_local_diff == spec_max_local_diff_upto(luma_samples@, sample_index as nat),
        decreases luma_samples@.len() - sample_index,
    {
        let remaining = luma_samples.len() - sample_index;
        let left = if sample_index >= 1 { sample_index - 1 } else { usize::MAX };
        let right = if remaining > 1 { sample_index + 1 } else { usize::MAX };
        let above = if sample_index >= 3 { sample_index - 3 } else { usize::MAX };
        let below = if remaining > 3 { sample_index + 3 } else { usize::MAX };
        let neighbor_indices = [left, right, above, below];
        assert(neighbor_indices@ =~= spec_grid_neighbors(
            sample_index as int,
            luma_samples@.len() as int,
        ));
        let max_neighbor_diff = compare_with_neighbors(
            luma_samples,
            sample_index,
            neighbor_indices.as_slice(),
        );
        if max_neighbor_diff > max_local_diff {
            max_local_diff = max_neighbor_diff;
        }
        sample_index = sample_index + 1;
    }
    max_local_diff
}

/// A region is an edge when its luma grid has a neighbour step above the
/// edge threshold.
pub fn region_has_edge(luma_samples: &[u8]) -> (edge: bool)
    ensures
        edge == (spec_max_local_diff_upto(luma_samples@, luma_samples@.len())
            > FRAMEBUFFER_EDGE_DETECTION_THRESHOLD),
{
    calculate_max_local_diff(luma_samples) > FRAMEBUFFER_EDGE_DETECTION_THRESHOLD
}

/// A run of cells on one row with the same colours, drawn with one print.
pub struct FramebufferCellSpan {
    pub start_x: usize,
    pub next_x: usize,
    pub y: usize,
    pub foreground: ToneMappedColor,
    pub background: ToneMappedColor,
    pub glyphs: Vec<CellGlyph>,
}

impl FramebufferCellSpan {
    /// A span holding one cell at (`screen_x`, `screen_y`).
    pub fn new(screen_x: usize, screen_y: usize, cell: FramebufferCellStyle) -> (span: Self)
        requires
            screen_x < usize::MAX,
        ensures
            span.start_x == screen_x,
            span.next_x == screen_x + 1,
            span.y == screen_y,
            span.foreground == cell.foreground,
            span.background == cell.background,
            span.glyphs@ == seq![cell.glyph],
    {
        let mut glyphs: Vec<CellGlyph> = Vec::new();
        glyphs.push(cell.glyph);
        FramebufferCellSpan {
            start_x: screen_x,
            next_x: screen_x + 1,
            y: screen_y,
            foreground: cell.foreground,
            background: cell.background,
            glyphs,
        }
    }

    /// A cell extends the span when it is the next cell of the same row with
    /// the same colours.
    pub fn can_append(&self, screen_x: usize, screen_y: usize, cell: &FramebufferCellStyle) -> (fits: bool)
        ensures
            fits == (self.y == screen_y && self.next_x == screen_x && self.foreground
                == cell.foreground && self.background == cell.background),
    {
        self.y == screen_y && self.next_x == screen_x && self.foreground == cell.foreground
            && self.background == cell.background
    }

    pub fn push(&mut self, glyph: CellGlyph)
        requires
            old(self).next_x < usize::MAX,
        ensures
            final(self).glyphs@ == old(self).glyphs@.push(glyph),
            final(self).next_x == old(self).next_x + 1,
            final(self).start_x == old(self).start_x,
            final(self).y == old(self).y,
            final(self).foreground == old(self).foreground,
            final(self).background == old(self).background,
    {
        self.glyphs.push(glyph);
        self.next_x = self.next_x + 1;
    }
}

/// What a screen cell last showed, and the fingerprint of the pixels it
/// was drawn from.
#[derive(Clone, Copy, Debug, PartialEq, Eq, Structural)]
pub struct FramebufferCellCacheEntry {
    pub style: FramebufferCellStyle,
    pub source_signature: u64,
}

impl FramebufferCellStyle {
    pub fn cache_entry(&self, source_signature: u64) -> (entry: FramebufferCellCacheEntry)
        ensures
            entry.style == *self,
            entry.source_signature == source_signature,
    {
        FramebufferCellCacheEntry { style: *self, source_signature }
    }
}

/// A cell is redrawn unless its cached fingerprint matches.
pub open spec fn spec_needs_redraw(previous: Option<FramebufferCellCacheEntry>, source_signature: u64) -> bool {
    match previous {
        Some(entry) => entry.source_signature != source_signature,
        None => true,
    }
}

pub fn cell_needs_redraw(previous: Option<FramebufferCellCacheEntry>, source_signature: u64) -> (redraw: bool)
    ensures
        redraw == spec_needs_redraw(previous, source_signature),
{
    match previous {
        Some(entry) => entry.source_signature != source_signature,
        None => true,
    }
}

/// A queued span takes a cell when the cell is the next one of the span's
/// row and has the span's colours.
pub open spec fn spec_span_accepts(span: FramebufferCellSpan, screen_x: usize, screen_y: usize, style: FramebufferCellStyle) -> bool {
    &&& span.y == screen_y
    &&& span.next_x == screen_x
    &&& span.foreground == style.foreground
    &&& span.background == style.background
}

/// The cache slot already shows this style.
pub open spec fn spec_same_style(previous: Option<FramebufferCellCacheEntry>, style: FramebufferCellStyle) -> bool {
    previous matches Some(entry) && entry.style == style
}

/// One cell of a row whose pixels changed: the cache slot takes the new
/// style and fingerprint. A cell that still looks the same closes the
/// queued span (handed back for printing) and prints nothing; otherwise the
/// cell extends the queued span when it can, or the queued span is handed
/// back for printing and a new span starts with the cell.
pub fn framebuffer_cell_step(
    previous: Option<FramebufferCellCacheEntry>,
    source_signature: u64,
    style: FramebufferCellStyle,
    screen_x: usize,
    screen_y: usize,
    queued_span: &mut Option<FramebufferCellSpan>,
) -> (out: (FramebufferCellCacheEntry, Option<FramebufferCellSpan>))
    requires
        spec_needs_redraw(previous, source_signature),
        screen_x < usize::MAX,
        *old(queued_span) matches Some(s) ==> s.next_x < usize::MAX,
    ensures
        out.0 == (FramebufferCellCacheEntry { style, source_signature }),
        spec_same_style(previous, style) ==> out.1 == *old(queued_span) && *final(queued_span) is None,
        !spec_same_style(previous, style) && (*old(queued_span) matches Some(s) && spec_span_accepts(
            s,
            screen_x,
            screen_y,
            style,
        )) ==> {
            &&& out.1 is None
            &&& *final(queued_span) matches Some(t)
            &&& t.glyphs@ == old(queued_span)->Some_0.glyphs@.push(style.glyph)
            &&& t.next_x == screen_x + 1
            &&& t.start_x == old(queued_span)->Some_0.start_x
            &&& t.y == screen_y
            &&& t.foreground == style.foreground
            &&& t.background == style.background
        },
        !spec_same_style(previous, style) && !(*old(queued_span) matches Some(s) && spec_span_accepts(
            s,
            screen_x,
            screen_y,
            style,
        )) ==> {
            &&& out.1 == *old(queued_span)
            &&& *final(queued_span) matches Some(t)
            &&& t.start_x == screen_x
            &&& t.next_x == screen_x + 1
            &&& t.y == screen_y
            &&& t.foreground == style.foreground
            &&& t.background == style.background
            &&& t.glyphs@ == seq![style.glyph]
        },
{
    let entry = style.cache_entry(source_signature);
    let same_style = match previous {
        Some(cached) => cached.style == style,
        None => false,
    };
    let current = queued_span.take();
    if same_style {
        return (entry, current);
    }
    match current {
        Some(mut span) => {
            if span.can_append(screen_x, screen_y, &style) {
                span.push(style.glyph);
                *queued_span = Some(span);
                (entry, None)
            } else {
                *queued_span = Some(FramebufferCellSpan::new(screen_x, screen_y, style));
                (entry, Some(span))
            }
        },
        None => {
            *queued_span = Some(FramebufferCellSpan::new(screen_x, screen_y, style));
            (entry, None)
        },
    }
}

/// An RGB pixel packed as 0x00RRGGBB.
pub open spec fn spec_pack_rgb(pixel: (u8, u8, u8)) -> u64 {
    ((pixel.0 as u64) << 16u64) | ((pixel.1 as u64) << 8u64) | (pixel.2 as u64)
}

/// `value` rotated left by `amount` bits (modulo 64).
pub open spec fn spec_rotate_left(value: u64, amount: u32) -> u64 {
    let k = (amount % 64) as u64;
    if k == 0 {
        value
    } else {
        (value << k) | (value >> (64 - k) as u64)
    }
}

pub fn rotate_left_u64(value: u64, amount: u32) -> (rotated: u64)
    ensures
        rotated == spec_rotate_left(value, amount),
{
    let k = (amount % 64) as u64;
    if k == 0 {
        value
    } else {
        (value << k) | (value >> (64 - k))
    }
}

/// The fingerprint of the first `n` samples: each packed pixel rotated by
/// its index times `rotate_step`, all combined by exclusive or.
pub open spec fn spec_cell_signature(samples: Seq<(u8, u8, u8)>, rotate_step: u32, n: nat) -> u64
    decreases n,
{
    if n == 0 {
        0
    } else {
        spec_cell_signature(samples, rotate_step, (n - 1) as nat) ^ spec_rotate_left(
            spec_pack_rgb(samples[n - 1]),
            ((n - 1) * rotate_step) as u32,
        )
    }
}

/// The fingerprint of the pixels sampled behind a cell.
pub fn cell_signature(samples: &[(u8, u8, u8)], rotate_step: u32) -> (signature: u64)
    requires
        samples@.len() <= u32::MAX,
        samples@.len() * rotate_step <= u32::MAX,
    ensures
        signature == spec_cell_signature(samples@, rotate_step, samples@.len()),
{
    let mut signature: u64 = 0;
    let mut index: usize = 0;
    while index < samples.len()
        invariant
            index <= samples@.len(),
            samples@.len() <= u32::MAX,
            samples@.len() * rotate_step <= u32::MAX,
            signature == spec_cell_signature(samples@, rotate_step, index as nat),
        decreases samples@.len() - index,
    {
        let (red, green, blue) = samples[index];
        let packed = ((red as u64) << 16u64) | ((green as u64) << 8u64) | (blue as u64);
        assert(index * rotate_step <= samples@.len() * rotate_step) by (nonlinear_arith)
            requires
                index <= samples@.len(),
        ;
        let amount = (index as u32) * rotate_step;
        assert(packed == spec_pack_rgb(samples@[index as int]));
        assert(amount == ((index + 1 - 1) * rotate_step) as u32);
        signature = signature ^ rotate_left_u64(packed, amount);
        index = index + 1;
    }
    signature
}

/// Smallest sample of the first `n` (255 when there are none).
pub open spec fn spec_min_sample(samples: Seq<u8>, n: nat) -> u8
    decreases n,
{
    if n == 0 {
        255
    } else {
        let earlier = spec_min_sample(samples, (n - 1) as nat);
        if samples[n - 1] < earlier { samples[n - 1] } else { earlier }
    }
}

/// Largest sample of the first `n` (0 when there are none).
pub open spec fn spec_max_sample(samples: Seq<u8>, n: nat) -> u8
    decreases n,
{
    if n == 0 {
        0
    } else {
        let earlier = spec_max_sample(samples, (n - 1) as nat);
        if samples[n - 1] > earlier { samples[n - 1] } else { earlier }
    }
}

/// Sample grid sizes and the contrast bands that pick one.
#[derive(Clone, Copy, Debug, PartialEq, Eq, Structural)]
pub struct SampleGridTuning {
    pub min_grid: usize,
    pub base_grid: usize,
    pub max_grid: usize,
    pub low_contrast_delta: u8,
    pub high_contrast_delta: u8,
}

/// The sample grids of the renderer: 1, 2 or 3 samples per side, chosen by
/// contrast bands at 8 and 40.
pub fn default_sample_grid_tuning() -> (tuning: SampleGridTuning)
    ensures
        tuning == (SampleGridTuning {
            min_grid: 1,
            base_grid: 2,
            max_grid: 3,
            low_contrast_delta: 8,
            high_contrast_delta: 40,
        }),
{
    SampleGridTuning {
        min_grid: 1,
        base_grid: 2,
        max_grid: 3,
        low_contrast_delta: 8,
        high_contrast_delta: 40,
    }
}

/// The sampling grid of a region: the largest where an edge was found or the
/// probes differ strongly, the smallest where they hardly differ, else the
/// base grid.
pub open spec fn spec_sample_grid(probe_lumas: Seq<u8>, has_edge: bool, tuning: SampleGridTuning) -> usize {
    let max = spec_max_sample(probe_lumas, probe_lumas.len());
    let min = spec_min_sample(probe_lumas, probe_lumas.len());
    let contrast = if max > min { max - min } else { 0 };
    if has_edge {
        tuning.max_grid
    } else if contrast <= tuning.low_contrast_delta {
        tuning.min_grid
    } else if contrast >= tuning.high_contrast_delta {
        tuning.max_grid
    } else {
        tuning.base_grid
    }
}

pub fn adaptive_sample_grid(probe_lumas: &[u8], has_edge: bool, tuning: &SampleGridTuning) -> (grid: usize)
    ensures
        grid == spec_sample_grid(probe_lumas@, has_edge, *tuning),
{
    let mut min_luma: u8 = 255;
    let mut max_luma: u8 = 0;
    let mut k: usize = 0;
    while k < probe_lumas.len()
        invariant
            k <= probe_lumas@.len(),
            min_luma == spec_min_sample(probe_lumas@, k as nat),
            max_luma == spec_max_sample(probe_lumas@, k as nat),
        decreases probe_lumas@.len() - k,
    {
        if probe_lumas[k] < min_luma {
            min_luma = probe_lumas[k];
        }
        if probe_lumas[k] > max_luma {
            max_luma = probe_lumas[k];
        }
        k = k + 1;
    }
    let contrast_delta = if max_luma > min_luma { max_luma - min_luma } else { 0 };
    if has_edge {
        tuning.max_grid
    } else if contrast_delta <= tuning.low_contrast_delta {
        tuning.min_grid
    } else if contrast_delta >= tuning.high_contrast_delta {
        tuning.max_grid
    } else {
        tuning.base_grid
    }
}

/// Sum of channel `channel` over the first `n` samples.
pub open spec fn spec_channel_sum(samples: Seq<(u8, u8, u8)>, channel: int, n: nat) -> int
    decreases n,
{
    if n == 0 {
        0
    } else {
        let pixel = samples[n - 1];
        spec_channel_sum(samples, channel, (n - 1) as nat) + if channel == 0 {
            pixel.0 as int
        } else if channel == 1 {
            pixel.1 as int
        } else {
            pixel.2 as int
        }
    }
}

proof fn lemma_channel_sum_bound(samples: Seq<(u8, u8, u8)>, channel: int, n: nat)
    requires
        n <= samples.len(),
    ensures
        0 <= spec_channel_sum(samples, channel, n) <= 255 * n,
    decreases n,
{
    if n > 0 {
        lemma_channel_sum_bound(samples, channel, (n - 1) as nat);
    }
}

/// The mean of each channel over the samples, rounded down (black when
/// there are none).
pub open spec fn spec_average_rgb(samples: Seq<(u8, u8, u8)>) -> (u8, u8, u8) {
    let count = if samples.len() == 0 { 1 } else { samples.len() as int };
    (
        (spec_channel_sum(samples, 0, samples.len()) / count) as u8,
        (spec_channel_sum(samples, 1, samples.len()) / count) as u8,
        (spec_channel_sum(samples, 2, samples.len()) / count) as u8,
    )
}

pub fn average_rgb(samples: &[(u8, u8, u8)]) -> (average: (u8, u8, u8))
    requires
        samples@.len() * 255 <= u32::MAX,
    ensures
        average == spec_average_rgb(samples@),
{
    let mut red_total: u32 = 0;
    let mut green_total: u32 = 0;
    let mut blue_total: u32 = 0;
    let mut k: usize = 0;
    while k < samples.len()
        invariant
            k <= samples@.len(),
            samples@.len() * 255 <= u32::MAX,
            red_total == spec_channel_sum(samples@, 0, k as nat),
            green_total == spec_channel_sum(samples@, 1, k as nat),
            blue_total == spec_channel_sum(samples@, 2, k as nat),
        decreases samples@.len() - k,
    {
        proof {
            lemma_channel_sum_bound(samples@, 0, k as nat);
            lemma_channel_sum_bound(samples@, 1, k as nat);
            lemma_channel_sum_bound(samples@, 2, k as nat);
        }
        let (red, green, blue) = samples[k];
        red_total = red_total + red as u32;
        green_total = green_total + green as u32;
        blue_total = blue_total + blue as u32;
        k = k + 1;
    }
    let count: u32 = if samples.len() == 0 { 1 } else { samples.len() as u32 };
    proof {
        lemma_channel_sum_bound(samples@, 0, samples@.len());
        lemma_channel_sum_bound(samples@, 1, samples@.len());
        lemma_channel_sum_bound(samples@, 2, samples@.len());
        let n = samples@.len() as int;
        if n > 0 {
            assert(red_total / (n as u32) <= 255) by {
                vstd::arithmetic::div_mod::lemma_multiply_divide_le(red_total as int, n, 255);
            }
            assert(green_total / (n as u32) <= 255) by {
                vstd::arithmetic::div_mod::lemma_multiply_divide_le(green_total as int, n, 255);
            }
            assert(blue_total / (n as u32) <= 255) by {
                vstd::arithmetic::div_mod::lemma_multiply_divide_le(blue_total as int, n, 255);
            }
        }
    }
    ((red_total / count) as u8, (green_total / count) as u8, (blue_total / count) as u8)
}

/// Where a frame is drawn: its size in cells and its offset on screen.
#[derive(Clone, Copy, Debug, PartialEq, Eq, Structural)]
pub struct FramebufferViewport {
    pub width: usize,
    pub height: usize,
    pub offset_x: usize,
    pub offset_y: usize,
}

/// The viewport a cell cache was filled for.
#[derive(Clone, Copy, Debug, PartialEq, Eq, Structural)]
pub struct FramebufferViewportSignature {
    pub width: usize,
    pub height: usize,
    pub offset_x: usize,
    pub offset_y: usize,
}

pub fn viewport_signature(viewport: FramebufferViewport) -> (signature: FramebufferViewportSignature)
    ensures
        signature.width == viewport.width,
        signature.height == viewport.height,
        signature.offset_x == viewport.offset_x,
        signature.offset_y == viewport.offset_y,
{
    FramebufferViewportSignature {
        width: viewport.width,
        height: viewport.height,
        offset_x: viewport.offset_x,
        offset_y: viewport.offset_y,
    }
}

pub struct FramebufferCacheCheckParams {
    pub cols: u16,
    pub rows: u16,
    pub cache_cols: u16,
    pub cache_rows: u16,
    pub cache_len: usize,
    pub cached_signature: Option<FramebufferViewportSignature>,
    pub viewport: FramebufferViewport,
}

/// The cell cache is rebuilt when the terminal size, the viewport or the
/// cache length no longer match.
pub fn should_rebuild_framebuffer_cache(params: FramebufferCacheCheckParams) -> (rebuild: bool)
    ensures
        rebuild == (params.cache_cols != params.cols || params.cache_rows != params.rows
            || params.cached_signature != Some(
            FramebufferViewportSignature {
                width: params.viewport.width,
                height: params.viewport.height,
                offset_x: params.viewport.offset_x,
                offset_y: params.viewport.offset_y,
            },
        ) || params.cache_len != params.cols * params.rows),
{
    let signature = viewport_signature(params.viewport);
    assert(params.cols * params.rows <= 0xffff * 0xffff) by (nonlinear_arith)
        requires
            params.cols <= 0xffff,
            params.rows <= 0xffff,
    ;
    let cache_size = params.cols as usize * params.rows as usize;
    let shape_changed = params.cache_cols != params.cols || params.cache_rows != params.rows;
    let viewport_changed = match params.cached_signature {
        Some(cached) => cached != signature,
        None => true,
    };
    shape_changed || viewport_changed || params.cache_len != cache_size
}

/// The cache slot of screen cell (`x`, `y`) on a screen `cols` wide.
pub fn framebuffer_cache_index(cols: u16, x: usize, y: usize) -> (index: usize)
    requires
        y * cols + x <= usize::MAX,
    ensures
        index == y * cols + x,
{
    y * (cols as usize) + x
}

/// Bytes of a `width` x `height` RGB frame, if that fits in memory sizes.
pub fn framebuffer_required_len(source_width: usize, source_height: usize) -> (len: Option<usize>)
    ensures
        match len {
            Some(n) => n == source_width * source_height * 3,
            None => source_width * source_height * 3 > usize::MAX,
        },
{
    match source_width.checked_mul(source_height) {
        Some(pixels) => {
            let len = pixels.checked_mul(3);
            len
        },
        None => {
            proof {
                assert(source_width * source_height * 3 > usize::MAX) by (nonlinear_arith)
                    requires
                        source_width * source_height > usize::MAX,
                ;
            }
            None
        },
    }
}

/// A frame to draw: `source_width` x `source_height` RGB pixels, row by row.
pub struct DrawFramebufferParams<'a> {
    pub rgb: &'a [u8],
    pub source_width: usize,
    pub source_height: usize,
}

/// Why a frame cannot be drawn.
#[derive(Clone, Copy, Debug, PartialEq, Eq, Structural)]
pub enum FramebufferError {
    /// The frame size overflows.
    Overflow,
    /// The frame holds fewer bytes than its size needs.
    Size,
    /// The frame or the viewport has no area.
    InvalidDimensions,
}

#[derive(Clone, Copy, Debug)]
pub struct FramebufferValidationParams {
    pub rgb_len: usize,
    pub required_len: usize,
    pub target_width: usize,
    pub target_height: usize,
    pub source_width: usize,
    pub source_height: usize,
}

/// A frame is drawable when it holds the bytes its size needs and both it
/// and the viewport have an area; a short frame is reported first.
pub fn validate_framebuffer(params: FramebufferValidationParams) -> (result: Result<(), FramebufferError>)
    ensures
        params.rgb_len < params.required_len ==> result == Err::<(), FramebufferError>(
            FramebufferError::Size,
        ),
        params.rgb_len >= params.required_len && !(params.target_width > 0 && params.target_height
            > 0 && params.source_width > 0 && params.source_height > 0) ==> result == Err::<
            (),
            FramebufferError,
        >(FramebufferError::InvalidDimensions),
        params.rgb_len >= params.required_len && params.target_width > 0 && params.target_height > 0
            && params.source_width > 0 && params.source_height > 0 ==> result is Ok,
{
    let FramebufferValidationParams {
        rgb_len,
        required_len,
        target_width,
        target_height,
        source_width,
        source_height,
    } = params;
    if rgb_len < required_len {
        return Err(FramebufferError::Size);
    }
    let target_dims_valid = target_width > 0 && target_height > 0;
    let source_dims_valid = source_width > 0 && source_height > 0;
    if !(target_dims_valid && source_dims_valid) {
        return Err(FramebufferError::InvalidDimensions);
    }
    Ok(())
}

/// The checks before a frame is drawn, in order: a size that overflows,
/// then a frame with fewer bytes than its size needs, then a frame or
/// viewport without area. On success, the number of bytes the frame needs.
pub open spec fn spec_check_framebuffer(
    rgb_len: int,
    source_width: int,
    source_height: int,
    viewport: FramebufferViewport,
) -> Result<int, FramebufferError> {
    let required = source_width * source_height * 3;
    if required > usize::MAX {
        Err(FramebufferError::Overflow)
    } else if rgb_len < required {
        Err(FramebufferError::Size)
    } else if !(viewport.width > 0 && viewport.height > 0 && source_width > 0 && source_height
        > 0) {
        Err(FramebufferError::InvalidDimensions)
    } else {
        Ok(required)
    }
}

pub fn check_framebuffer(params: &DrawFramebufferParams<'_>, viewport: FramebufferViewport) -> (result: Result<usize, FramebufferError>)
    ensures
        match spec_check_framebuffer(
            params.rgb@.len() as int,
            params.source_width as int,
            params.source_height as int,
            viewport,
        ) {
            Ok(required) => result matches Ok(n) && n == required,
            Err(error) => result == Err::<usize, FramebufferError>(error),
        },
{
    let required_len = match framebuffer_required_len(params.source_width, params.source_height) {
        Some(len) => len,
        None => return Err(FramebufferError::Overflow),
    };
    match validate_framebuffer(
        FramebufferValidationParams {
            rgb_len: params.rgb.len(),
            required_len,
            target_width: viewport.width,
            target_height: viewport.height,
            source_width: params.source_width,
            source_height: params.source_height,
        },
    ) {
        Ok(()) => Ok(required_len),
        Err(error) => Err(error),
    }
}

} // verus!

verus! {

/// Blending is symmetric, and blending a colour with itself keeps it.
pub proof fn law_blend_symmetric_and_idempotent(a: ToneMappedColor, b: ToneMappedColor)
    ensures
        spec_blend(a, b) == spec_blend(b, a),
        spec_blend(a, a) == a,
{
}

/// A density cell always draws the brighter half as foreground.
pub proof fn law_density_cell_brighter_foreground(
    weights: LumaWeights,
    upper: ToneMappedColor,
    lower: ToneMappedColor,
)
    ensures
        ({
            let style = spec_density_cell(
                upper,
                lower,
                spec_luma(weights, upper.red, upper.green, upper.blue),
                spec_luma(weights, lower.red, lower.green, lower.blue),
            );
            spec_luma(weights, style.foreground.red, style.foreground.green, style.foreground.blue)
                >= spec_luma(
                weights,
                style.background.red,
                style.background.green,
                style.background.blue,
            )
        }),
{
}

/// A cell is solid or an upper half block unless it is drawn with the
/// density glyph; a solid cell has one colour for both halves, an upper
/// half block keeps the two colours as they are.
pub proof fn law_cell_style_shapes(
    weights: LumaWeights,
    thresholds: GlyphThresholds,
    upper: ToneMappedColor,
    lower: ToneMappedColor,
    previous: Option<CellGlyph>,
)
    ensures
        ({
            let style = spec_cell_style(weights, thresholds, upper, lower, previous);
            &&& style.glyph == CellGlyph::Solid ==> style.foreground == style.background
                && style.foreground == spec_blend(upper, lower)
            &&& style.glyph == CellGlyph::UpperHalf ==> style.foreground == upper
                && style.background == lower
            &&& style.glyph == CellGlyph::DensityHeavy ==> (style.foreground == upper
                && style.background == lower) || (style.foreground == lower && style.background
                == upper)
        }),
{
}

/// Without a previous glyph, a cell whose halves differ by no more than the
/// flat threshold is solid.
pub proof fn law_flat_cells_are_solid(
    weights: LumaWeights,
    thresholds: GlyphThresholds,
    upper: ToneMappedColor,
    lower: ToneMappedColor,
)
    requires
        spec_color_delta(upper, lower) <= thresholds.flat_cell,
    ensures
        spec_cell_style(weights, thresholds, upper, lower, None) == spec_solid_blended_cell(
            upper,
            lower,
        ),
{
}

/// The edge strength of a grid is the largest neighbour distance: no
/// sample differs from an existing grid neighbour by more.
pub proof fn law_max_local_diff_bounds_neighbors(samples: Seq<u8>, index: int, k: int)
    requires
        0 <= index < samples.len(),
        0 <= k < 4,
        (spec_grid_neighbors(index, samples.len() as int)[k] as int) < samples.len(),
    ensures
        abs_diff(samples[index] as int, samples[spec_grid_neighbors(index, samples.len() as int)[k] as int] as int)
            <= spec_max_local_diff_upto(samples, samples.len()),
{
    lemma_neighbor_diff_at_least(samples, index, spec_grid_neighbors(index, samples.len() as int), (k + 1) as nat, k);
    lemma_neighbor_diff_monotone(samples, spec_grid_neighbors(index, samples.len() as int), index, 4);
    lemma_max_local_diff_at_least(samples, samples.len(), index);
}

proof fn lemma_neighbor_diff_at_least(samples: Seq<u8>, index: int, neighbors: Seq<usize>, n: nat, k: int)
    requires
        0 <= k < n <= neighbors.len(),
        (neighbors[k] as int) < samples.len(),
    ensures
        abs_diff(samples[index] as int, samples[neighbors[k] as int] as int)
            <= spec_neighbor_diff_upto(samples, index, neighbors, n),
    decreases n,
{
    if k < n - 1 {
        lemma_neighbor_diff_at_least(samples, index, neighbors, (n - 1) as nat, k);
    }
}

proof fn lemma_neighbor_diff_monotone(samples: Seq<u8>, neighbors: Seq<usize>, index: int, n: nat)
    requires
        n <= neighbors.len(),
    ensures
        forall|m: nat|
            m <= n ==> #[trigger] spec_neighbor_diff_upto(samples, index, neighbors, m)
                <= spec_neighbor_diff_upto(samples, index, neighbors, n),
    decreases n,
{
    if n > 0 {
        lemma_neighbor_diff_monotone(samples, neighbors, index, (n - 1) as nat);
    }
}

proof fn lemma_max_local_diff_at_least(samples: Seq<u8>, n: nat, index: int)
    requires
        0 <= index < n,
    ensures
        spec_neighbor_diff(samples, index, spec_grid_neighbors(index, samples.len() as int))
            <= spec_max_local_diff_upto(samples, n),
    decreases n,
{
    if index < n - 1 {
        lemma_max_local_diff_at_least(samples, (n - 1) as nat, index);
    }
}

} // verus!

verus! {

/// A cell whose pixels have not changed since it was drawn is not drawn
/// again; a changed fingerprint, or an empty cache slot, redraws it.
pub proof fn law_unchanged_cells_are_not_redrawn(style: FramebufferCellStyle, drawn_from: u64, now: u64)
    ensures
        spec_needs_redraw(
            Some(FramebufferCellCacheEntry { style, source_signature: drawn_from }),
            now,
        ) == (drawn_from != now),
        spec_needs_redraw(None, now),
{
}

} // verus!

verus! {

proof fn lemma_neighbor_diff_attained(samples: Seq<u8>, index: int, neighbors: Seq<usize>, n: nat)
    requires
        n <= neighbors.len(),
        spec_neighbor_diff_upto(samples, index, neighbors, n) > 0,
    ensures
        exists|k: int|
            0 <= k < n && (neighbors[k] as int) < samples.len() && #[trigger] abs_diff(
                samples[index] as int,
                samples[neighbors[k] as int] as int,
            ) == spec_neighbor_diff_upto(samples, index, neighbors, n),
    decreases n,
{
    let earlier = spec_neighbor_diff_upto(samples, index, neighbors, (n - 1) as nat);
    let neighbor = neighbors[n - 1] as int;
    if neighbor < samples.len() && abs_diff(samples[index] as int, samples[neighbor] as int)
        > earlier {
        assert(abs_diff(samples[index] as int, samples[neighbors[n - 1] as int] as int)
            == spec_neighbor_diff_upto(samples, index, neighbors, n));
    } else {
        lemma_neighbor_diff_attained(samples, index, neighbors, (n - 1) as nat);
        let k = choose|k: int|
            0 <= k < n - 1 && (neighbors[k] as int) < samples.len() && #[trigger] abs_diff(
                samples[index] as int,
                samples[neighbors[k] as int] as int,
            ) == earlier;
        assert(0 <= k < n);
    }
}

/// A non-zero edge strength is the distance of some sample to one of its
/// existing grid neighbours.
pub proof fn law_max_local_diff_is_attained(samples: Seq<u8>, n: nat)
    requires
        n <= samples.len(),
        spec_max_local_diff_upto(samples, n) > 0,
    ensures
        exists|index: int, k: int|
            0 <= index < n && 0 <= k < 4 && (spec_grid_neighbors(index, samples.len() as int)[k] as int) < samples.len()
                && #[trigger] abs_diff(
                samples[index] as int,
                samples[spec_grid_neighbors(index, samples.len() as int)[k] as int] as int,
            ) == spec_max_local_diff_upto(samples, n),
    decreases n,
{
    let earlier = spec_max_local_diff_upto(samples, (n - 1) as nat);
    let here = spec_neighbor_diff(samples, n - 1, spec_grid_neighbors(n - 1, samples.len() as int));
    if here > earlier {
        lemma_neighbor_diff_attained(samples, n - 1, spec_grid_neighbors(n - 1, samples.len() as int), 4);
        let k = choose|k: int|
            0 <= k < 4 && (spec_grid_neighbors(n - 1, samples.len() as int)[k] as int) < samples.len() && #[trigger] abs_diff(
                samples[n - 1] as int,
                samples[spec_grid_neighbors(n - 1, samples.len() as int)[k] as int] as int,
            ) == here;
        assert(abs_diff(
            samples[n - 1] as int,
            samples[spec_grid_neighbors(n - 1, samples.len() as int)[k] as int] as int,
        ) == spec_max_local_diff_upto(samples, n));
    } else {
        law_max_local_diff_is_attained(samples, (n - 1) as nat);
        let (index, k) = choose|index: int, k: int|
            0 <= index < n - 1 && 0 <= k < 4 && (spec_grid_neighbors(index, samples.len() as int)[k] as int)
                < samples.len() && #[trigger] abs_diff(
                samples[index] as int,
                samples[spec_grid_neighbors(index, samples.len() as int)[k] as int] as int,
            ) == earlier;
        assert(0 <= index < n);
    }
}

/// Cells of one row that follow each other with the same colours are
/// batched: a span started by one cell accepts the next cell to its right
/// when that cell has the same colours, whatever its glyph.
pub proof fn law_adjacent_same_colour_cells_share_a_span(
    span: FramebufferCellSpan,
    first: FramebufferCellStyle,
    next: FramebufferCellStyle,
    screen_x: usize,
    screen_y: usize,
)
    requires
        span.next_x == screen_x + 1,
        span.y == screen_y,
        span.foreground == first.foreground,
        span.background == first.background,
        next.foreground == first.foreground,
        next.background == first.background,
        screen_x + 1 <= usize::MAX,
    ensures
        spec_span_accepts(span, (screen_x + 1) as usize, screen_y, next),
{
}

} // verus!

verus! {

/// The edge strength of a grid is the largest distance between a sample
/// and a sample one or three places before or after it (zero for no
/// samples): no such pair differs by more, and a non-zero strength is the
/// distance of one such pair.
pub proof fn law_max_local_diff_is_neighbour_maximum(samples: Seq<u8>)
    requires
        samples.len() <= usize::MAX,
    ensures
        samples.len() == 0 ==> spec_max_local_diff_upto(samples, samples.len()) == 0,
        forall|i: int, j: int|
            #![trigger samples[i], samples[j]]
            0 <= i < samples.len() && 0 <= j < samples.len() && (j == i - 1 || j == i + 1 || j
                == i - 3 || j == i + 3) ==> abs_diff(samples[i] as int, samples[j] as int)
                <= spec_max_local_diff_upto(samples, samples.len()),
        spec_max_local_diff_upto(samples, samples.len()) > 0 ==> exists|i: int, j: int|
            #![trigger samples[i], samples[j]]
            0 <= i < samples.len() && 0 <= j < samples.len() && (j == i - 1 || j == i + 1 || j
                == i - 3 || j == i + 3) && abs_diff(samples[i] as int, samples[j] as int)
                == spec_max_local_diff_upto(samples, samples.len()),
{
    let n = samples.len();
    assert forall|i: int, j: int|
        #![trigger samples[i], samples[j]]
        0 <= i < n && 0 <= j < n && (j == i - 1 || j == i + 1 || j == i - 3 || j == i + 3) implies abs_diff(
        samples[i] as int,
        samples[j] as int,
    ) <= spec_max_local_diff_upto(samples, n) by {
        let k = if j == i - 1 {
            0int
        } else if j == i + 1 {
            1int
        } else if j == i - 3 {
            2int
        } else {
            3int
        };
        assert(spec_grid_neighbors(i, samples.len() as int)[k] as int == j);
        law_max_local_diff_bounds_neighbors(samples, i, k);
    }
    if spec_max_local_diff_upto(samples, n) > 0 {
        law_max_local_diff_is_attained(samples, n);
        let (i, k) = choose|i: int, k: int|
            0 <= i < n && 0 <= k < 4 && (spec_grid_neighbors(i, samples.len() as int)[k] as int) < samples.len()
                && #[trigger] abs_diff(
                samples[i] as int,
                samples[spec_grid_neighbors(i, samples.len() as int)[k] as int] as int,
            ) == spec_max_local_diff_upto(samples, n);
        let j = spec_grid_neighbors(i, samples.len() as int)[k] as int;
        assert(j == i - 1 || j == i + 1 || j == i - 3 || j == i + 3);
        assert(0 <= j < n && abs_diff(samples[i] as int, samples[j] as int)
            == spec_max_local_diff_upto(samples, n));
    }
}

} // verus!

verus! {

proof fn lemma_weighted_difference(weights: LumaWeights, a: ToneMappedColor, b: ToneMappedColor)
    requires
        weights.red + weights.green + weights.blue <= weights.divisor,
    ensures
        (a.red * weights.red + a.green * weights.green + a.blue * weights.blue) - (b.red
            * weights.red + b.green * weights.green + b.blue * weights.blue) <= weights.divisor
            * spec_color_delta(a, b),
{
    let dr = a.red - b.red;
    let dg = a.green - b.green;
    let db = a.blue - b.blue;
    let cd = spec_color_delta(a, b);
    assert(dr <= cd && dg <= cd && db <= cd);
    assert(dr * weights.red <= cd * weights.red) by (nonlinear_arith)
        requires
            dr <= cd,
            weights.red >= 0,
    ;
    assert(dg * weights.green <= cd * weights.green) by (nonlinear_arith)
        requires
            dg <= cd,
            weights.green >= 0,
    ;
    assert(db * weights.blue <= cd * weights.blue) by (nonlinear_arith)
        requires
            db <= cd,
            weights.blue >= 0,
    ;
    assert(cd * weights.red + cd * weights.green + cd * weights.blue <= weights.divisor * cd)
        by (nonlinear_arith)
        requires
            cd >= 0,
            weights.red + weights.green + weights.blue <= weights.divisor,
    ;
    assert((a.red * weights.red + a.green * weights.green + a.blue * weights.blue) - (b.red
        * weights.red + b.green * weights.green + b.blue * weights.blue) == dr * weights.red + dg
        * weights.green + db * weights.blue) by (nonlinear_arith)
        requires
            dr == a.red - b.red,
            dg == a.green - b.green,
            db == a.blue - b.blue,
    ;
}

proof fn lemma_quotient_difference(x: int, y: int, d: int, bound: int)
    requires
        d > 0,
        x - y <= d * bound,
        x >= 0,
        y >= 0,
    ensures
        x / d - y / d <= bound,
{
    vstd::arithmetic::div_mod::lemma_fundamental_div_mod(x, d);
    vstd::arithmetic::div_mod::lemma_fundamental_div_mod(y, d);
    let qx = x / d;
    let qy = y / d;
    let rx = x % d;
    let ry = y % d;
    assert(d * (qx - qy) < d * (bound + 1)) by (nonlinear_arith)
        requires
            x == d * qx + rx,
            y == d * qy + ry,
            0 <= rx < d,
            0 <= ry < d,
            x - y <= d * bound,
    ;
    assert(qx - qy < bound + 1) by (nonlinear_arith)
        requires
            d * (qx - qy) < d * (bound + 1),
            d > 0,
    ;
}

/// With luma weights that average the channels (they sum to at most the
/// divisor), the luma contrast of two colours never exceeds their colour
/// distance.
pub proof fn law_luma_contrast_within_colour_distance(
    weights: LumaWeights,
    upper: ToneMappedColor,
    lower: ToneMappedColor,
)
    requires
        weights.is_valid(),
        weights.red + weights.green + weights.blue <= weights.divisor,
    ensures
        abs_diff(
            spec_luma(weights, upper.red, upper.green, upper.blue),
            spec_luma(weights, lower.red, lower.green, lower.blue),
        ) <= spec_color_delta(upper, lower),
{
    lemma_weighted_sum_bound(weights, upper.red, upper.green, upper.blue);
    lemma_weighted_sum_bound(weights, lower.red, lower.green, lower.blue);
    lemma_weighted_difference(weights, upper, lower);
    lemma_weighted_difference(weights, lower, upper);
    assert(spec_color_delta(upper, lower) == spec_color_delta(lower, upper));
    let su = upper.red * weights.red + upper.green * weights.green + upper.blue * weights.blue;
    let sl = lower.red * weights.red + lower.green * weights.green + lower.blue * weights.blue;
    lemma_quotient_difference(su, sl, weights.divisor as int, spec_color_delta(upper, lower));
    lemma_quotient_difference(sl, su, weights.divisor as int, spec_color_delta(upper, lower));
}

/// Hysteresis never holds a cell past its slack: whatever glyph a cell had
/// before, once its luma contrast reaches the half-block threshold plus the
/// luma slack it is drawn as an upper half block, its upper colour over
/// its lower one. (The thresholds must order the bands as the renderer's
/// do: density cells below the half-block contrast, flat cells below the
/// half-block contrast plus slack.)
pub proof fn law_strong_luma_contrast_is_upper_half(
    weights: LumaWeights,
    thresholds: GlyphThresholds,
    upper: ToneMappedColor,
    lower: ToneMappedColor,
    previous: Option<CellGlyph>,
)
    requires
        weights.is_valid(),
        weights.red + weights.green + weights.blue <= weights.divisor,
        thresholds.density_luma_max < thresholds.half_block_luma,
        thresholds.flat_cell < thresholds.half_block_luma + thresholds.hysteresis_luma,
        abs_diff(
            spec_luma(weights, upper.red, upper.green, upper.blue),
            spec_luma(weights, lower.red, lower.green, lower.blue),
        ) >= thresholds.half_block_luma + thresholds.hysteresis_luma,
    ensures
        spec_cell_style(weights, thresholds, upper, lower, previous) == (FramebufferCellStyle {
            foreground: upper,
            background: lower,
            glyph: CellGlyph::UpperHalf,
        }),
{
    law_luma_contrast_within_colour_distance(weights, upper, lower);
}

/// The renderer's own weights and thresholds order the bands so that a
/// strong luma contrast always gives an upper half block.
pub proof fn law_default_bands_are_ordered()
    ensures
        ({
            let w = LumaWeights { red: 77, green: 150, blue: 29, divisor: 256 };
            let t = GlyphThresholds {
                flat_cell: 12,
                soft_blend_cell: 96,
                half_block_luma: 24,
                density_luma_max: 16,
                heavy_density_chroma: 120,
                hysteresis_luma: 4,
                hysteresis_chroma: 12,
            };
            &&& w.is_valid()
            &&& w.red + w.green + w.blue <= w.divisor
            &&& t.density_luma_max < t.half_block_luma
            &&& t.flat_cell < t.half_block_luma + t.hysteresis_luma
        }),
{
}

/// A previous glyph matters only within its own slack: outside the
/// hysteresis band of the glyph a cell had, the cell is drawn as if it had
/// none. An upper half block is dropped once the luma contrast falls below
/// the half-block threshold minus the slack; a density block once the luma
/// contrast passes the density maximum plus the slack or the colour
/// distance falls below the density chroma minus the slack; a solid block
/// once the colour distance passes the soft-blend threshold plus the slack
/// or the luma contrast reaches the half-block threshold plus the slack.
pub proof fn law_previous_glyph_only_within_slack(
    weights: LumaWeights,
    thresholds: GlyphThresholds,
    upper: ToneMappedColor,
    lower: ToneMappedColor,
    previous: CellGlyph,
)
    requires
        ({
            let luma = abs_diff(
                spec_luma(weights, upper.red, upper.green, upper.blue),
                spec_luma(weights, lower.red, lower.green, lower.blue),
            );
            let color = spec_color_delta(upper, lower);
            match previous {
                CellGlyph::UpperHalf => luma + thresholds.hysteresis_luma
                    < thresholds.half_block_luma,
                CellGlyph::DensityHeavy => luma > thresholds.density_luma_max
                    + thresholds.hysteresis_luma || color + thresholds.hysteresis_chroma
                    < thresholds.heavy_density_chroma,
                CellGlyph::Solid => color > thresholds.soft_blend_cell
                    + thresholds.hysteresis_chroma || luma >= thresholds.half_block_luma
                    + thresholds.hysteresis_luma,
            }
        }),
    ensures
        spec_cell_style(weights, thresholds, upper, lower, Some(previous)) == spec_cell_style(
            weights,
            thresholds,
            upper,
            lower,
            None,
        ),
{
}

} // verus!
