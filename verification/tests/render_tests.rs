use doom_terminal::render::{
    adaptive_sample_grid, average_rgb, cell_needs_redraw, cell_signature, rotate_left_u64,
    SampleGridTuning, calculate_max_local_diff, compare_with_neighbors, framebuffer_cache_index,
    framebuffer_cell_style, framebuffer_required_len, should_rebuild_framebuffer_cache,
    validate_framebuffer, check_framebuffer, DrawFramebufferParams, CellGlyph, FramebufferCacheCheckParams, FramebufferCellSpan,
    FramebufferCellStyle, FramebufferCellStyleParams, FramebufferError,
    FramebufferValidationParams, FramebufferViewport, FramebufferViewportSignature,
    ToneMappedColor, default_glyph_thresholds, default_luma_weights, default_sample_grid_tuning,
    framebuffer_cell_step, region_has_edge, approximate_luma, FRAMEBUFFER_SIGNATURE_ROTATE_STEP_BITS,
};

fn color(red: u8, green: u8, blue: u8) -> ToneMappedColor {
    ToneMappedColor { red, green, blue }
}

fn style(upper: ToneMappedColor, lower: ToneMappedColor, previous: Option<CellGlyph>) -> FramebufferCellStyle {
    framebuffer_cell_style(FramebufferCellStyleParams {
        upper_color: upper,
        lower_color: lower,
        previous_glyph: previous,
        weights: default_luma_weights(),
        thresholds: default_glyph_thresholds(),
    })
}

#[test]
fn framebuffer_cell_style_uses_solid_for_flat_cells() {
    let cell = style(color(100, 110, 120), color(102, 112, 121), None);
    assert_eq!(cell.glyph, CellGlyph::Solid);
    assert_eq!(cell.foreground, color(101, 111, 120));
    assert_eq!(cell.background, cell.foreground);
}

#[test]
fn framebuffer_cell_style_uses_solid_for_soft_mid_contrast_cells() {
    let cell = style(color(120, 120, 120), color(132, 136, 140), None);
    assert_eq!(cell.glyph, CellGlyph::Solid);
}

#[test]
fn framebuffer_cell_style_uses_density_glyph_for_stronger_mid_contrast_cells() {
    let cell = style(color(160, 100, 100), color(80, 115, 145), None);
    assert_eq!(cell.glyph, CellGlyph::DensityHeavy);
    assert_eq!(cell.foreground, color(160, 100, 100));
    assert_eq!(cell.background, color(80, 115, 145));
}

#[test]
fn framebuffer_cell_style_prefers_solid_over_density_for_general_mid_contrast_cells() {
    let cell = style(color(110, 110, 110), color(128, 134, 138), None);
    assert_eq!(cell.glyph, CellGlyph::Solid);
}

#[test]
fn framebuffer_cell_style_keeps_upper_half_for_high_contrast_cells() {
    let cell = style(color(20, 24, 28), color(220, 224, 228), None);
    assert_eq!(cell.glyph, CellGlyph::UpperHalf);
    assert_eq!(cell.foreground, color(20, 24, 28));
    assert_eq!(cell.background, color(220, 224, 228));
}

#[test]
fn framebuffer_cell_style_prefers_upper_half_for_luminance_split_cells() {
    let cell = style(color(62, 66, 70), color(86, 90, 94), None);
    assert_eq!(cell.glyph, CellGlyph::UpperHalf);
}

#[test]
fn framebuffer_cell_style_keeps_previous_upper_half_near_threshold() {
    let cell = style(color(92, 96, 100), color(112, 116, 120), Some(CellGlyph::UpperHalf));
    assert_eq!(cell.glyph, CellGlyph::UpperHalf);
}

#[test]
fn framebuffer_cell_style_keeps_previous_solid_near_threshold() {
    let cell = style(color(110, 110, 110), color(126, 130, 134), Some(CellGlyph::Solid));
    assert_eq!(cell.glyph, CellGlyph::Solid);
}

#[test]
fn blend_takes_the_rounded_down_mean() {
    assert_eq!(color(10, 255, 0).blend(color(11, 255, 1)), color(10, 255, 0));
    assert_eq!(ToneMappedColor::new(1, 2, 3), color(1, 2, 3));
}

#[test]
fn max_local_diff_compares_grid_neighbours() {
    let flat = [50u8; 9];
    assert_eq!(calculate_max_local_diff(&flat), 0);
    let mut edge = [10u8; 9];
    edge[4] = 200;
    assert_eq!(calculate_max_local_diff(&edge), 190);
    assert_eq!(compare_with_neighbors(&[5, 9, 1], 1, &[0, 2, usize::MAX]), 8);
}

#[test]
fn spans_grow_only_with_adjacent_equal_cells() {
    let cell = FramebufferCellStyle {
        foreground: color(1, 2, 3),
        background: color(4, 5, 6),
        glyph: CellGlyph::UpperHalf,
    };
    let mut span = FramebufferCellSpan::new(3, 7, cell);
    assert!(span.can_append(4, 7, &cell));
    assert!(!span.can_append(5, 7, &cell));
    assert!(!span.can_append(4, 8, &cell));
    let other = FramebufferCellStyle {
        background: color(0, 0, 0),
        ..cell
    };
    assert!(!span.can_append(4, 7, &other));
    span.push(CellGlyph::Solid);
    assert_eq!(span.next_x, 5);
    assert_eq!(span.glyphs, vec![CellGlyph::UpperHalf, CellGlyph::Solid]);
}

#[test]
fn framebuffer_validation_reports_each_error() {
    let ok = FramebufferValidationParams {
        rgb_len: 12,
        required_len: 12,
        target_width: 2,
        target_height: 1,
        source_width: 2,
        source_height: 2,
    };
    assert_eq!(validate_framebuffer(ok), Ok(()));
    assert_eq!(
        validate_framebuffer(FramebufferValidationParams { rgb_len: 11, ..ok }),
        Err(FramebufferError::Size)
    );
    assert_eq!(
        validate_framebuffer(FramebufferValidationParams { target_height: 0, ..ok }),
        Err(FramebufferError::InvalidDimensions)
    );
    assert_eq!(framebuffer_required_len(320, 200), Some(192_000));
    assert_eq!(framebuffer_required_len(usize::MAX, 2), None);
}

#[test]
fn cell_cache_is_rebuilt_when_shape_or_viewport_changes() {
    let viewport = FramebufferViewport {
        width: 80,
        height: 20,
        offset_x: 0,
        offset_y: 0,
    };
    let signature = FramebufferViewportSignature {
        width: 80,
        height: 20,
        offset_x: 0,
        offset_y: 0,
    };
    let params = || FramebufferCacheCheckParams {
        cols: 80,
        rows: 24,
        cache_cols: 80,
        cache_rows: 24,
        cache_len: 80 * 24,
        cached_signature: Some(signature),
        viewport,
    };
    assert!(!should_rebuild_framebuffer_cache(params()));
    assert!(should_rebuild_framebuffer_cache(FramebufferCacheCheckParams {
        cols: 81,
        ..params()
    }));
    assert!(should_rebuild_framebuffer_cache(FramebufferCacheCheckParams {
        cached_signature: None,
        ..params()
    }));
    assert!(should_rebuild_framebuffer_cache(FramebufferCacheCheckParams {
        cache_len: 0,
        ..params()
    }));
    assert_eq!(framebuffer_cache_index(80, 3, 2), 163);
}

const GRID: SampleGridTuning = SampleGridTuning {
    min_grid: 1,
    base_grid: 2,
    max_grid: 3,
    low_contrast_delta: 8,
    high_contrast_delta: 40,
};

#[test]
fn coarse_signature_changes_when_sampled_pixels_change() {
    // The samples behind a cell of a black 4x4 frame, before and after its
    // first pixel turns red.
    let base = [(0u8, 0u8, 0u8); 4];
    let mut changed = base;
    changed[0] = (255, 0, 0);
    let base_signature = cell_signature(&base, FRAMEBUFFER_SIGNATURE_ROTATE_STEP_BITS);
    let changed_signature = cell_signature(&changed, FRAMEBUFFER_SIGNATURE_ROTATE_STEP_BITS);
    assert_ne!(base_signature, changed_signature);
}

#[test]
fn cell_signature_rotates_each_sample() {
    let base = [(0u8, 0u8, 0u8); 4];
    let mut changed = base;
    changed[0] = (255, 0, 0);
    assert_eq!(cell_signature(&base, 16), 0);
    assert_eq!(cell_signature(&changed, 16), 0xff_0000);
    let mut later = base;
    later[1] = (0, 0, 1);
    assert_eq!(cell_signature(&later, 16), 1 << 16);
    assert_eq!(rotate_left_u64(1 << 63, 1), 1);
    assert_eq!(rotate_left_u64(5, 64), 5);
}

fn luma(red: u8, green: u8, blue: u8) -> u8 {
    approximate_luma(&default_luma_weights(), red, green, blue)
}

#[test]
fn adaptive_sample_count_returns_min_for_low_contrast_region() {
    // Every pixel of the frame is (64, 64, 64).
    let edge_grid = [luma(64, 64, 64); 9];
    let probes = [luma(64, 64, 64); 4];
    let sample_count =
        adaptive_sample_grid(&probes, region_has_edge(&edge_grid), &default_sample_grid_tuning());
    assert_eq!(sample_count, default_sample_grid_tuning().min_grid);
}

#[test]
fn adaptive_sample_count_returns_max_for_high_contrast_region() {
    // A black 4x4 frame whose bottom-right pixel is white: the last probe
    // and the last edge sample fall on it.
    let black = luma(0, 0, 0);
    let white = luma(255, 255, 255);
    let mut edge_grid = [black; 9];
    edge_grid[8] = white;
    let probes = [black, black, black, white];
    let sample_count =
        adaptive_sample_grid(&probes, region_has_edge(&edge_grid), &default_sample_grid_tuning());
    assert_eq!(sample_count, default_sample_grid_tuning().max_grid);
    assert_eq!(
        adaptive_sample_grid(&probes, false, &default_sample_grid_tuning()),
        default_sample_grid_tuning().max_grid
    );
}

#[test]
fn sample_grid_follows_edges_and_contrast() {
    assert_eq!(adaptive_sample_grid(&[64, 64, 64, 64], false, &GRID), 1);
    assert_eq!(adaptive_sample_grid(&[0, 255, 10, 10], false, &GRID), 3);
    assert_eq!(adaptive_sample_grid(&[100, 120, 110, 100], false, &GRID), 2);
    assert_eq!(adaptive_sample_grid(&[64, 64, 64, 64], true, &GRID), 3);
    assert_eq!(adaptive_sample_grid(&[], false, &GRID), 1);
}

#[test]
fn average_rgb_rounds_down_each_channel() {
    assert_eq!(average_rgb(&[(10, 20, 255), (11, 21, 0)]), (10, 20, 127));
    assert_eq!(average_rgb(&[]), (0, 0, 0));
}

#[test]
fn cached_cells_are_redrawn_only_when_their_pixels_change() {
    let cell = FramebufferCellStyle {
        foreground: color(1, 2, 3),
        background: color(1, 2, 3),
        glyph: CellGlyph::Solid,
    };
    let entry = cell.cache_entry(42);
    assert_eq!(entry.style, cell);
    assert!(!cell_needs_redraw(Some(entry), 42));
    assert!(cell_needs_redraw(Some(entry), 43));
    assert!(cell_needs_redraw(None, 42));
}

#[test]
fn blend_is_symmetric_and_keeps_equal_colors() {
    let a = color(3, 200, 17);
    let b = color(250, 0, 18);
    assert_eq!(a.blend(b), b.blend(a));
    assert_eq!(a.blend(a), a);
}

#[test]
fn density_cell_puts_the_brighter_half_in_front() {
    let cell = style(color(80, 115, 145), color(160, 100, 100), None);
    assert_eq!(cell.glyph, CellGlyph::DensityHeavy);
    assert_eq!(cell.foreground, color(160, 100, 100));
    assert_eq!(cell.background, color(80, 115, 145));
}

#[test]
fn default_sample_grid_matches_the_renderer() {
    assert_eq!(default_sample_grid_tuning(), GRID);
    let mut edge = [10u8; 9];
    assert!(!region_has_edge(&edge));
    edge[4] = 59;
    assert!(region_has_edge(&edge));
    edge[4] = 58;
    assert!(!region_has_edge(&edge));
}

#[test]
fn cell_steps_merge_adjacent_cells_and_flush_the_rest() {
    let red = FramebufferCellStyle {
        foreground: color(255, 0, 0),
        background: color(0, 0, 0),
        glyph: CellGlyph::UpperHalf,
    };
    let blue = FramebufferCellStyle {
        foreground: color(0, 0, 255),
        ..red
    };
    let mut queued = None;
    let (entry, flushed) = framebuffer_cell_step(None, 7, red, 2, 5, &mut queued);
    assert_eq!(entry, red.cache_entry(7));
    assert!(flushed.is_none());
    let (_, flushed) = framebuffer_cell_step(None, 8, red, 3, 5, &mut queued);
    assert!(flushed.is_none());
    let span = queued.as_ref().expect("span");
    assert_eq!((span.start_x, span.next_x, span.glyphs.len()), (2, 4, 2));
    let (_, flushed) = framebuffer_cell_step(None, 9, blue, 4, 5, &mut queued);
    let flushed = flushed.expect("first span printed");
    assert_eq!((flushed.start_x, flushed.next_x), (2, 4));
    assert_eq!(queued.as_ref().expect("new span").start_x, 4);
    let (_, flushed) = framebuffer_cell_step(Some(blue.cache_entry(1)), 2, blue, 5, 5, &mut queued);
    assert_eq!(flushed.expect("closed").start_x, 4);
    assert!(queued.is_none());
}

fn viewport(width: usize, height: usize) -> FramebufferViewport {
    FramebufferViewport { width, height, offset_x: 0, offset_y: 0 }
}

#[test]
fn check_framebuffer_reports_overflow_then_size_then_dimensions() {
    let empty: Vec<u8> = Vec::new();
    let overflow = DrawFramebufferParams { rgb: &empty, source_width: usize::MAX, source_height: 2 };
    assert_eq!(check_framebuffer(&overflow, viewport(0, 0)), Err(FramebufferError::Overflow));

    let short = vec![0u8; 11];
    let too_small = DrawFramebufferParams { rgb: &short, source_width: 2, source_height: 2 };
    assert_eq!(check_framebuffer(&too_small, viewport(0, 0)), Err(FramebufferError::Size));

    let no_width = DrawFramebufferParams { rgb: &empty, source_width: 0, source_height: 5 };
    assert_eq!(check_framebuffer(&no_width, viewport(10, 10)), Err(FramebufferError::InvalidDimensions));

    let full = vec![0u8; 12];
    let frame = DrawFramebufferParams { rgb: &full, source_width: 2, source_height: 2 };
    assert_eq!(check_framebuffer(&frame, viewport(0, 4)), Err(FramebufferError::InvalidDimensions));
    assert_eq!(check_framebuffer(&frame, viewport(4, 0)), Err(FramebufferError::InvalidDimensions));
    assert_eq!(check_framebuffer(&frame, viewport(10, 10)), Ok(12));

    let longer = vec![0u8; 20];
    let frame = DrawFramebufferParams { rgb: &longer, source_width: 2, source_height: 2 };
    assert_eq!(check_framebuffer(&frame, viewport(3, 1)), Ok(12));
}

#[test]
fn max_local_diff_skips_neighbours_outside_the_grid() {
    assert_eq!(calculate_max_local_diff(&[]), 0);
    assert_eq!(calculate_max_local_diff(&[7]), 0);
    assert_eq!(calculate_max_local_diff(&[0, 10, 0, 0]), 10);
    assert_eq!(calculate_max_local_diff(&[5, 0, 0, 200]), 200);
    assert_eq!(calculate_max_local_diff(&[5, 0, 9, 1]), 9);
}
