use viewer_core::fps_counter::FpsCounter;
use viewer_core::text::{Color, GlyphInfo, StyledText, TextError, TextRenderer, TextVertex};

#[test]
fn color_round_trip() {
    let c = Color::new(1000, 500, 0, 250);
    assert_eq!(c.to_slice_rgba(), [1000, 500, 0, 250]);
    assert_eq!(c, Color { r: 1000, g: 500, b: 0, a: 250 });
}

#[test]
fn styled_text_defaults_to_first_font() {
    let c = Color::new(1000, 1000, 1000, 1000);
    let t = StyledText::new("hi", c, 16_000, 2_000, 3_000);
    assert_eq!(t.font_index, 0);
    assert_eq!(t.string, "hi");
    assert_eq!(t.scale_mf, 16_000);
    assert_eq!((t.x_mf, t.y_mf), (2_000, 3_000));
}

#[test]
fn add_text_lays_out_and_encode_emits_quads() {
    let mut renderer = TextRenderer::new(64, 64, 100, 100, 1);
    let color = Color::new(1000, 1000, 1000, 1000);
    let text = StyledText::new("abc", color, 16_000, 2_000, 3_000);
    let glyphs = vec![
        GlyphInfo { glyph_id: 1, advance_mf: 8_000, width_px: 10, height_px: 12 },
        GlyphInfo { glyph_id: 2, advance_mf: 8_000, width_px: 0, height_px: 0 },
        GlyphInfo { glyph_id: 3, advance_mf: 6_000, width_px: 6, height_px: 6 },
    ];
    renderer.add_text(&text, &glyphs).unwrap();
    let regions = renderer.cache_queued_glyphs().unwrap();
    // The empty middle glyph is skipped; the two visible ones are uploaded.
    assert_eq!(regions.len(), 2);
    let draw = renderer.encode();
    assert_eq!(draw.color_pm, [1000, 1000, 1000, 1000]);
    assert_eq!(draw.vertices.len(), 8);
    // First glyph: anchored at (2.0, 3.0), bitmap 10x12 at atlas (0, 0).
    assert_eq!(
        draw.vertices[0],
        TextVertex { x_mf: 2_000, y_mf: 3_000, u_pm: 0, v_pm: 0 }
    );
    assert_eq!(
        draw.vertices[1],
        TextVertex { x_mf: 12_000, y_mf: 3_000, u_pm: 156, v_pm: 0 }
    );
    assert_eq!(
        draw.vertices[2],
        TextVertex { x_mf: 12_000, y_mf: 15_000, u_pm: 156, v_pm: 187 }
    );
    assert_eq!(
        draw.vertices[3],
        TextVertex { x_mf: 2_000, y_mf: 15_000, u_pm: 0, v_pm: 187 }
    );
    // Third glyph: pen advanced by both preceding advances to x = 18.0;
    // its 6x6 bitmap sits beside the first at atlas x = 10.
    assert_eq!(
        draw.vertices[4],
        TextVertex { x_mf: 18_000, y_mf: 3_000, u_pm: 156, v_pm: 0 }
    );
    assert_eq!(
        draw.vertices[5],
        TextVertex { x_mf: 24_000, y_mf: 3_000, u_pm: 250, v_pm: 0 }
    );
    // Emitting cleared the run; the next draw is empty.
    let empty = renderer.encode();
    assert_eq!(empty.vertices.len(), 0);
}

#[test]
fn repeated_run_hits_the_cache() {
    let mut renderer = TextRenderer::new(64, 64, 100, 100, 1);
    let color = Color::new(1000, 0, 0, 1000);
    let text = StyledText::new("aa", color, 16_000, 1_000, 1_000);
    let glyphs = vec![
        GlyphInfo { glyph_id: 1, advance_mf: 8_000, width_px: 10, height_px: 12 },
    ];
    renderer.add_text(&text, &glyphs).unwrap();
    assert_eq!(renderer.cache_queued_glyphs().unwrap().len(), 1);
    renderer.encode();
    renderer.add_text(&text, &glyphs).unwrap();
    // Same glyph, same scale, same sub-pixel offset: nothing to upload.
    assert_eq!(renderer.cache_queued_glyphs().unwrap().len(), 0);
    assert_eq!(renderer.font_cache().stats().entry_count, 1);
}

#[test]
fn fps_message_formats_hundredths() {
    let mut fps = FpsCounter::new();
    fps.update_fps(12_000);
    assert_eq!(fps.message().as_slice(), b"fps: 83.33");
    fps.update_fps(1_000_000);
    assert_eq!(fps.message().as_slice(), b"fps: 1.00");
    fps.update_fps(16_666);
    assert_eq!(fps.message().as_slice(), b"fps: 60.00");
    fps.update_fps(0);
    assert_eq!(fps.message().as_slice(), b"fps: N/A");
}

#[test]
fn fps_toggle_controls_queued_section() {
    let mut fps = FpsCounter::new();
    fps.update_fps(20_000);
    let section = fps.queue_text().expect("shown by default");
    assert_eq!(section.text.as_slice(), b"fps: 50.00");
    assert_eq!((section.x_mf, section.y_mf), (5_000, 5_000));
    assert_eq!(section.scale_mf, 64_000);
    assert_eq!(section.color_pm, [1000, 1000, 1000, 1000]);
    fps.toggle_show_fps();
    assert!(fps.queue_text().is_none());
    fps.toggle_show_fps();
    assert!(fps.queue_text().is_some());
}

#[test]
fn out_of_range_font_index_is_a_typed_error() {
    let mut renderer = TextRenderer::new(64, 64, 100, 100, 2);
    let color = Color::new(1000, 1000, 1000, 1000);
    let mut text = StyledText::new("x", color, 16_000, 0, 0);
    text.font_index = 2;
    let glyphs = vec![
        GlyphInfo { glyph_id: 1, advance_mf: 8_000, width_px: 4, height_px: 4 },
    ];
    let err = renderer.add_text(&text, &glyphs).unwrap_err();
    assert_eq!(err, TextError::FontNotFound { font_index: 2 });
    // The rejected run queued nothing.
    assert_eq!(renderer.cache_queued_glyphs().unwrap().len(), 0);
    text.font_index = 1;
    renderer.add_text(&text, &glyphs).unwrap();
    assert_eq!(renderer.cache_queued_glyphs().unwrap().len(), 1);
}
