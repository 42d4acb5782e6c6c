use viewer_core::glyph_cache::{CacheWriteError, GlyphAtlasCache, GlyphRequest, TextureRect};

fn request(glyph_id: u32, scale_mf: i64, x_mf: i64, y_mf: i64, w: u32, h: u32) -> GlyphRequest {
    GlyphRequest { glyph_id, scale_mf, x_mf, y_mf, width_px: w, height_px: h }
}

#[test]
fn same_glyph_twice_gives_one_entry_and_one_upload() {
    let mut cache = GlyphAtlasCache::new(64, 64, 100, 100);
    let g = request(7, 16_000, 5_000, 5_000, 10, 12);
    cache.queue_glyph(0, g);
    cache.queue_glyph(0, g);
    let regions = cache.cache_queued().unwrap();
    assert_eq!(regions.len(), 1);
    assert_eq!(cache.stats().entry_count, 1);
    assert_eq!(regions[0].rect, TextureRect { x: 0, y: 0, w: 10, h: 12 });
}

#[test]
fn within_tolerance_reuses_the_same_rectangle() {
    let mut cache = GlyphAtlasCache::new(64, 64, 100, 100);
    let g1 = request(7, 16_000, 5_000, 5_000, 10, 12);
    cache.queue_glyph(0, g1);
    let first = cache.cache_queued().unwrap();
    assert_eq!(first.len(), 1);
    // Scale differs by 0.05 px (< 0.1 tolerance) and the sub-pixel offset by
    // 0.05 px: both land in the same buckets, so this is a cache hit.
    let g2 = request(7, 16_050, 5_050, 5_050, 10, 12);
    cache.queue_glyph(0, g2);
    let second = cache.cache_queued().unwrap();
    assert_eq!(second.len(), 0);
    assert_eq!(cache.stats().entry_count, 1);
    assert_eq!(cache.rect_for(0, &g2), cache.rect_for(0, &g1));
    assert_eq!(cache.rect_for(0, &g1), Some(TextureRect { x: 0, y: 0, w: 10, h: 12 }));
}

#[test]
fn beyond_tolerance_forces_a_distinct_rasterization() {
    let mut cache = GlyphAtlasCache::new(64, 64, 100, 100);
    let g1 = request(7, 16_000, 5_000, 5_000, 10, 12);
    // Scale differs by 0.12 px (> 0.1): a different bucket, a second entry.
    let g2 = request(7, 16_120, 5_000, 5_000, 10, 12);
    cache.queue_glyph(0, g1);
    cache.queue_glyph(0, g2);
    let regions = cache.cache_queued().unwrap();
    assert_eq!(regions.len(), 2);
    assert_eq!(cache.stats().entry_count, 2);
    assert_ne!(cache.rect_for(0, &g1), cache.rect_for(0, &g2));
}

#[test]
fn subpixel_offset_beyond_tolerance_is_a_distinct_key() {
    let mut cache = GlyphAtlasCache::new(64, 64, 100, 100);
    let g1 = request(7, 16_000, 5_000, 5_000, 10, 12);
    // Sub-pixel x offset 0.15 px away: a different position bucket.
    let g2 = request(7, 16_000, 5_150, 5_000, 10, 12);
    cache.queue_glyph(0, g1);
    cache.queue_glyph(0, g2);
    let regions = cache.cache_queued().unwrap();
    assert_eq!(regions.len(), 2);
}

#[test]
fn fonts_do_not_share_entries() {
    let mut cache = GlyphAtlasCache::new(64, 64, 100, 100);
    let g = request(7, 16_000, 5_000, 5_000, 10, 12);
    cache.queue_glyph(0, g);
    cache.queue_glyph(1, g);
    let regions = cache.cache_queued().unwrap();
    assert_eq!(regions.len(), 2);
}

#[test]
fn oversized_glyph_reports_too_large_and_changes_nothing() {
    let mut cache = GlyphAtlasCache::new(64, 64, 100, 100);
    cache.queue_glyph(0, request(1, 16_000, 0, 0, 10, 12));
    cache.cache_queued().unwrap();
    let before = cache.stats();
    cache.queue_glyph(0, request(2, 16_000, 0, 0, 100, 100));
    let err = cache.cache_queued().unwrap_err();
    assert_eq!(err, CacheWriteError::GlyphTooLarge { width_px: 100, height_px: 100 });
    assert_eq!(cache.stats(), before);
    // The queue was cleared: the next pass starts fresh.
    let regions = cache.cache_queued().unwrap();
    assert_eq!(regions.len(), 0);
}

#[test]
fn empty_glyphs_are_skipped_not_cached() {
    let mut cache = GlyphAtlasCache::new(64, 64, 100, 100);
    cache.queue_glyph(0, request(9, 16_000, 0, 0, 0, 0));
    let regions = cache.cache_queued().unwrap();
    assert_eq!(regions.len(), 0);
    assert_eq!(cache.stats().entry_count, 0);
}

#[test]
fn full_pass_that_cannot_fit_clears_the_atlas() {
    let mut cache = GlyphAtlasCache::new(16, 16, 100, 100);
    cache.queue_glyph(0, request(1, 16_000, 0, 0, 16, 16));
    cache.queue_glyph(0, request(2, 16_000, 0, 0, 16, 16));
    let err = cache.cache_queued().unwrap_err();
    assert_eq!(err, CacheWriteError::NoRoomForWholeQueue);
    assert_eq!(cache.stats().entry_count, 0);
}

#[test]
fn eviction_keeps_only_the_current_pass() {
    let mut cache = GlyphAtlasCache::new(16, 32, 100, 100);
    let a = request(1, 16_000, 0, 0, 16, 16);
    let b = request(2, 16_000, 0, 0, 16, 16);
    cache.queue_glyph(0, a);
    cache.queue_glyph(0, b);
    assert_eq!(cache.cache_queued().unwrap().len(), 2);
    assert_eq!(cache.stats().entry_count, 2);
    // No room is left; the next pass evicts the older entries and repacks.
    let c = request(3, 16_000, 0, 0, 16, 16);
    cache.queue_glyph(0, c);
    let regions = cache.cache_queued().unwrap();
    assert_eq!(regions.len(), 1);
    assert_eq!(cache.stats().entry_count, 1);
    assert_eq!(cache.rect_for(0, &c), Some(TextureRect { x: 0, y: 0, w: 16, h: 16 }));
    assert_eq!(cache.rect_for(0, &a), None);
    assert_eq!(cache.rect_for(0, &b), None);
}

#[test]
fn shelf_packing_fills_rows_left_to_right() {
    let mut cache = GlyphAtlasCache::new(32, 32, 100, 100);
    let a = request(1, 16_000, 0, 0, 10, 12);
    let b = request(2, 16_000, 0, 0, 10, 10);
    let c = request(3, 16_000, 0, 0, 20, 14);
    cache.queue_glyph(0, a);
    cache.queue_glyph(0, b);
    cache.queue_glyph(0, c);
    cache.cache_queued().unwrap();
    assert_eq!(cache.rect_for(0, &a), Some(TextureRect { x: 0, y: 0, w: 10, h: 12 }));
    // b fits on the first shelf beside a; c needs a taller, fresh shelf.
    assert_eq!(cache.rect_for(0, &b), Some(TextureRect { x: 10, y: 0, w: 10, h: 10 }));
    assert_eq!(cache.rect_for(0, &c), Some(TextureRect { x: 0, y: 12, w: 20, h: 14 }));
    assert_eq!(cache.stats().used_area_px, (10 * 12 + 10 * 10 + 20 * 14) as u128);
}

#[test]
fn compute_key_buckets_by_tolerance() {
    let cache = GlyphAtlasCache::new(64, 64, 100, 50);
    let g1 = request(7, 16_000, 5_020, -3_980, 10, 12);
    let g2 = request(7, 16_099, 5_049, -3_951, 10, 12);
    let g3 = request(7, 16_100, 5_050, -3_950, 10, 12);
    assert_eq!(cache.compute_key(4, &g1), cache.compute_key(4, &g2));
    assert_ne!(cache.compute_key(4, &g1), cache.compute_key(4, &g3));
    assert_ne!(cache.compute_key(4, &g1), cache.compute_key(5, &g1));
}

#[test]
fn stats_report_dimensions() {
    let cache = GlyphAtlasCache::new(128, 256, 100, 100);
    let s = cache.stats();
    assert_eq!(s.width, 128);
    assert_eq!(s.height, 256);
    assert_eq!(s.entry_count, 0);
    assert_eq!(s.used_area_px, 0);
}
