//! Styled-text runs and the draw emitter: laying a run's glyphs out along a
//! baseline, queueing them on the glyph atlas cache, and turning the cached
//! run into a flat quad vertex stream against the single atlas texture.

use crate::glyph_cache::{
    entry_with, has_key, is_empty_glyph, lemma_rect_of_unique, oversized, pass_fits, rect_of,
    CacheWriteError, GlyphAtlasCache, GlyphRequest, TextureRect, UploadRegion,
};
use vstd::prelude::*;

verus! {

/// An RGBA colour with each channel in thousandths (0 is black/transparent,
/// 1000 is full).
#[derive(Clone, Copy, Debug, Default, PartialEq, Eq, Structural)]
pub struct Color {
    pub r: u16,
    pub g: u16,
    pub b: u16,
    pub a: u16,
}

impl Color {
    /// A colour from its four channels.
    pub fn new(r: u16, g: u16, b: u16, a: u16) -> (c: Color)
        requires
            r <= 1000,
            g <= 1000,
            b <= 1000,
            a <= 1000,
        ensures
            c == (Color { r, g, b, a }),
    {
        Color { r, g, b, a }
    }

    /// The channels as an RGBA array.
    pub fn to_slice_rgba(&self) -> (s: [u16; 4])
        ensures
            s == [self.r, self.g, self.b, self.a],
    {
        [self.r, self.g, self.b, self.a]
    }
}

/// One text run to draw: the characters, colour, font, scale and anchor
/// position (thousandths of a pixel).  Not retained beyond the call that
/// consumes it.
#[derive(Clone, Copy, Debug, PartialEq)]
pub struct StyledText<'a> {
    pub string: &'a str,
    pub color: Color,
    pub font_index: usize,
    pub scale_mf: i64,
    pub x_mf: i64,
    pub y_mf: i64,
}

impl<'a> StyledText<'a> {
    /// A run in the default font.
    pub fn new(s: &'a str, color: Color, scale_mf: i64, x_mf: i64, y_mf: i64) -> (r: StyledText<
        'a,
    >)
        ensures
            r.string == s,
            r.color == color,
            r.font_index == 0,
            r.scale_mf == scale_mf,
            r.x_mf == x_mf,
            r.y_mf == y_mf,
    {
        StyledText { string: s, color, font_index: 0, scale_mf, x_mf, y_mf }
    }
}

/// The metrics of one glyph of a run, as the font reports them at the run's
/// scale: its identifier, horizontal advance (thousandths of a pixel) and
/// rasterized bitmap size.
#[derive(Clone, Copy, Debug, PartialEq, Eq, Structural)]
pub struct GlyphInfo {
    pub glyph_id: u32,
    pub advance_mf: i64,
    pub width_px: u32,
    pub height_px: u32,
}

/// One vertex of an emitted glyph quad: screen position in thousandths of a
/// pixel and atlas texture coordinates in thousandths.
#[derive(Clone, Copy, Debug, PartialEq, Eq, Structural)]
pub struct TextVertex {
    pub x_mf: i64,
    pub y_mf: i64,
    pub u_pm: u32,
    pub v_pm: u32,
}

/// One frame's text draw: the quad stream and the constant colour, all
/// referencing the single shared atlas texture.
#[derive(Clone, Debug, PartialEq, Eq)]
pub struct TextDraw {
    pub color_pm: [u16; 4],
    pub vertices: Vec<TextVertex>,
}

/// A configuration error in a text run.
#[derive(Clone, Copy, Debug, PartialEq, Eq, Structural)]
pub enum TextError {
    /// The run named a font index at or past the renderer's font count.
    FontNotFound { font_index: usize },
}

/// The pen position before glyph `i` of a run that starts at `x0`: the start
/// plus the advances of the glyphs before it.
pub open spec fn cursor_at(x0: int, glyphs: Seq<GlyphInfo>, i: int) -> int
    decreases i,
{
    if i <= 0 {
        x0
    } else {
        cursor_at(x0, glyphs, i - 1) + glyphs[i - 1].advance_mf
    }
}

/// The cache request for glyph `i` of a run.
pub open spec fn request_at(
    scale_mf: i64,
    x0: int,
    y_mf: i64,
    glyphs: Seq<GlyphInfo>,
    i: int,
) -> GlyphRequest {
    GlyphRequest {
        glyph_id: glyphs[i].glyph_id,
        scale_mf,
        x_mf: cursor_at(x0, glyphs, i) as i64,
        y_mf,
        width_px: glyphs[i].width_px,
        height_px: glyphs[i].height_px,
    }
}

/// The four corners of a glyph's quad: positions from the request's anchor
/// and the rectangle's pixel size, texture coordinates from the rectangle's
/// place in the atlas (rounded down to thousandths).
pub open spec fn quad_corner(
    req: GlyphRequest,
    rect: TextureRect,
    atlas_w: int,
    atlas_h: int,
    corner: int,
) -> TextVertex {
    let x0 = req.x_mf as int;
    let y0 = req.y_mf as int;
    let x1 = x0 + rect.w * 1000;
    let y1 = y0 + rect.h * 1000;
    let u0 = rect.x * 1000 / atlas_w;
    let v0 = rect.y * 1000 / atlas_h;
    let u1 = (rect.x + rect.w) * 1000 / atlas_w;
    let v1 = (rect.y + rect.h) * 1000 / atlas_h;
    if corner == 0 {
        TextVertex { x_mf: x0 as i64, y_mf: y0 as i64, u_pm: u0 as u32, v_pm: v0 as u32 }
    } else if corner == 1 {
        TextVertex { x_mf: x1 as i64, y_mf: y0 as i64, u_pm: u1 as u32, v_pm: v0 as u32 }
    } else if corner == 2 {
        TextVertex { x_mf: x1 as i64, y_mf: y1 as i64, u_pm: u1 as u32, v_pm: v1 as u32 }
    } else {
        TextVertex { x_mf: x0 as i64, y_mf: y1 as i64, u_pm: u0 as u32, v_pm: v1 as u32 }
    }
}

/// Text rendering against one glyph atlas: queued runs are laid out and
/// cached, then emitted as one quad stream per frame.
#[derive(Debug)]
pub struct TextRenderer {
    cache: GlyphAtlasCache,
    current_color: Color,
    laid: Vec<(u32, GlyphRequest)>,
    font_count: u32,
}

impl TextRenderer {
    /// The glyph atlas cache behind this renderer.
    pub closed spec fn spec_cache(self) -> GlyphAtlasCache {
        self.cache
    }

    /// How many fonts the driver's collection holds; run font indices must
    /// stay below it.
    pub closed spec fn spec_font_count(self) -> int {
        self.font_count as int
    }

    /// The colour of the most recently added run.
    pub closed spec fn spec_color(self) -> Color {
        self.current_color
    }

    /// The glyphs laid out and not yet emitted, each with its font.
    pub closed spec fn spec_laid(self) -> Seq<(u32, GlyphRequest)> {
        self.laid@
    }

    /// Renderer well-formedness: the cache is well-formed and every laid
    /// glyph is a well-formed request.
    pub open spec fn wf(self) -> bool {
        &&& self.spec_cache().wf()
        &&& forall|i: int|
            0 <= i < self.spec_laid().len() ==> GlyphAtlasCache::request_wf(
                (#[trigger] self.spec_laid()[i]).1,
            )
    }

    /// A renderer over a fresh atlas of the given dimensions and tolerances,
    /// serving runs from a collection of `font_count` fonts.
    pub fn new(
        width: u32,
        height: u32,
        scale_tolerance_mf: i64,
        position_tolerance_mf: i64,
        font_count: u32,
    ) -> (r: TextRenderer)
        requires
            1 <= width <= 65_536,
            1 <= height <= 65_536,
            1 <= scale_tolerance_mf <= 1_000_000_000,
            1 <= position_tolerance_mf <= 1_000_000_000,
        ensures
            r.wf(),
            r.spec_cache().spec_width() == width as int,
            r.spec_cache().spec_height() == height as int,
            r.spec_cache().spec_scale_tolerance() == scale_tolerance_mf as int,
            r.spec_cache().spec_position_tolerance() == position_tolerance_mf as int,
            r.spec_cache().spec_entries().len() == 0,
            r.spec_cache().spec_queue().len() == 0,
            r.spec_laid().len() == 0,
            r.spec_color() == (Color { r: 0u16, g: 0u16, b: 0u16, a: 0u16 }),
            r.spec_font_count() == font_count as int,
    {
        TextRenderer {
            cache: GlyphAtlasCache::new(width, height, scale_tolerance_mf, position_tolerance_mf),
            current_color: Color { r: 0, g: 0, b: 0, a: 0 },
            laid: Vec::new(),
            font_count,
        }
    }

    /// Lay a run out along its baseline and queue every glyph on the cache:
    /// glyph `i` is requested at the run's scale, at the pen position
    /// accumulated from the advances before it.  Also records the run's
    /// colour for the next draw.  A run naming a font at or past the
    /// renderer's font count is rejected untouched.
    pub fn add_text(&mut self, text: &StyledText<'_>, glyphs: &Vec<GlyphInfo>) -> (r: Result<
        (),
        TextError,
    >)
        requires
            old(self).wf(),
            0 <= text.scale_mf <= 1_000_000_000_000,
            -1_000_000_000_000 <= text.x_mf <= 1_000_000_000_000,
            -1_000_000_000_000 <= text.y_mf <= 1_000_000_000_000,
            glyphs@.len() <= 1_000_000,
            forall|i: int|
                0 <= i < glyphs@.len() ==> -1_000_000 <= (#[trigger] glyphs@[i]).advance_mf
                    <= 1_000_000 && glyphs@[i].width_px <= 1_000_000 && glyphs@[i].height_px
                    <= 1_000_000,
        ensures
            final(self).wf(),
            final(self).spec_font_count() == old(self).spec_font_count(),
            match r {
                Result::Err(e) => {
                    &&& e == (TextError::FontNotFound { font_index: text.font_index })
                    &&& text.font_index as int >= old(self).spec_font_count()
                    &&& *final(self) == *old(self)
                },
                Result::Ok(()) => {
                    &&& (text.font_index as int) < old(self).spec_font_count()
                    &&& final(self).spec_cache().same_config(old(self).spec_cache())
                    &&& final(self).spec_cache().spec_entries() == old(
                        self,
                    ).spec_cache().spec_entries()
                    &&& final(self).spec_color() == text.color
                    &&& final(self).spec_cache().spec_queue().len() == old(
                        self,
                    ).spec_cache().spec_queue().len() + glyphs@.len()
                    &&& final(self).spec_laid().len() == old(self).spec_laid().len()
                        + glyphs@.len()
                    &&& forall|i: int|
                        0 <= i < old(self).spec_cache().spec_queue().len() ==> (#[trigger] final(self).spec_cache().spec_queue()[i]) == old(self).spec_cache().spec_queue()[i]
                    &&& forall|i: int|
                        0 <= i < old(self).spec_laid().len() ==> (#[trigger] final(self).spec_laid()[i]) == old(self).spec_laid()[i]
                    &&& forall|k: int|
                        0 <= k < glyphs@.len() ==> (#[trigger] final(self).spec_cache().spec_queue()[old(self).spec_cache().spec_queue().len() + k]) == (
                        text.font_index as u32,
                        request_at(text.scale_mf, text.x_mf as int, text.y_mf, glyphs@, k),
                    )
                    &&& forall|k: int|
                        0 <= k < glyphs@.len() ==> (#[trigger] final(self).spec_laid()[old(self).spec_laid().len() + k]) == (
                        text.font_index as u32,
                        request_at(text.scale_mf, text.x_mf as int, text.y_mf, glyphs@, k),
                    )
                },
            },
    {
        if text.font_index >= self.font_count as usize {
            return Err(TextError::FontNotFound { font_index: text.font_index });
        }
        self.current_color = text.color;
        let font_id: u32 = text.font_index as u32;
        let n: usize = glyphs.len();
        let ghost q0 = self.spec_cache().spec_queue();
        let ghost l0 = self.spec_laid();
        let mut cursor: i64 = text.x_mf;
        let mut i: usize = 0;
        while i < n
            invariant
                self.wf(),
                self.spec_color() == text.color,
                self.spec_font_count() == old(self).spec_font_count(),
                (text.font_index as int) < old(self).spec_font_count(),
                self.spec_cache().same_config(old(self).spec_cache()),
                self.spec_cache().spec_entries() == old(self).spec_cache().spec_entries(),
                n == glyphs@.len() <= 1_000_000,
                0 <= i <= n,
                font_id == text.font_index as u32,
                0 <= text.scale_mf <= 1_000_000_000_000,
                -1_000_000_000_000 <= text.x_mf <= 1_000_000_000_000,
                -1_000_000_000_000 <= text.y_mf <= 1_000_000_000_000,
                forall|j: int|
                    0 <= j < glyphs@.len() ==> -1_000_000 <= (#[trigger] glyphs@[j]).advance_mf
                        <= 1_000_000 && glyphs@[j].width_px <= 1_000_000 && glyphs@[j].height_px
                        <= 1_000_000,
                cursor as int == cursor_at(text.x_mf as int, glyphs@, i as int),
                -2_000_000_000_000 <= cursor <= 2_000_000_000_000,
                self.spec_cache().spec_queue().len() == q0.len() + i,
                self.spec_laid().len() == l0.len() + i,
                forall|j: int|
                    0 <= j < q0.len() ==> (#[trigger] self.spec_cache().spec_queue()[j]) == q0[j],
                forall|j: int| 0 <= j < l0.len() ==> (#[trigger] self.spec_laid()[j]) == l0[j],
                forall|k: int|
                    0 <= k < i ==> (#[trigger] self.spec_cache().spec_queue()[q0.len() + k]) == (
                    font_id,
                    request_at(text.scale_mf, text.x_mf as int, text.y_mf, glyphs@, k),
                ),
                forall|k: int|
                    0 <= k < i ==> (#[trigger] self.spec_laid()[l0.len() + k]) == (
                    font_id,
                    request_at(text.scale_mf, text.x_mf as int, text.y_mf, glyphs@, k),
                ),
            decreases n - i,
        {
            let info = glyphs[i];
            let request = GlyphRequest {
                glyph_id: info.glyph_id,
                scale_mf: text.scale_mf,
                x_mf: cursor,
                y_mf: text.y_mf,
                width_px: info.width_px,
                height_px: info.height_px,
            };
            proof {
                lemma_cursor_bound(text.x_mf as int, glyphs@, i as int);
            }
            let ghost q_pre = self.spec_cache().spec_queue();
            let ghost l_pre = self.spec_laid();
            self.cache.queue_glyph(font_id, request);
            self.laid.push((font_id, request));
            proof {
                assert forall|j: int|
                    0 <= j < self.spec_laid().len() implies GlyphAtlasCache::request_wf(
                    (#[trigger] self.spec_laid()[j]).1,
                ) by {
                    if j < l_pre.len() {
                        assert(self.spec_laid()[j] == l_pre[j]);
                    } else {
                        assert(self.spec_laid()[j] == (font_id, request));
                    }
                }
                assert forall|j: int| 0 <= j < q0.len() implies (
                #[trigger] self.spec_cache().spec_queue()[j]) == q0[j] by {
                    assert(self.spec_cache().spec_queue()[j] == q_pre[j]);
                }
                assert forall|j: int| 0 <= j < l0.len() implies (#[trigger] self.spec_laid()[j])
                    == l0[j] by {
                    assert(self.spec_laid()[j] == l_pre[j]);
                }
                assert forall|k: int| 0 <= k < i + 1 implies (
                #[trigger] self.spec_cache().spec_queue()[q0.len() + k]) == (
                    font_id,
                    request_at(text.scale_mf, text.x_mf as int, text.y_mf, glyphs@, k),
                ) by {
                    if k < i {
                        assert(self.spec_cache().spec_queue()[q0.len() + k] == q_pre[q0.len()
                            + k]);
                    } else {
                        assert(self.spec_cache().spec_queue()[q0.len() + k] == (font_id, request));
                    }
                }
                assert forall|k: int| 0 <= k < i + 1 implies (#[trigger] self.spec_laid()[l0.len()
                    + k]) == (
                    font_id,
                    request_at(text.scale_mf, text.x_mf as int, text.y_mf, glyphs@, k),
                ) by {
                    if k < i {
                        assert(self.spec_laid()[l0.len() + k] == l_pre[l0.len() + k]);
                    } else {
                        assert(self.spec_laid()[l0.len() + k] == (font_id, request));
                    }
                }
            }
            cursor = cursor + info.advance_mf;
            i = i + 1;
        }
        Ok(())
    }

    /// Read-only access to the cache, for diagnostics.
    pub fn font_cache(&self) -> (r: &GlyphAtlasCache)
        ensures
            *r == self.spec_cache(),
    {
        &self.cache
    }

    /// Resolve everything queued since the last pass against the atlas; the
    /// returned regions are what the driver must rasterize and upload.  The
    /// laid-out glyphs are kept for [`TextRenderer::encode`].
    pub fn cache_queued_glyphs(&mut self) -> (r: Result<Vec<UploadRegion>, CacheWriteError>)
        requires
            old(self).wf(),
            old(self).spec_laid() == old(self).spec_cache().spec_queue(),
        ensures
            final(self).wf(),
            final(self).spec_cache().same_config(old(self).spec_cache()),
            final(self).spec_font_count() == old(self).spec_font_count(),
            final(self).spec_laid() == old(self).spec_laid(),
            final(self).spec_color() == old(self).spec_color(),
            final(self).spec_cache().spec_queue().len() == 0,
            match r {
                Result::Ok(regions) => {
                    &&& forall|i: int|
                        0 <= i < final(self).spec_laid().len() ==> has_key(
                            final(self).spec_cache().spec_entries(),
                            final(self).spec_cache().key_of(
                                (#[trigger] final(self).spec_laid()[i]).0,
                                final(self).spec_laid()[i].1,
                            ),
                        ) || is_empty_glyph(final(self).spec_laid()[i].1)
                    &&& forall|i: int|
                        0 <= i < regions@.len() ==> entry_with(
                            final(self).spec_cache().spec_entries(),
                            (#[trigger] regions@[i]).key,
                            regions@[i].rect,
                        )
                    // one upload per key, however many runs requested it
                    &&& forall|i: int, j: int|
                        0 <= i < regions@.len() && 0 <= j < regions@.len() && i != j ==> (
                        #[trigger] regions@[i]).key != (#[trigger] regions@[j]).key
                    &&& forall|i: int|
                        0 <= i < old(self).spec_laid().len() ==> !oversized(
                            old(self).spec_cache().spec_width(),
                            old(self).spec_cache().spec_height(),
                            (#[trigger] old(self).spec_laid()[i]).1,
                        )
                },
                Result::Err(e) => match e {
                    CacheWriteError::GlyphTooLarge { width_px, height_px } => {
                        &&& final(self).spec_cache().spec_entries() == old(
                            self,
                        ).spec_cache().spec_entries()
                        &&& exists|i: int|
                            0 <= i < old(self).spec_laid().len() && oversized(
                                old(self).spec_cache().spec_width(),
                                old(self).spec_cache().spec_height(),
                                (#[trigger] old(self).spec_laid()[i]).1,
                            ) && old(self).spec_laid()[i].1.width_px == width_px && old(
                                self,
                            ).spec_laid()[i].1.height_px == height_px
                    },
                    CacheWriteError::NoRoomForWholeQueue => {
                        &&& final(self).spec_cache().spec_entries().len() == 0
                        &&& forall|i: int|
                            0 <= i < old(self).spec_laid().len() ==> !oversized(
                                old(self).spec_cache().spec_width(),
                                old(self).spec_cache().spec_height(),
                                (#[trigger] old(self).spec_laid()[i]).1,
                            )
                        &&& exists|i: int|
                            0 <= i < old(self).spec_laid().len() && !is_empty_glyph(
                                (#[trigger] old(self).spec_laid()[i]).1,
                            )
                        &&& !pass_fits(
                            old(self).spec_laid(),
                            old(self).spec_cache().spec_scale_tolerance(),
                            old(self).spec_cache().spec_position_tolerance(),
                            old(self).spec_cache().spec_width(),
                            old(self).spec_cache().spec_height(),
                        )
                    },
                },
            },
    {
        self.cache.cache_queued()
    }

    /// Emit the draw for the laid-out glyphs: one quad (four vertices) per
    /// glyph with atlas texture coordinates, plus the current colour.  The
    /// atlas must already be populated for every glyph in the run; glyphs
    /// with empty bitmaps are skipped.  Clears the laid-out run.
    pub fn encode(&mut self) -> (r: TextDraw)
        requires
            old(self).wf(),
            forall|i: int|
                0 <= i < old(self).spec_laid().len() ==> has_key(
                    old(self).spec_cache().spec_entries(),
                    old(self).spec_cache().key_of(
                        (#[trigger] old(self).spec_laid()[i]).0,
                        old(self).spec_laid()[i].1,
                    ),
                ) || crate::glyph_cache::is_empty_glyph(old(self).spec_laid()[i].1),
        ensures
            final(self).wf(),
            final(self).spec_cache() == old(self).spec_cache(),
            final(self).spec_color() == old(self).spec_color(),
            final(self).spec_font_count() == old(self).spec_font_count(),
            final(self).spec_laid().len() == 0,
            r.color_pm == [
                old(self).spec_color().r,
                old(self).spec_color().g,
                old(self).spec_color().b,
                old(self).spec_color().a,
            ],
            r.vertices@ == emitted_quads(
                old(self).spec_cache(),
                old(self).spec_laid(),
                old(self).spec_laid().len() as int,
            ),
    {
        let color = self.current_color.to_slice_rgba();
        let mut vertices: Vec<TextVertex> = Vec::new();
        let n: usize = self.laid.len();
        let mut i: usize = 0;
        while i < n
            invariant
                *self == *old(self),
                self.wf(),
                n == self.spec_laid().len(),
                0 <= i <= n,
                forall|j: int|
                    0 <= j < self.spec_laid().len() ==> has_key(
                        self.spec_cache().spec_entries(),
                        self.spec_cache().key_of(
                            (#[trigger] self.spec_laid()[j]).0,
                            self.spec_laid()[j].1,
                        ),
                    ) || crate::glyph_cache::is_empty_glyph(self.spec_laid()[j].1),
                vertices@ == emitted_quads(self.spec_cache(), self.spec_laid(), i as int),
            decreases n - i,
        {
            let item = self.laid[i];
            if item.1.width_px > 0 && item.1.height_px > 0 {
                let rect_opt = self.cache.rect_for(item.0, &item.1);
                match rect_opt {
                    Option::Some(rect) => {
                        proof {
                            let entries = self.spec_cache().spec_entries();
                            let k = self.spec_cache().key_of(item.0, item.1);
                            assert(entry_with(entries, k, rect));
                            lemma_rect_of_unique(entries, k, rect);
                            let ei = choose|ei: int|
                                0 <= ei < entries.len() && (#[trigger] entries[ei]).key == k
                                    && entries[ei].rect == rect;
                            assert(crate::glyph_cache::entry_wf(
                                entries[ei],
                                self.spec_cache().spec_shelves(),
                            ));
                            assert(rect.x + rect.w <= self.spec_cache().spec_width());
                            assert(rect.y + rect.h <= self.spec_cache().spec_height());
                        }
                        let aw: u32 = self.cache.width_px();
                        let ah: u32 = self.cache.height_px();
                        let x0: i64 = item.1.x_mf;
                        let y0: i64 = item.1.y_mf;
                        let x1: i64 = x0 + rect.w as i64 * 1000;
                        let y1: i64 = y0 + rect.h as i64 * 1000;
                        let u0: u32 = rect.x * 1000 / aw;
                        let v0: u32 = rect.y * 1000 / ah;
                        let u1: u32 = (rect.x + rect.w) * 1000 / aw;
                        let v1: u32 = (rect.y + rect.h) * 1000 / ah;
                        vertices.push(TextVertex { x_mf: x0, y_mf: y0, u_pm: u0, v_pm: v0 });
                        vertices.push(TextVertex { x_mf: x1, y_mf: y0, u_pm: u1, v_pm: v0 });
                        vertices.push(TextVertex { x_mf: x1, y_mf: y1, u_pm: u1, v_pm: v1 });
                        vertices.push(TextVertex { x_mf: x0, y_mf: y1, u_pm: u0, v_pm: v1 });
                        proof {
                            assert(vertices@ =~= emitted_quads(
                                self.spec_cache(),
                                self.spec_laid(),
                                i as int + 1,
                            ));
                        }
                    },
                    Option::None => {
                        proof {
                            assert(false);
                        }
                    },
                }
            } else {
                proof {
                    assert(vertices@ =~= emitted_quads(
                        self.spec_cache(),
                        self.spec_laid(),
                        i as int + 1,
                    ));
                }
            }
            i = i + 1;
        }
        self.laid = Vec::new();
        TextDraw { color_pm: color, vertices }
    }
}

/// The pen position moves by at most a million thousandths per glyph, so it
/// stays within twice the anchor bound.
proof fn lemma_cursor_bound(x0: int, glyphs: Seq<GlyphInfo>, i: int)
    requires
        -1_000_000_000_000 <= x0 <= 1_000_000_000_000,
        0 <= i <= glyphs.len() <= 1_000_000,
        forall|j: int|
            0 <= j < glyphs.len() ==> -1_000_000 <= (#[trigger] glyphs[j]).advance_mf
                <= 1_000_000,
    ensures
        x0 - 1_000_000 * i <= cursor_at(x0, glyphs, i) <= x0 + 1_000_000 * i,
        -2_000_000_000_000 <= cursor_at(x0, glyphs, i) <= 2_000_000_000_000,
    decreases i,
{
    if i > 0 {
        lemma_cursor_bound(x0, glyphs, i - 1);
    }
}

/// The quads emitted for the first `upto` laid glyphs: four corners per
/// glyph whose bitmap has pixels, in order.
pub open spec fn emitted_quads(
    cache: GlyphAtlasCache,
    laid: Seq<(u32, GlyphRequest)>,
    upto: int,
) -> Seq<TextVertex>
    decreases upto,
{
    if upto <= 0 {
        Seq::empty()
    } else {
        let prefix = emitted_quads(cache, laid, upto - 1);
        let item = laid[upto - 1];
        if crate::glyph_cache::is_empty_glyph(item.1) {
            prefix
        } else {
            let rect = rect_of(cache.spec_entries(), cache.key_of(item.0, item.1));
            prefix + seq![
                quad_corner(item.1, rect, cache.spec_width(), cache.spec_height(), 0),
                quad_corner(item.1, rect, cache.spec_width(), cache.spec_height(), 1),
                quad_corner(item.1, rect, cache.spec_width(), cache.spec_height(), 2),
                quad_corner(item.1, rect, cache.spec_width(), cache.spec_height(), 3),
            ]
        }
    }
}

} // verus!
