//! The glyph atlas cache: styled-text requests are bucketed by quantized
//! scale and sub-pixel offset, packed into one shared atlas bitmap by a
//! deterministic shelf packer, and the regions that need (re)uploading are
//! reported to the caller.
//!
//! Caching within tolerances is the central space/quality tradeoff: two
//! requests whose scale and sub-pixel offsets fall into the same quantization
//! bucket are served by the same rasterization.  The bucket width is the
//! tolerance, so requests farther apart than a tolerance never share a
//! bucket, and requests in one bucket differ by less than a tolerance.

use crate::fixed::rem_euclid_fp;
use vstd::prelude::*;

verus! {

/// One queued glyph: glyph identity, scale and anchor position in
/// thousandths of a pixel, and the pixel size of its rasterized bitmap.
#[derive(Clone, Copy, Debug, PartialEq, Eq, Structural)]
pub struct GlyphRequest {
    pub glyph_id: u32,
    pub scale_mf: i64,
    pub x_mf: i64,
    pub y_mf: i64,
    pub width_px: u32,
    pub height_px: u32,
}

/// The quantized cache key: requests with equal keys share a rasterization.
#[derive(Clone, Copy, Debug, PartialEq, Eq, Structural)]
pub struct GlyphKey {
    pub font_id: u32,
    pub glyph_id: u32,
    pub scale_bucket: i64,
    pub x_bucket: i64,
    pub y_bucket: i64,
}

/// A pixel rectangle inside the atlas.
#[derive(Clone, Copy, Debug, PartialEq, Eq, Structural)]
pub struct TextureRect {
    pub x: u32,
    pub y: u32,
    pub w: u32,
    pub h: u32,
}

/// An atlas region whose pixels must be (re)uploaded: the caller rasterizes
/// the glyph behind `key` at the bucket's scale and writes it at `rect`.
#[derive(Clone, Copy, Debug, PartialEq, Eq, Structural)]
pub struct UploadRegion {
    pub key: GlyphKey,
    pub rect: TextureRect,
}

/// Why a cache pass failed.
#[derive(Clone, Copy, Debug, PartialEq, Eq, Structural)]
pub enum CacheWriteError {
    /// A single queued glyph is larger than the whole atlas; the atlas
    /// contents are left untouched.
    GlyphTooLarge { width_px: u32, height_px: u32 },
    /// Even an empty atlas cannot hold every queued glyph; the atlas is left
    /// cleared, ready for a retry with fewer or smaller glyphs.
    NoRoomForWholeQueue,
}

/// Occupancy diagnostics.
#[derive(Clone, Copy, Debug, PartialEq, Eq, Structural)]
pub struct CacheStats {
    pub entry_count: usize,
    pub used_area_px: u128,
    pub width: u32,
    pub height: u32,
}

/// A cached rasterization: its key, its atlas rectangle, and the shelf row
/// the rectangle lives on.
#[derive(Clone, Copy, Debug, PartialEq, Eq, Structural)]
pub struct Entry {
    pub key: GlyphKey,
    pub rect: TextureRect,
    pub shelf: usize,
}

/// One packer row: glyphs are placed left to right at `next_x`; rows are
/// stacked top to bottom.
#[derive(Clone, Copy, Debug, PartialEq, Eq, Structural)]
pub struct Shelf {
    pub y: u32,
    pub height: u32,
    pub next_x: u32,
}

/// The quantization bucket of a non-negative fixed-point value: bucket width
/// equals the tolerance.
pub open spec fn bucket(value: int, tolerance: int) -> int {
    value / tolerance
}

/// The key a request quantizes to under the cache's tolerances.
pub open spec fn key_spec(
    scale_tolerance_mf: int,
    position_tolerance_mf: int,
    font_id: u32,
    g: GlyphRequest,
) -> GlyphKey {
    GlyphKey {
        font_id,
        glyph_id: g.glyph_id,
        scale_bucket: bucket(g.scale_mf as int, scale_tolerance_mf) as i64,
        x_bucket: bucket((g.x_mf as int) % 1000, position_tolerance_mf) as i64,
        y_bucket: bucket((g.y_mf as int) % 1000, position_tolerance_mf) as i64,
    }
}

/// A request whose bitmap has no pixels; it is queued but never cached.
pub open spec fn is_empty_glyph(g: GlyphRequest) -> bool {
    g.width_px == 0 || g.height_px == 0
}

/// Law: quantization respects the tolerance in both directions.  Values in
/// one bucket differ by less than the tolerance; values at least a tolerance
/// apart land in different buckets (and so force distinct rasterizations).
pub proof fn lemma_tolerance_buckets(a: int, b: int, tolerance: int)
    requires
        tolerance >= 1,
        a >= 0,
        b >= 0,
    ensures
        bucket(a, tolerance) == bucket(b, tolerance) ==> -tolerance < a - b < tolerance,
        a - b >= tolerance || b - a >= tolerance ==> bucket(a, tolerance) != bucket(b, tolerance),
{
    vstd::arithmetic::div_mod::lemma_fundamental_div_mod(a, tolerance);
    vstd::arithmetic::div_mod::lemma_fundamental_div_mod(b, tolerance);
    vstd::arithmetic::div_mod::lemma_mod_division_less_than_divisor(a, tolerance);
    vstd::arithmetic::div_mod::lemma_mod_division_less_than_divisor(b, tolerance);
}

/// Law: the cache key respects the tolerances.  Two requests for the same
/// glyph whose scales and sub-pixel offsets fall in the same quantization
/// buckets share a key — and so are served by one rasterization — and they
/// then differ by less than a tolerance in each quantity; two requests whose
/// scales differ by at least the scale tolerance never share a key.
pub proof fn lemma_key_respects_tolerances(
    scale_tolerance_mf: int,
    position_tolerance_mf: int,
    font_id: u32,
    g1: GlyphRequest,
    g2: GlyphRequest,
)
    requires
        1 <= scale_tolerance_mf <= 1_000_000_000,
        1 <= position_tolerance_mf <= 1_000_000_000,
        g1.glyph_id == g2.glyph_id,
        0 <= g1.scale_mf,
        0 <= g2.scale_mf,
    ensures
        key_spec(scale_tolerance_mf, position_tolerance_mf, font_id, g1) == key_spec(
            scale_tolerance_mf,
            position_tolerance_mf,
            font_id,
            g2,
        ) ==> {
            &&& -scale_tolerance_mf < g1.scale_mf - g2.scale_mf < scale_tolerance_mf
            &&& -position_tolerance_mf < (g1.x_mf as int) % 1000 - (g2.x_mf as int) % 1000
                < position_tolerance_mf
            &&& -position_tolerance_mf < (g1.y_mf as int) % 1000 - (g2.y_mf as int) % 1000
                < position_tolerance_mf
        },
        g1.scale_mf - g2.scale_mf >= scale_tolerance_mf || g2.scale_mf - g1.scale_mf
            >= scale_tolerance_mf ==> key_spec(
            scale_tolerance_mf,
            position_tolerance_mf,
            font_id,
            g1,
        ) != key_spec(scale_tolerance_mf, position_tolerance_mf, font_id, g2),
{
    lemma_tolerance_buckets(g1.scale_mf as int, g2.scale_mf as int, scale_tolerance_mf);
    vstd::arithmetic::div_mod::lemma_mod_division_less_than_divisor(g1.x_mf as int, 1000);
    vstd::arithmetic::div_mod::lemma_mod_division_less_than_divisor(g2.x_mf as int, 1000);
    vstd::arithmetic::div_mod::lemma_mod_division_less_than_divisor(g1.y_mf as int, 1000);
    vstd::arithmetic::div_mod::lemma_mod_division_less_than_divisor(g2.y_mf as int, 1000);
    lemma_tolerance_buckets(
        (g1.x_mf as int) % 1000,
        (g2.x_mf as int) % 1000,
        position_tolerance_mf,
    );
    lemma_tolerance_buckets(
        (g1.y_mf as int) % 1000,
        (g2.y_mf as int) % 1000,
        position_tolerance_mf,
    );
    vstd::arithmetic::div_mod::lemma_div_pos_is_pos(g1.scale_mf as int, scale_tolerance_mf);
    vstd::arithmetic::div_mod::lemma_div_nonincreasing(g1.scale_mf as int, scale_tolerance_mf);
    vstd::arithmetic::div_mod::lemma_div_pos_is_pos(g2.scale_mf as int, scale_tolerance_mf);
    vstd::arithmetic::div_mod::lemma_div_nonincreasing(g2.scale_mf as int, scale_tolerance_mf);
}

/// Two rectangles cover no common pixel.
pub open spec fn rects_disjoint(a: TextureRect, b: TextureRect) -> bool {
    ||| a.x + a.w <= b.x
    ||| b.x + b.w <= a.x
    ||| a.y + a.h <= b.y
    ||| b.y + b.h <= a.y
}

/// The shelf rows partition the used part of the atlas: stacked from the
/// top, each at most as wide as the atlas, with `next_shelf_y` marking the
/// first unused row.
pub open spec fn shelves_wf(shelves: Seq<Shelf>, next_shelf_y: int, width: int, height: int) -> bool {
    &&& forall|i: int|
        0 <= i < shelves.len() ==> (#[trigger] shelves[i]).next_x <= width && shelves[i].height
            >= 1 && shelves[i].y + shelves[i].height <= height
    &&& forall|i: int|
        1 <= i < shelves.len() ==> (#[trigger] shelves[i]).y == shelves[i - 1].y + shelves[i
            - 1].height
    &&& (shelves.len() > 0 ==> shelves[0].y == 0 && next_shelf_y == shelves[shelves.len() - 1].y
        + shelves[shelves.len() - 1].height)
    &&& (shelves.len() == 0 ==> next_shelf_y == 0)
    &&& 0 <= next_shelf_y <= height
}

/// One entry sits on its shelf: at the shelf's top, no taller than the
/// shelf, and left of the shelf's cursor.
pub open spec fn entry_wf(e: Entry, shelves: Seq<Shelf>) -> bool {
    &&& e.shelf < shelves.len()
    &&& e.rect.w >= 1
    &&& e.rect.h >= 1
    &&& e.rect.y == shelves[e.shelf as int].y
    &&& e.rect.h <= shelves[e.shelf as int].height
    &&& e.rect.x + e.rect.w <= shelves[e.shelf as int].next_x
}

/// The entry table: every entry on its shelf, keys unique, and entries that
/// share a shelf occupy disjoint x-ranges.
pub open spec fn entries_wf(entries: Seq<Entry>, shelves: Seq<Shelf>) -> bool {
    &&& forall|i: int| 0 <= i < entries.len() ==> entry_wf(#[trigger] entries[i], shelves)
    &&& forall|i: int, j: int|
        0 <= i < entries.len() && 0 <= j < entries.len() && i != j ==> (#[trigger] entries[i]).key
            != (#[trigger] entries[j]).key
    &&& forall|i: int, j: int|
        0 <= i < entries.len() && 0 <= j < entries.len() && i != j && (#[trigger] entries[i]).shelf
            == (#[trigger] entries[j]).shelf ==> (entries[i].rect.x + entries[i].rect.w
            <= entries[j].rect.x || entries[j].rect.x + entries[j].rect.w <= entries[i].rect.x)
}

/// Shelf rows below have strictly larger y: the bands are disjoint.
pub proof fn lemma_shelf_bands_ordered(
    shelves: Seq<Shelf>,
    next_shelf_y: int,
    width: int,
    height: int,
    i: int,
    j: int,
)
    requires
        shelves_wf(shelves, next_shelf_y, width, height),
        0 <= i < j < shelves.len(),
    ensures
        shelves[i].y + shelves[i].height <= shelves[j].y,
    decreases j - i,
{
    if i + 1 < j {
        lemma_shelf_bands_ordered(shelves, next_shelf_y, width, height, i + 1, j);
    }
}

/// Law: the rectangles of any two distinct cached entries are disjoint — the
/// packer never hands out overlapping atlas regions.
pub proof fn lemma_entries_disjoint(
    entries: Seq<Entry>,
    shelves: Seq<Shelf>,
    next_shelf_y: int,
    width: int,
    height: int,
    i: int,
    j: int,
)
    requires
        shelves_wf(shelves, next_shelf_y, width, height),
        entries_wf(entries, shelves),
        0 <= i < entries.len(),
        0 <= j < entries.len(),
        i != j,
    ensures
        rects_disjoint(entries[i].rect, entries[j].rect),
{
    let a = entries[i];
    let b = entries[j];
    if a.shelf == b.shelf {
    } else if a.shelf < b.shelf {
        lemma_shelf_bands_ordered(
            shelves,
            next_shelf_y,
            width,
            height,
            a.shelf as int,
            b.shelf as int,
        );
    } else {
        lemma_shelf_bands_ordered(
            shelves,
            next_shelf_y,
            width,
            height,
            b.shelf as int,
            a.shelf as int,
        );
    }
}

/// Is some entry keyed by `k`?
pub open spec fn has_key(entries: Seq<Entry>, k: GlyphKey) -> bool {
    exists|i: int| 0 <= i < entries.len() && (#[trigger] entries[i]).key == k
}

/// Is some entry keyed by `k` with rectangle `rect`?
pub open spec fn entry_with(entries: Seq<Entry>, k: GlyphKey, rect: TextureRect) -> bool {
    exists|i: int|
        0 <= i < entries.len() && (#[trigger] entries[i]).key == k && entries[i].rect == rect
}

/// The rectangle of the entry keyed by `k` (meaningful when keys are unique
/// and `k` is present).
pub open spec fn rect_of(entries: Seq<Entry>, k: GlyphKey) -> TextureRect {
    choose|r: TextureRect| entry_with(entries, k, r)
}

/// With unique keys, `rect_of` is exactly the rectangle of the entry found.
pub proof fn lemma_rect_of_unique(entries: Seq<Entry>, k: GlyphKey, r: TextureRect)
    requires
        forall|i: int, j: int|
            0 <= i < entries.len() && 0 <= j < entries.len() && i != j ==> (#[trigger] entries[i]).key
                != (#[trigger] entries[j]).key,
        entry_with(entries, k, r),
    ensures
        rect_of(entries, k) == r,
{
    let picked = rect_of(entries, k);
    assert(entry_with(entries, k, picked));
    let i = choose|i: int|
        0 <= i < entries.len() && (#[trigger] entries[i]).key == k && entries[i].rect == picked;
    let j = choose|j: int|
        0 <= j < entries.len() && (#[trigger] entries[j]).key == k && entries[j].rect == r;
    assert(i == j);
}

/// A non-empty request whose bitmap cannot fit the atlas at all.
pub open spec fn oversized(width: int, height: int, g: GlyphRequest) -> bool {
    !is_empty_glyph(g) && (g.width_px as int > width || g.height_px as int > height)
}

/// The packer's bookkeeping: the shelf rows and the first unused atlas row.
pub struct PackState {
    pub shelves: Seq<Shelf>,
    pub next_shelf_y: int,
}

/// The bookkeeping of an empty atlas.
pub open spec fn empty_pack_state() -> PackState {
    PackState { shelves: Seq::empty(), next_shelf_y: 0 }
}

/// What one placement yields: the rectangle, its shelf, and the bookkeeping
/// afterwards.
pub struct PlaceResult {
    pub rect: TextureRect,
    pub shelf: int,
    pub state: PackState,
}

/// The first shelf at or after index `i` that can take a `w` × `h` bitmap.
pub open spec fn find_shelf(shelves: Seq<Shelf>, i: int, w: u32, h: u32, width: int) -> Option<
    int,
>
    decreases shelves.len() - i,
{
    if i < 0 || i >= shelves.len() {
        None
    } else if h <= shelves[i].height && shelves[i].next_x + w <= width {
        Some(i)
    } else {
        find_shelf(shelves, i + 1, w, h, width)
    }
}

/// The deterministic shelf-packer step: place on the first fitting row, else
/// open a fresh row below the last, else fail.
pub open spec fn place_spec(st: PackState, w: u32, h: u32, width: int, height: int) -> Option<
    PlaceResult,
> {
    match find_shelf(st.shelves, 0, w, h, width) {
        Some(i) => Some(
            PlaceResult {
                rect: TextureRect { x: st.shelves[i].next_x, y: st.shelves[i].y, w, h },
                shelf: i,
                state: PackState {
                    shelves: st.shelves.update(
                        i,
                        Shelf {
                            y: st.shelves[i].y,
                            height: st.shelves[i].height,
                            next_x: (st.shelves[i].next_x + w) as u32,
                        },
                    ),
                    next_shelf_y: st.next_shelf_y,
                },
            },
        ),
        None => if st.next_shelf_y + h <= height {
            Some(
                PlaceResult {
                    rect: TextureRect { x: 0, y: st.next_shelf_y as u32, w, h },
                    shelf: st.shelves.len() as int,
                    state: PackState {
                        shelves: st.shelves.push(
                            Shelf { y: st.next_shelf_y as u32, height: h, next_x: w },
                        ),
                        next_shelf_y: st.next_shelf_y + h,
                    },
                },
            )
        } else {
            None
        },
    }
}

/// Does the pending pass already hold `k`?
pub open spec fn pending_holds_key(pending: Seq<(GlyphKey, u32, u32)>, k: GlyphKey) -> bool {
    exists|p: int| 0 <= p < pending.len() && (#[trigger] pending[p]).0 == k
}

/// The deduplicated pass behind a queue: one (key, width, height) item per
/// distinct key among the non-empty requests, the first request winning.
pub open spec fn dedup_queue(
    queue: Seq<(u32, GlyphRequest)>,
    scale_tolerance_mf: int,
    position_tolerance_mf: int,
) -> Seq<(GlyphKey, u32, u32)>
    decreases queue.len(),
{
    if queue.len() == 0 {
        Seq::empty()
    } else {
        let prefix = dedup_queue(queue.drop_last(), scale_tolerance_mf, position_tolerance_mf);
        let font_id = queue.last().0;
        let g = queue.last().1;
        if is_empty_glyph(g) {
            prefix
        } else {
            let k = key_spec(scale_tolerance_mf, position_tolerance_mf, font_id, g);
            if pending_holds_key(prefix, k) {
                prefix
            } else {
                prefix.push((k, g.width_px, g.height_px))
            }
        }
    }
}

/// The bookkeeping after packing `pending[i..]` starting from `st`, or
/// nothing if some item does not fit.
pub open spec fn repack_from(
    pending: Seq<(GlyphKey, u32, u32)>,
    i: int,
    st: PackState,
    width: int,
    height: int,
) -> Option<PackState>
    decreases pending.len() - i,
{
    if i < 0 || i >= pending.len() {
        Some(st)
    } else {
        match place_spec(st, pending[i].1, pending[i].2, width, height) {
            Option::None => None,
            Option::Some(res) => repack_from(pending, i + 1, res.state, width, height),
        }
    }
}

/// Does a queue's deduplicated pass fit an empty atlas of the given size?
/// This is the room check the `NoRoomForWholeQueue` error answers for.
pub open spec fn pass_fits(
    queue: Seq<(u32, GlyphRequest)>,
    scale_tolerance_mf: int,
    position_tolerance_mf: int,
    width: int,
    height: int,
) -> bool {
    repack_from(
        dedup_queue(queue, scale_tolerance_mf, position_tolerance_mf),
        0,
        empty_pack_state(),
        width,
        height,
    ) is Some
}

/// Does the pending list already hold `key`?
fn pending_has_key(pending: &Vec<(GlyphKey, u32, u32)>, key: &GlyphKey) -> (r: bool)
    ensures
        r == pending_holds_key(pending@, *key),
{
    let n: usize = pending.len();
    let mut i: usize = 0;
    while i < n
        invariant
            n == pending@.len(),
            0 <= i <= n,
            forall|p: int| 0 <= p < i ==> (#[trigger] pending@[p]).0 != *key,
        decreases n - i,
    {
        if pending[i].0 == *key {
            return true;
        }
        i = i + 1;
    }
    false
}

/// The glyph atlas cache.
#[derive(Debug)]
pub struct GlyphAtlasCache {
    width: u32,
    height: u32,
    scale_tolerance_mf: i64,
    position_tolerance_mf: i64,
    entries: Vec<Entry>,
    shelves: Vec<Shelf>,
    next_shelf_y: u32,
    queue: Vec<(u32, GlyphRequest)>,
}

impl GlyphAtlasCache {
    /// The atlas width in pixels.
    pub closed spec fn spec_width(self) -> int {
        self.width as int
    }

    /// The atlas height in pixels.
    pub closed spec fn spec_height(self) -> int {
        self.height as int
    }

    /// The scale tolerance, thousandths of a pixel of font scale.
    pub closed spec fn spec_scale_tolerance(self) -> int {
        self.scale_tolerance_mf as int
    }

    /// The sub-pixel position tolerance, thousandths of a pixel.
    pub closed spec fn spec_position_tolerance(self) -> int {
        self.position_tolerance_mf as int
    }

    /// The cached entries.
    pub closed spec fn spec_entries(self) -> Seq<Entry> {
        self.entries@
    }

    /// The packer rows.
    pub closed spec fn spec_shelves(self) -> Seq<Shelf> {
        self.shelves@
    }

    /// The first unused atlas row.
    pub closed spec fn spec_next_shelf_y(self) -> int {
        self.next_shelf_y as int
    }

    /// The pending queue of (font, request) pairs.
    pub closed spec fn spec_queue(self) -> Seq<(u32, GlyphRequest)> {
        self.queue@
    }

    /// The key a request maps to under this cache's tolerances.
    pub open spec fn key_of(self, font_id: u32, g: GlyphRequest) -> GlyphKey {
        key_spec(self.spec_scale_tolerance(), self.spec_position_tolerance(), font_id, g)
    }

    /// A queued request is well-formed: non-negative scale and bounded
    /// coordinates and bitmap dimensions.
    pub open spec fn request_wf(g: GlyphRequest) -> bool {
        &&& 0 <= g.scale_mf <= 1_000_000_000_000
        &&& -1_000_000_000_000_000 <= g.x_mf <= 1_000_000_000_000_000
        &&& -1_000_000_000_000_000 <= g.y_mf <= 1_000_000_000_000_000
        &&& g.width_px <= 1_000_000
        &&& g.height_px <= 1_000_000
    }

    /// Cache well-formedness: sane dimensions and tolerances, stacked
    /// shelves, entries on their shelves with unique keys and disjoint
    /// x-ranges, and a queue of well-formed requests.
    pub open spec fn wf(self) -> bool {
        &&& 1 <= self.spec_width() <= 65_536
        &&& 1 <= self.spec_height() <= 65_536
        &&& 1 <= self.spec_scale_tolerance() <= 1_000_000_000
        &&& 1 <= self.spec_position_tolerance() <= 1_000_000_000
        &&& shelves_wf(
            self.spec_shelves(),
            self.spec_next_shelf_y(),
            self.spec_width(),
            self.spec_height(),
        )
        &&& entries_wf(self.spec_entries(), self.spec_shelves())
        &&& forall|i: int|
            0 <= i < self.spec_queue().len() ==> Self::request_wf(
                (#[trigger] self.spec_queue()[i]).1,
            )
    }

    /// An empty cache for an atlas of the given dimensions and tolerances.
    pub fn new(
        width: u32,
        height: u32,
        scale_tolerance_mf: i64,
        position_tolerance_mf: i64,
    ) -> (r: GlyphAtlasCache)
        requires
            1 <= width <= 65_536,
            1 <= height <= 65_536,
            1 <= scale_tolerance_mf <= 1_000_000_000,
            1 <= position_tolerance_mf <= 1_000_000_000,
        ensures
            r.wf(),
            r.spec_width() == width as int,
            r.spec_height() == height as int,
            r.spec_scale_tolerance() == scale_tolerance_mf as int,
            r.spec_position_tolerance() == position_tolerance_mf as int,
            r.spec_entries().len() == 0,
            r.spec_queue().len() == 0,
    {
        GlyphAtlasCache {
            width,
            height,
            scale_tolerance_mf,
            position_tolerance_mf,
            entries: Vec::new(),
            shelves: Vec::new(),
            next_shelf_y: 0,
            queue: Vec::new(),
        }
    }

    /// Record a glyph request for the current pass; requests accumulate
    /// until [`GlyphAtlasCache::cache_queued`] resolves them.
    pub fn queue_glyph(&mut self, font_id: u32, glyph: GlyphRequest)
        requires
            old(self).wf(),
            Self::request_wf(glyph),
        ensures
            final(self).wf(),
            final(self).spec_queue() == old(self).spec_queue().push((font_id, glyph)),
            final(self).spec_entries() == old(self).spec_entries(),
            final(self).spec_shelves() == old(self).spec_shelves(),
            final(self).spec_next_shelf_y() == old(self).spec_next_shelf_y(),
            final(self).spec_width() == old(self).spec_width(),
            final(self).spec_height() == old(self).spec_height(),
            final(self).spec_scale_tolerance() == old(self).spec_scale_tolerance(),
            final(self).spec_position_tolerance() == old(self).spec_position_tolerance(),
    {
        self.queue.push((font_id, glyph));
        proof {
            assert forall|i: int| 0 <= i < self.spec_queue().len() implies Self::request_wf(
                (#[trigger] self.spec_queue()[i]).1,
            ) by {
                if i < old(self).spec_queue().len() {
                    assert(self.spec_queue()[i] == old(self).spec_queue()[i]);
                } else {
                    assert(self.spec_queue()[i] == (font_id, glyph));
                }
            }
        }
    }

    /// Compute the quantized key of a request.
    pub fn compute_key(&self, font_id: u32, glyph: &GlyphRequest) -> (k: GlyphKey)
        requires
            self.wf(),
            Self::request_wf(*glyph),
        ensures
            k == self.key_of(font_id, *glyph),
    {
        let scale_bucket: i64 = glyph.scale_mf / self.scale_tolerance_mf;
        let x_frac: i64 = rem_euclid_fp(glyph.x_mf, 1000);
        let y_frac: i64 = rem_euclid_fp(glyph.y_mf, 1000);
        let x_bucket: i64 = x_frac / self.position_tolerance_mf;
        let y_bucket: i64 = y_frac / self.position_tolerance_mf;
        proof {
            vstd::arithmetic::div_mod::lemma_div_pos_is_pos(
                glyph.scale_mf as int,
                self.scale_tolerance_mf as int,
            );
            vstd::arithmetic::div_mod::lemma_div_nonincreasing(
                glyph.scale_mf as int,
                self.scale_tolerance_mf as int,
            );
            vstd::arithmetic::div_mod::lemma_div_pos_is_pos(
                x_frac as int,
                self.position_tolerance_mf as int,
            );
            vstd::arithmetic::div_mod::lemma_div_nonincreasing(
                x_frac as int,
                self.position_tolerance_mf as int,
            );
            vstd::arithmetic::div_mod::lemma_div_pos_is_pos(
                y_frac as int,
                self.position_tolerance_mf as int,
            );
            vstd::arithmetic::div_mod::lemma_div_nonincreasing(
                y_frac as int,
                self.position_tolerance_mf as int,
            );
        }
        GlyphKey { font_id, glyph_id: glyph.glyph_id, scale_bucket, x_bucket, y_bucket }
    }

    /// Look up the atlas rectangle a request is currently served from.
    pub fn rect_for(&self, font_id: u32, glyph: &GlyphRequest) -> (r: Option<TextureRect>)
        requires
            self.wf(),
            Self::request_wf(*glyph),
        ensures
            match r {
                Some(rect) => exists|i: int|
                    0 <= i < self.spec_entries().len() && (#[trigger] self.spec_entries()[i]).key
                        == self.key_of(font_id, *glyph) && self.spec_entries()[i].rect == rect,
                None => !has_key(self.spec_entries(), self.key_of(font_id, *glyph)),
            },
    {
        let key = self.compute_key(font_id, glyph);
        let n: usize = self.entries.len();
        let mut i: usize = 0;
        while i < n
            invariant
                n == self.spec_entries().len(),
                0 <= i <= n,
                forall|j: int|
                    0 <= j < i ==> (#[trigger] self.spec_entries()[j]).key != key,
                key == self.key_of(font_id, *glyph),
            decreases n - i,
        {
            if self.entries[i].key == key {
                return Some(self.entries[i].rect);
            }
            i = i + 1;
        }
        None
    }

    /// Find room for a `w` × `h` bitmap: the first shelf row at least as
    /// tall as the bitmap with enough width left, else a fresh row below the
    /// last.  Returns the rectangle and its shelf, or `None` (unchanged
    /// state) when no room is left.
    fn place(&mut self, w: u32, h: u32) -> (r: Option<(TextureRect, usize)>)
        requires
            old(self).wf(),
            1 <= w <= old(self).spec_width(),
            1 <= h <= old(self).spec_height(),
        ensures
            final(self).wf(),
            final(self).spec_width() == old(self).spec_width(),
            final(self).spec_height() == old(self).spec_height(),
            final(self).spec_scale_tolerance() == old(self).spec_scale_tolerance(),
            final(self).spec_position_tolerance() == old(self).spec_position_tolerance(),
            final(self).spec_entries() == old(self).spec_entries(),
            final(self).spec_queue() == old(self).spec_queue(),
            // shelves only evolve monotonically: same bands, cursors move right,
            // at most one new band below the old ones.
            final(self).spec_shelves().len() >= old(self).spec_shelves().len(),
            final(self).spec_shelves().len() <= old(self).spec_shelves().len() + 1,
            forall|i: int|
                0 <= i < old(self).spec_shelves().len() ==> (#[trigger] final(self).spec_shelves()[i]).y == old(self).spec_shelves()[i].y && final(self).spec_shelves()[i].height == old(self).spec_shelves()[i].height && final(self).spec_shelves()[i].next_x >= old(self).spec_shelves()[i].next_x,
            match r {
                None => *final(self) == *old(self),
                Some((rect, shelf)) => {
                    &&& shelf < final(self).spec_shelves().len()
                    &&& rect.w == w
                    &&& rect.h == h
                    &&& rect.x + rect.w <= final(self).spec_shelves()[shelf as int].next_x
                    &&& rect.y == final(self).spec_shelves()[shelf as int].y
                    &&& rect.h <= final(self).spec_shelves()[shelf as int].height
                    &&& rect.x + rect.w <= old(self).spec_width()
                    &&& rect.y + rect.h <= old(self).spec_height()
                    // freshness: the new rectangle starts at the old cursor of its
                    // shelf, or on a row no old shelf reaches.
                    &&& (shelf < old(self).spec_shelves().len() ==> rect.x == old(self).spec_shelves()[shelf as int].next_x)
                    &&& (shelf >= old(self).spec_shelves().len() ==> rect.y >= old(self).spec_next_shelf_y())
                },
            },
            // the executable packer agrees with its specification twin
            ({
                let st0 = PackState {
                    shelves: old(self).spec_shelves(),
                    next_shelf_y: old(self).spec_next_shelf_y(),
                };
                let st1 = PackState {
                    shelves: final(self).spec_shelves(),
                    next_shelf_y: final(self).spec_next_shelf_y(),
                };
                match r {
                    None => place_spec(st0, w, h, old(self).spec_width(), old(self).spec_height())
                        is None,
                    Some((rect, shelf)) => place_spec(
                        st0,
                        w,
                        h,
                        old(self).spec_width(),
                        old(self).spec_height(),
                    ) == Some(PlaceResult { rect, shelf: shelf as int, state: st1 }),
                }
            }),
    {
        let shelf_count: usize = self.shelves.len();
        let ghost st0 = PackState {
            shelves: self.spec_shelves(),
            next_shelf_y: self.spec_next_shelf_y(),
        };
        let mut si: usize = 0;
        while si < shelf_count
            invariant
                self == old(self),
                shelf_count == self.spec_shelves().len(),
                0 <= si <= shelf_count,
                self.wf(),
                1 <= w <= self.spec_width(),
                1 <= h <= self.spec_height(),
                st0 == (PackState {
                    shelves: self.spec_shelves(),
                    next_shelf_y: self.spec_next_shelf_y(),
                }),
                find_shelf(st0.shelves, 0, w, h, self.spec_width()) == find_shelf(
                    st0.shelves,
                    si as int,
                    w,
                    h,
                    self.spec_width(),
                ),
            decreases shelf_count - si,
        {
            let shelf = self.shelves[si];
            if h <= shelf.height && shelf.next_x + w <= self.width {
                proof {
                    assert(find_shelf(st0.shelves, si as int, w, h, self.spec_width()) == Some(
                        si as int,
                    ));
                }
                let rect = TextureRect { x: shelf.next_x, y: shelf.y, w, h };
                self.shelves[si] = Shelf {
                    y: shelf.y,
                    height: shelf.height,
                    next_x: shelf.next_x + w,
                };
                proof {
                    assert forall|i: int|
                        0 <= i < self.spec_entries().len() implies entry_wf(
                        #[trigger] self.spec_entries()[i],
                        self.spec_shelves(),
                    ) by {
                        assert(entry_wf(self.spec_entries()[i], old(self).spec_shelves()));
                    }
                    assert forall|qi: int|
                        0 <= qi < self.spec_queue().len() implies Self::request_wf(
                        (#[trigger] self.spec_queue()[qi]).1,
                    ) by {
                        assert(self.spec_queue()[qi] == old(self).spec_queue()[qi]);
                    }
                }
                return Some((rect, si));
            }
            proof {
                assert(find_shelf(st0.shelves, si as int, w, h, self.spec_width()) == find_shelf(
                    st0.shelves,
                    si as int + 1,
                    w,
                    h,
                    self.spec_width(),
                ));
            }
            si = si + 1;
        }
        proof {
            assert(find_shelf(st0.shelves, shelf_count as int, w, h, self.spec_width()) is None);
        }
        if self.next_shelf_y + h <= self.height {
            let rect = TextureRect { x: 0, y: self.next_shelf_y, w, h };
            let new_shelf = Shelf { y: self.next_shelf_y, height: h, next_x: w };
            self.shelves.push(new_shelf);
            self.next_shelf_y = self.next_shelf_y + h;
            proof {
                assert forall|i: int|
                    0 <= i < self.spec_entries().len() implies entry_wf(
                    #[trigger] self.spec_entries()[i],
                    self.spec_shelves(),
                ) by {
                    assert(entry_wf(self.spec_entries()[i], old(self).spec_shelves()));
                    assert(self.spec_shelves()[self.spec_entries()[i].shelf as int] == old(self).spec_shelves()[self.spec_entries()[i].shelf as int]);
                }
                assert forall|qi: int|
                    0 <= qi < self.spec_queue().len() implies Self::request_wf(
                    (#[trigger] self.spec_queue()[qi]).1,
                ) by {
                    assert(self.spec_queue()[qi] == old(self).spec_queue()[qi]);
                }
            }
            Some((rect, shelf_count))
        } else {
            None
        }
    }

    /// Law: two distinct cached entries never overlap in the atlas — an
    /// upload for one key cannot corrupt another key's pixels.
    pub proof fn lemma_rects_disjoint(self, i: int, j: int)
        requires
            self.wf(),
            0 <= i < self.spec_entries().len(),
            0 <= j < self.spec_entries().len(),
            i != j,
        ensures
            rects_disjoint(self.spec_entries()[i].rect, self.spec_entries()[j].rect),
    {
        lemma_entries_disjoint(
            self.spec_entries(),
            self.spec_shelves(),
            self.spec_next_shelf_y(),
            self.spec_width(),
            self.spec_height(),
            i,
            j,
        );
    }

    /// Did some queued, non-empty request quantize to `k`?
    pub open spec fn key_was_queued(self, k: GlyphKey) -> bool {
        exists|i: int|
            0 <= i < self.spec_queue().len() && !is_empty_glyph(
                (#[trigger] self.spec_queue()[i]).1,
            ) && self.key_of(self.spec_queue()[i].0, self.spec_queue()[i].1) == k
    }

    /// Equal atlas dimensions and tolerances.
    pub open spec fn same_config(self, other: Self) -> bool {
        &&& self.spec_width() == other.spec_width()
        &&& self.spec_height() == other.spec_height()
        &&& self.spec_scale_tolerance() == other.spec_scale_tolerance()
        &&& self.spec_position_tolerance() == other.spec_position_tolerance()
    }

    /// Is some cached entry keyed by `key`?
    fn contains_key(&self, key: &GlyphKey) -> (r: bool)
        ensures
            r == has_key(self.spec_entries(), *key),
    {
        let n: usize = self.entries.len();
        let mut i: usize = 0;
        while i < n
            invariant
                n == self.spec_entries().len(),
                0 <= i <= n,
                forall|j: int| 0 <= j < i ==> (#[trigger] self.spec_entries()[j]).key != *key,
            decreases n - i,
        {
            if self.entries[i].key == *key {
                return true;
            }
            i = i + 1;
        }
        false
    }

    /// The atlas width in pixels, as an executable value.
    pub fn width_px(&self) -> (r: u32)
        ensures
            r as int == self.spec_width(),
    {
        self.width
    }

    /// The atlas height in pixels, as an executable value.
    pub fn height_px(&self) -> (r: u32)
        ensures
            r as int == self.spec_height(),
    {
        self.height
    }

    /// Occupancy diagnostics: entry count and summed pixel area.
    pub fn stats(&self) -> (r: CacheStats)
        requires
            self.wf(),
        ensures
            r.entry_count == self.spec_entries().len(),
            r.used_area_px as int == used_area(self.spec_entries()),
            r.width as int == self.spec_width(),
            r.height as int == self.spec_height(),
    {
        let n: usize = self.entries.len();
        let mut area: u128 = 0;
        let mut i: usize = 0;
        while i < n
            invariant
                n == self.spec_entries().len(),
                0 <= i <= n,
                area as int == used_area(self.spec_entries().take(i as int)),
                self.wf(),
                area <= 0x1_0000_0000 * (i as u128),
            decreases n - i,
        {
            let e = self.entries[i];
            proof {
                assert(self.spec_entries().take(i as int + 1).drop_last() =~= self.spec_entries()
                    .take(i as int));
                assert(entry_wf(self.spec_entries()[i as int], self.spec_shelves()));
                assert((e.rect.w as int) * (e.rect.h as int) <= 0x1_0000_0000) by (nonlinear_arith)
                    requires
                        0 <= e.rect.w <= 65_536,
                        0 <= e.rect.h <= 65_536,
                ;
                assert((e.rect.w as int) * (e.rect.h as int) >= 0) by (nonlinear_arith);
            }
            area = area + (e.rect.w as u128) * (e.rect.h as u128);
            i = i + 1;
        }
        proof {
            assert(self.spec_entries().take(n as int) =~= self.spec_entries());
        }
        CacheStats { entry_count: n, used_area_px: area, width: self.width, height: self.height }
    }

    /// Resolve the queued requests against the cache and clear the queue.
    ///
    /// Requests are deduplicated by key.  A request already cached within
    /// tolerances is a hit and costs nothing; the others are packed into the
    /// atlas, and the returned regions name the rectangles whose pixels the
    /// caller must rasterize and upload — exactly one region per new key.
    /// When the atlas is full, every entry not requested in this pass (the
    /// least recently used ones) is evicted and the pass is packed afresh.
    ///
    /// Errors: a request larger than the whole atlas fails the pass with
    /// [`CacheWriteError::GlyphTooLarge`] and leaves the atlas untouched; a
    /// pass that cannot fit even an empty atlas fails with
    /// [`CacheWriteError::NoRoomForWholeQueue`] and leaves it cleared.
    #[verifier::rlimit(100)]
    pub fn cache_queued(&mut self) -> (r: Result<Vec<UploadRegion>, CacheWriteError>)
        requires
            old(self).wf(),
        ensures
            final(self).wf(),
            final(self).same_config(*old(self)),
            final(self).spec_queue().len() == 0,
            match r {
                Result::Err(e) => match e {
                    CacheWriteError::GlyphTooLarge { width_px, height_px } => {
                        &&& exists|i: int|
                            0 <= i < old(self).spec_queue().len() && oversized(
                                old(self).spec_width(),
                                old(self).spec_height(),
                                (#[trigger] old(self).spec_queue()[i]).1,
                            ) && old(self).spec_queue()[i].1.width_px == width_px && old(
                                self,
                            ).spec_queue()[i].1.height_px == height_px
                        &&& final(self).spec_entries() == old(self).spec_entries()
                        &&& final(self).spec_shelves() == old(self).spec_shelves()
                        &&& final(self).spec_next_shelf_y() == old(self).spec_next_shelf_y()
                    },
                    CacheWriteError::NoRoomForWholeQueue => {
                        &&& final(self).spec_entries().len() == 0
                        &&& forall|i: int|
                            0 <= i < old(self).spec_queue().len() ==> !oversized(
                                old(self).spec_width(),
                                old(self).spec_height(),
                                (#[trigger] old(self).spec_queue()[i]).1,
                            )
                        // a pass with nothing to rasterize cannot run out of room
                        &&& exists|i: int|
                            0 <= i < old(self).spec_queue().len() && !is_empty_glyph(
                                (#[trigger] old(self).spec_queue()[i]).1,
                            )
                        // room truly ran out: the deterministic packer cannot fit
                        // this pass even into an empty atlas
                        &&& !pass_fits(
                            old(self).spec_queue(),
                            old(self).spec_scale_tolerance(),
                            old(self).spec_position_tolerance(),
                            old(self).spec_width(),
                            old(self).spec_height(),
                        )
                    },
                },
                Result::Ok(regions) => {
                    &&& forall|i: int|
                        0 <= i < old(self).spec_queue().len() ==> !oversized(
                            old(self).spec_width(),
                            old(self).spec_height(),
                            (#[trigger] old(self).spec_queue()[i]).1,
                        )
                    &&& forall|i: int|
                        0 <= i < old(self).spec_queue().len() && !is_empty_glyph(
                            (#[trigger] old(self).spec_queue()[i]).1,
                        ) ==> has_key(
                            final(self).spec_entries(),
                            old(self).key_of(
                                old(self).spec_queue()[i].0,
                                old(self).spec_queue()[i].1,
                            ),
                        )
                    &&& forall|i: int|
                        0 <= i < regions@.len() ==> entry_with(
                            final(self).spec_entries(),
                            (#[trigger] regions@[i]).key,
                            regions@[i].rect,
                        )
                    &&& forall|i: int|
                        0 <= i < regions@.len() ==> old(self).key_was_queued(
                            (#[trigger] regions@[i]).key,
                        )
                    &&& forall|i: int, j: int|
                        0 <= i < regions@.len() && 0 <= j < regions@.len() && i != j ==> (
                        #[trigger] regions@[i]).key != (#[trigger] regions@[j]).key
                    &&& ({
                        &&& forall|i: int|
                            0 <= i < old(self).spec_entries().len() ==> entry_with(
                                final(self).spec_entries(),
                                (#[trigger] old(self).spec_entries()[i]).key,
                                old(self).spec_entries()[i].rect,
                            )
                        &&& forall|i: int|
                            0 <= i < regions@.len() ==> !has_key(
                                old(self).spec_entries(),
                                (#[trigger] regions@[i]).key,
                            )
                    } || {
                        forall|i: int|
                            0 <= i < final(self).spec_entries().len() ==> old(
                                self,
                            ).key_was_queued((#[trigger] final(self).spec_entries()[i]).key)
                    })
                },
            },
    {
        let qn: usize = self.queue.len();
        // Reject any request larger than the whole atlas before mutating.
        let mut qi: usize = 0;
        while qi < qn
            invariant
                *self == *old(self),
                self.wf(),
                qn == self.spec_queue().len(),
                0 <= qi <= qn,
                forall|j: int|
                    0 <= j < qi ==> !oversized(
                        self.spec_width(),
                        self.spec_height(),
                        (#[trigger] self.spec_queue()[j]).1,
                    ),
            decreases qn - qi,
        {
            let g = self.queue[qi].1;
            if g.width_px > 0 && g.height_px > 0 && (g.width_px > self.width || g.height_px
                > self.height) {
                self.queue.clear();
                return Err(CacheWriteError::GlyphTooLarge {
                    width_px: g.width_px,
                    height_px: g.height_px,
                });
            }
            qi = qi + 1;
        }
        // Deduplicate the queue: one pending item per key, first request wins.
        let mut pending: Vec<(GlyphKey, u32, u32)> = Vec::new();
        proof {
            assert(self.spec_queue().take(0) =~= Seq::<(u32, GlyphRequest)>::empty());
        }
        let mut qi: usize = 0;
        while qi < qn
            invariant
                *self == *old(self),
                self.wf(),
                qn == self.spec_queue().len(),
                0 <= qi <= qn,
                forall|j: int|
                    0 <= j < qn ==> !oversized(
                        self.spec_width(),
                        self.spec_height(),
                        (#[trigger] self.spec_queue()[j]).1,
                    ),
                forall|p: int, q: int|
                    0 <= p < pending@.len() && 0 <= q < pending@.len() && p != q ==> (
                    #[trigger] pending@[p]).0 != (#[trigger] pending@[q]).0,
                forall|p: int|
                    0 <= p < pending@.len() ==> self.key_was_queued((#[trigger] pending@[p]).0),
                forall|p: int|
                    0 <= p < pending@.len() ==> 1 <= (#[trigger] pending@[p]).1
                        <= self.spec_width() && 1 <= pending@[p].2 <= self.spec_height(),
                forall|j: int|
                    0 <= j < qi && !is_empty_glyph((#[trigger] self.spec_queue()[j]).1)
                        ==> exists|p: int|
                        0 <= p < pending@.len() && (#[trigger] pending@[p]).0 == self.key_of(
                            self.spec_queue()[j].0,
                            self.spec_queue()[j].1,
                        ),
                pending@ == dedup_queue(
                    self.spec_queue().take(qi as int),
                    self.spec_scale_tolerance(),
                    self.spec_position_tolerance(),
                ),
            decreases qn - qi,
        {
            proof {
                assert(self.spec_queue().take(qi as int + 1).drop_last() =~= self.spec_queue()
                    .take(qi as int));
                assert(self.spec_queue().take(qi as int + 1).last() == self.spec_queue()[qi as int]);
            }
            let font_id = self.queue[qi].0;
            let g = self.queue[qi].1;
            if g.width_px > 0 && g.height_px > 0 {
                let key = self.compute_key(font_id, &g);
                let pcount: usize = pending.len();
                let found = pending_has_key(&pending, &key);
                let ghost pre_pending = pending@;
                if !found {
                    proof {
                        assert(self.spec_queue()[qi as int] == (font_id, g));
                    }
                    pending.push((key, g.width_px, g.height_px));
                    proof {
                        assert forall|p: int| 0 <= p < pre_pending.len() implies (
                        #[trigger] pending@[p]) == pre_pending[p] by {}
                        assert(pending@[pcount as int] == (key, g.width_px, g.height_px));
                        assert forall|p: int, q: int|
                            0 <= p < pending@.len() && 0 <= q < pending@.len() && p
                            != q implies (#[trigger] pending@[p]).0 != (
                        #[trigger] pending@[q]).0 by {
                            if p < pcount && q < pcount {
                                assert(pending@[p] == pre_pending[p]);
                                assert(pending@[q] == pre_pending[q]);
                            } else if p < pcount {
                                assert(pending@[p] == pre_pending[p]);
                                assert(pre_pending[p].0 != key);
                            } else if q < pcount {
                                assert(pending@[q] == pre_pending[q]);
                                assert(pre_pending[q].0 != key);
                            }
                        }
                    }
                }
                proof {
                    assert forall|j: int|
                        0 <= j < qi + 1 && !is_empty_glyph(
                            (#[trigger] self.spec_queue()[j]).1,
                        ) implies exists|p: int|
                        0 <= p < pending@.len() && (#[trigger] pending@[p]).0 == self.key_of(
                            self.spec_queue()[j].0,
                            self.spec_queue()[j].1,
                        ) by {
                        if j < qi {
                            let p = choose|p: int|
                                0 <= p < pre_pending.len() && (#[trigger] pre_pending[p]).0
                                    == self.key_of(
                                    self.spec_queue()[j].0,
                                    self.spec_queue()[j].1,
                                );
                            assert(pending@[p] == pre_pending[p]);
                        } else {
                            if found {
                                let p = choose|p: int|
                                    0 <= p < pre_pending.len() && (#[trigger] pre_pending[p]).0
                                        == key;
                                assert(pending@[p] == pre_pending[p]);
                            } else {
                                assert(pending@[pcount as int].0 == key);
                            }
                        }
                    }
                }
            }
            qi = qi + 1;
        }
        proof {
            assert(self.spec_queue().take(qn as int) =~= self.spec_queue());
        }
        // Split pending into hits and misses.
        let ghost entries0 = self.spec_entries();
        let pn: usize = pending.len();
        let mut misses: Vec<(GlyphKey, u32, u32)> = Vec::new();
        let mut pi: usize = 0;
        while pi < pn
            invariant
                *self == *old(self),
                self.wf(),
                entries0 == self.spec_entries(),
                pn == pending@.len(),
                0 <= pi <= pn,
                pending@ == dedup_queue(
                    old(self).spec_queue(),
                    old(self).spec_scale_tolerance(),
                    old(self).spec_position_tolerance(),
                ),
                forall|p: int, q: int|
                    0 <= p < pending@.len() && 0 <= q < pending@.len() && p != q ==> (
                    #[trigger] pending@[p]).0 != (#[trigger] pending@[q]).0,
                forall|p: int|
                    0 <= p < pending@.len() ==> 1 <= (#[trigger] pending@[p]).1
                        <= self.spec_width() && 1 <= pending@[p].2 <= self.spec_height(),
                forall|p: int|
                    0 <= p < pending@.len() ==> self.key_was_queued((#[trigger] pending@[p]).0),
                forall|m: int|
                    0 <= m < misses@.len() ==> exists|p: int|
                        0 <= p < pi && (#[trigger] misses@[m]) == (#[trigger] pending@[p]),
                forall|m: int|
                    0 <= m < misses@.len() ==> self.key_was_queued((#[trigger] misses@[m]).0),
                forall|m: int|
                    0 <= m < misses@.len() ==> !has_key(entries0, (#[trigger] misses@[m]).0),
                forall|m: int, m2: int|
                    0 <= m < misses@.len() && 0 <= m2 < misses@.len() && m != m2 ==> (
                    #[trigger] misses@[m]).0 != (#[trigger] misses@[m2]).0,
                forall|p: int|
                    0 <= p < pi ==> has_key(entries0, (#[trigger] pending@[p]).0) || exists|m: int|
                        0 <= m < misses@.len() && (#[trigger] misses@[m]) == pending@[p],
            decreases pn - pi,
        {
            let item = pending[pi];
            let ghost pre_misses = misses@;
            if !self.contains_key(&item.0) {
                misses.push(item);
                proof {
                    assert forall|m: int| 0 <= m < pre_misses.len() implies (
                    #[trigger] misses@[m]) == pre_misses[m] by {}
                    assert(misses@[pre_misses.len() as int] == item);
                    assert(item == pending@[pi as int]);
                    assert forall|m: int, m2: int|
                        0 <= m < misses@.len() && 0 <= m2 < misses@.len() && m != m2 implies (
                    #[trigger] misses@[m]).0 != (#[trigger] misses@[m2]).0 by {
                        if m < pre_misses.len() && m2 < pre_misses.len() {
                        } else if m < pre_misses.len() {
                            let p = choose|p: int|
                                0 <= p < pi && (#[trigger] pre_misses[m]) == (
                                #[trigger] pending@[p]);
                            assert(misses@[m] == pending@[p]);
                            assert(p != pi as int);
                        } else if m2 < pre_misses.len() {
                            let p = choose|p: int|
                                0 <= p < pi && (#[trigger] pre_misses[m2]) == (
                                #[trigger] pending@[p]);
                            assert(misses@[m2] == pending@[p]);
                            assert(p != pi as int);
                        }
                    }
                }
            }
            proof {
                assert forall|p: int|
                    0 <= p < pi + 1 implies has_key(entries0, (#[trigger] pending@[p]).0)
                    || exists|m: int|
                    0 <= m < misses@.len() && (#[trigger] misses@[m]) == pending@[p] by {
                    if p < pi {
                        if !has_key(entries0, pending@[p].0) {
                            let m = choose|m: int|
                                0 <= m < pre_misses.len() && (#[trigger] pre_misses[m])
                                    == pending@[p];
                            assert(misses@[m] == pre_misses[m]);
                        }
                    } else {
                        if !has_key(entries0, pending@[p].0) {
                            assert(misses@[pre_misses.len() as int] == pending@[p]);
                        }
                    }
                }
            }
            pi = pi + 1;
        }
        // Pack the misses into the remaining space.
        let n0: usize = self.entries.len();
        let mn: usize = misses.len();
        let mut regions: Vec<UploadRegion> = Vec::new();
        let mut mi: usize = 0;
        let mut fits = true;
        while mi < mn
            invariant_except_break
                fits,
                self.spec_entries().len() == n0 + mi,
                regions@.len() == mi,
                forall|j: int|
                    0 <= j < n0 ==> (#[trigger] self.spec_entries()[j]) == entries0[j],
                forall|k: int|
                    n0 <= k < n0 + mi ==> (#[trigger] self.spec_entries()[k]).key == misses@[k
                        - n0].0 && regions@[k - n0] == (UploadRegion {
                        key: self.spec_entries()[k].key,
                        rect: self.spec_entries()[k].rect,
                    }),
            invariant
                self.wf(),
                self.same_config(*old(self)),
                self.spec_queue() == old(self).spec_queue(),
                qn == self.spec_queue().len(),
                entries0 == old(self).spec_entries(),
                mn == misses@.len(),
                pn == pending@.len(),
                pending@ == dedup_queue(
                    old(self).spec_queue(),
                    old(self).spec_scale_tolerance(),
                    old(self).spec_position_tolerance(),
                ),
                0 <= mi <= mn,
                n0 == entries0.len(),
                forall|j: int|
                    0 <= j < qn ==> !oversized(
                        old(self).spec_width(),
                        old(self).spec_height(),
                        (#[trigger] old(self).spec_queue()[j]).1,
                    ),
                forall|j: int|
                    0 <= j < qn && !is_empty_glyph((#[trigger] old(self).spec_queue()[j]).1)
                        ==> exists|p: int|
                        0 <= p < pending@.len() && (#[trigger] pending@[p]).0 == old(
                            self,
                        ).key_of(old(self).spec_queue()[j].0, old(self).spec_queue()[j].1),
                forall|p: int|
                    0 <= p < pending@.len() ==> old(self).key_was_queued(
                        (#[trigger] pending@[p]).0,
                    ),
                forall|p: int|
                    0 <= p < pn ==> has_key(entries0, (#[trigger] pending@[p]).0) || exists|m: int|
                        0 <= m < misses@.len() && (#[trigger] misses@[m]) == pending@[p],
                forall|m: int|
                    0 <= m < misses@.len() ==> old(self).key_was_queued((#[trigger] misses@[m]).0),
                forall|m: int|
                    0 <= m < misses@.len() ==> !has_key(entries0, (#[trigger] misses@[m]).0),
                forall|m: int, m2: int|
                    0 <= m < misses@.len() && 0 <= m2 < misses@.len() && m != m2 ==> (
                    #[trigger] misses@[m]).0 != (#[trigger] misses@[m2]).0,
                forall|p: int|
                    0 <= p < misses@.len() ==> 1 <= (#[trigger] misses@[p]).1 <= self.spec_width()
                        && 1 <= misses@[p].2 <= self.spec_height(),
            ensures
                fits ==> self.spec_entries().len() == n0 + mn,
                fits ==> regions@.len() == mn,
                fits ==> forall|j: int|
                    0 <= j < n0 ==> (#[trigger] self.spec_entries()[j]) == entries0[j],
                fits ==> forall|k: int|
                    n0 <= k < n0 + mn ==> (#[trigger] self.spec_entries()[k]).key == misses@[k
                        - n0].0 && regions@[k - n0] == (UploadRegion {
                        key: self.spec_entries()[k].key,
                        rect: self.spec_entries()[k].rect,
                    }),
            decreases mn - mi,
        {
            let item = misses[mi];
            let ghost pre_shelves = self.spec_shelves();
            let ghost pre_entries = self.spec_entries();
            let ghost pre_regions = regions@;
            let placement = self.place(item.1, item.2);
            match placement {
                Option::Some(slot) => {
                    let entry = Entry { key: item.0, rect: slot.0, shelf: slot.1 };
                    proof {
                        assert(self.spec_entries() == pre_entries);
                        assert(entries_wf(self.spec_entries(), pre_shelves));
                        assert forall|j: int|
                            0 <= j < self.spec_entries().len() implies (
                        #[trigger] self.spec_entries()[j]).key != entry.key by {
                            assert(self.spec_entries()[j] == pre_entries[j]);
                            if j < n0 {
                                assert(pre_entries[j] == entries0[j]);
                                assert(!has_key(entries0, entry.key));
                            } else {
                                assert(pre_entries[j].key == misses@[j - n0].0);
                                assert(misses@[j - n0].0 != misses@[mi as int].0);
                            }
                        }
                        lemma_push_entry_keeps_wf(
                            self.spec_entries(),
                            self.spec_shelves(),
                            pre_shelves,
                            entry,
                        );
                    }
                    self.entries.push(entry);
                    regions.push(UploadRegion { key: entry.key, rect: entry.rect });
                    proof {
                        assert(self.spec_entries() == pre_entries.push(entry));
                        assert forall|j: int| 0 <= j < n0 implies (
                        #[trigger] self.spec_entries()[j]) == entries0[j] by {
                            assert(self.spec_entries()[j] == pre_entries[j]);
                        }
                        assert forall|k: int| n0 <= k < n0 + mi + 1 implies (
                        #[trigger] self.spec_entries()[k]).key == misses@[k - n0].0
                            && regions@[k - n0] == (UploadRegion {
                            key: self.spec_entries()[k].key,
                            rect: self.spec_entries()[k].rect,
                        }) by {
                            if k < n0 + mi {
                                assert(self.spec_entries()[k] == pre_entries[k]);
                                assert(regions@[k - n0] == pre_regions[k - n0]);
                            } else {
                                assert(self.spec_entries()[k] == entry);
                                assert(regions@[mi as int] == (UploadRegion {
                                    key: entry.key,
                                    rect: entry.rect,
                                }));
                            }
                        }
                    }
                },
                Option::None => {
                    fits = false;
                    break ;
                },
            }
            mi = mi + 1;
        }
        if fits {
            let ghost done_entries = self.spec_entries();
            self.queue.clear();
            proof {
                assert(self.spec_entries() == done_entries);
                assert forall|i: int|
                    0 <= i < qn && !is_empty_glyph(
                        (#[trigger] old(self).spec_queue()[i]).1,
                    ) implies has_key(
                    self.spec_entries(),
                    old(self).key_of(old(self).spec_queue()[i].0, old(self).spec_queue()[i].1),
                ) by {
                    let k = old(self).key_of(
                        old(self).spec_queue()[i].0,
                        old(self).spec_queue()[i].1,
                    );
                    let p = choose|p: int| 0 <= p < pending@.len() && (#[trigger] pending@[p]).0
                        == k;
                    if has_key(entries0, k) {
                        let j = choose|j: int|
                            0 <= j < entries0.len() && (#[trigger] entries0[j]).key == k;
                        assert(self.spec_entries()[j] == done_entries[j]);
                        assert(done_entries[j] == entries0[j]);
                    } else {
                        let m = choose|m: int|
                            0 <= m < misses@.len() && (#[trigger] misses@[m]) == pending@[p];
                        assert(self.spec_entries()[n0 + m] == done_entries[n0 + m]);
                        assert(done_entries[n0 + m].key == misses@[m].0);
                    }
                }
                assert forall|i: int|
                    0 <= i < old(self).spec_entries().len() implies entry_with(
                    self.spec_entries(),
                    (#[trigger] old(self).spec_entries()[i]).key,
                    old(self).spec_entries()[i].rect,
                ) by {
                    assert(self.spec_entries()[i] == done_entries[i]);
                    assert(done_entries[i] == entries0[i]);
                }
                assert forall|i: int|
                    0 <= i < regions@.len() implies entry_with(
                    self.spec_entries(),
                    (#[trigger] regions@[i]).key,
                    regions@[i].rect,
                ) && old(self).key_was_queued(regions@[i].key) && !has_key(
                    old(self).spec_entries(),
                    regions@[i].key,
                ) by {
                    assert(self.spec_entries()[n0 + i] == done_entries[n0 + i]);
                    assert(regions@[i] == (UploadRegion {
                        key: done_entries[n0 + i].key,
                        rect: done_entries[n0 + i].rect,
                    }));
                    assert(done_entries[n0 + i].key == misses@[i].0);
                    assert(old(self).key_was_queued(misses@[i].0));
                }
                assert forall|i: int, j: int|
                    0 <= i < regions@.len() && 0 <= j < regions@.len() && i != j implies (
                #[trigger] regions@[i]).key != (#[trigger] regions@[j]).key by {
                    assert(regions@[i] == (UploadRegion {
                        key: done_entries[n0 + i].key,
                        rect: done_entries[n0 + i].rect,
                    }));
                    assert(regions@[j] == (UploadRegion {
                        key: done_entries[n0 + j].key,
                        rect: done_entries[n0 + j].rect,
                    }));
                    assert(done_entries[n0 + i].key == misses@[i].0);
                    assert(done_entries[n0 + j].key == misses@[j].0);
                }
            }
            return Ok(regions);
        }
        // Not enough room: evict everything not in this pass and repack.
        self.entries = Vec::new();
        self.shelves = Vec::new();
        self.next_shelf_y = 0;
        proof {
            assert(self.spec_shelves() =~= Seq::<Shelf>::empty());
            assert((PackState {
                shelves: self.spec_shelves(),
                next_shelf_y: self.spec_next_shelf_y(),
            }) == empty_pack_state());
        }
        let mut regions: Vec<UploadRegion> = Vec::new();
        let mut pi: usize = 0;
        let mut ok = true;
        while pi < pn
            invariant_except_break
                ok,
                self.spec_entries().len() == pi,
                regions@.len() == pi,
                forall|k: int|
                    0 <= k < pi ==> (#[trigger] self.spec_entries()[k]).key == pending@[k].0
                        && regions@[k] == (UploadRegion {
                        key: self.spec_entries()[k].key,
                        rect: self.spec_entries()[k].rect,
                    }),
                repack_from(
                    pending@,
                    0,
                    empty_pack_state(),
                    old(self).spec_width(),
                    old(self).spec_height(),
                ) == repack_from(
                    pending@,
                    pi as int,
                    PackState { shelves: self.spec_shelves(), next_shelf_y: self.spec_next_shelf_y() },
                    old(self).spec_width(),
                    old(self).spec_height(),
                ),
            invariant
                self.wf(),
                self.same_config(*old(self)),
                self.spec_queue() == old(self).spec_queue(),
                qn == self.spec_queue().len(),
                pn == pending@.len(),
                0 <= pi <= pn,
                pending@ == dedup_queue(
                    old(self).spec_queue(),
                    old(self).spec_scale_tolerance(),
                    old(self).spec_position_tolerance(),
                ),
                forall|j: int|
                    0 <= j < qn ==> !oversized(
                        old(self).spec_width(),
                        old(self).spec_height(),
                        (#[trigger] old(self).spec_queue()[j]).1,
                    ),
                forall|j: int|
                    0 <= j < qn && !is_empty_glyph((#[trigger] old(self).spec_queue()[j]).1)
                        ==> exists|p: int|
                        0 <= p < pending@.len() && (#[trigger] pending@[p]).0 == old(
                            self,
                        ).key_of(old(self).spec_queue()[j].0, old(self).spec_queue()[j].1),
                forall|p: int, q: int|
                    0 <= p < pending@.len() && 0 <= q < pending@.len() && p != q ==> (
                    #[trigger] pending@[p]).0 != (#[trigger] pending@[q]).0,
                forall|p: int|
                    0 <= p < pending@.len() ==> 1 <= (#[trigger] pending@[p]).1
                        <= self.spec_width() && 1 <= pending@[p].2 <= self.spec_height(),
                forall|p: int|
                    0 <= p < pending@.len() ==> old(self).key_was_queued(
                        (#[trigger] pending@[p]).0,
                    ),
            ensures
                !ok ==> pn > 0,
                !ok ==> repack_from(
                    pending@,
                    0,
                    empty_pack_state(),
                    old(self).spec_width(),
                    old(self).spec_height(),
                ) is None,
                ok ==> self.spec_entries().len() == pn,
                ok ==> regions@.len() == pn,
                ok ==> forall|k: int|
                    0 <= k < pn ==> (#[trigger] self.spec_entries()[k]).key == pending@[k].0
                        && regions@[k] == (UploadRegion {
                        key: self.spec_entries()[k].key,
                        rect: self.spec_entries()[k].rect,
                    }),
            decreases pn - pi,
        {
            let item = pending[pi];
            let ghost pre_shelves = self.spec_shelves();
            let ghost pre_entries = self.spec_entries();
            let ghost pre_regions = regions@;
            let ghost pre_state = PackState {
                shelves: self.spec_shelves(),
                next_shelf_y: self.spec_next_shelf_y(),
            };
            let placement = self.place(item.1, item.2);
            match placement {
                Option::Some(slot) => {
                    let entry = Entry { key: item.0, rect: slot.0, shelf: slot.1 };
                    proof {
                        assert(place_spec(
                            pre_state,
                            item.1,
                            item.2,
                            old(self).spec_width(),
                            old(self).spec_height(),
                        ) == Some(
                            PlaceResult {
                                rect: slot.0,
                                shelf: slot.1 as int,
                                state: PackState {
                                    shelves: self.spec_shelves(),
                                    next_shelf_y: self.spec_next_shelf_y(),
                                },
                            },
                        ));
                        assert(repack_from(
                            pending@,
                            pi as int,
                            pre_state,
                            old(self).spec_width(),
                            old(self).spec_height(),
                        ) == repack_from(
                            pending@,
                            pi as int + 1,
                            PackState {
                                shelves: self.spec_shelves(),
                                next_shelf_y: self.spec_next_shelf_y(),
                            },
                            old(self).spec_width(),
                            old(self).spec_height(),
                        ));
                        assert(self.spec_entries() == pre_entries);
                        assert(entries_wf(self.spec_entries(), pre_shelves));
                        assert forall|j: int|
                            0 <= j < self.spec_entries().len() implies (
                        #[trigger] self.spec_entries()[j]).key != entry.key by {
                            assert(self.spec_entries()[j] == pre_entries[j]);
                            assert(pre_entries[j].key == pending@[j].0);
                            assert(pending@[j].0 != pending@[pi as int].0);
                        }
                        lemma_push_entry_keeps_wf(
                            self.spec_entries(),
                            self.spec_shelves(),
                            pre_shelves,
                            entry,
                        );
                    }
                    self.entries.push(entry);
                    regions.push(UploadRegion { key: entry.key, rect: entry.rect });
                    proof {
                        assert(self.spec_entries() == pre_entries.push(entry));
                        assert forall|k: int| 0 <= k < pi + 1 implies (
                        #[trigger] self.spec_entries()[k]).key == pending@[k].0 && regions@[k]
                            == (UploadRegion {
                            key: self.spec_entries()[k].key,
                            rect: self.spec_entries()[k].rect,
                        }) by {
                            if k < pi {
                                assert(self.spec_entries()[k] == pre_entries[k]);
                                assert(regions@[k] == pre_regions[k]);
                            } else {
                                assert(self.spec_entries()[k] == entry);
                                assert(regions@[pi as int] == (UploadRegion {
                                    key: entry.key,
                                    rect: entry.rect,
                                }));
                            }
                        }
                    }
                },
                Option::None => {
                    proof {
                        assert(place_spec(
                            pre_state,
                            item.1,
                            item.2,
                            old(self).spec_width(),
                            old(self).spec_height(),
                        ) is None);
                        assert(repack_from(
                            pending@,
                            pi as int,
                            pre_state,
                            old(self).spec_width(),
                            old(self).spec_height(),
                        ) is None);
                    }
                    ok = false;
                    break ;
                },
            }
            pi = pi + 1;
        }
        if ok {
            let ghost done_entries = self.spec_entries();
            self.queue.clear();
            proof {
                assert(self.spec_entries() == done_entries);
                assert forall|i: int|
                    0 <= i < qn && !is_empty_glyph(
                        (#[trigger] old(self).spec_queue()[i]).1,
                    ) implies has_key(
                    self.spec_entries(),
                    old(self).key_of(old(self).spec_queue()[i].0, old(self).spec_queue()[i].1),
                ) by {
                    let k = old(self).key_of(
                        old(self).spec_queue()[i].0,
                        old(self).spec_queue()[i].1,
                    );
                    let p = choose|p: int| 0 <= p < pending@.len() && (#[trigger] pending@[p]).0
                        == k;
                    assert(self.spec_entries()[p] == done_entries[p]);
                    assert(done_entries[p].key == pending@[p].0);
                }
                assert forall|i: int|
                    0 <= i < regions@.len() implies entry_with(
                    self.spec_entries(),
                    (#[trigger] regions@[i]).key,
                    regions@[i].rect,
                ) && old(self).key_was_queued(regions@[i].key) by {
                    assert(self.spec_entries()[i] == done_entries[i]);
                    assert(regions@[i] == (UploadRegion {
                        key: done_entries[i].key,
                        rect: done_entries[i].rect,
                    }));
                    assert(done_entries[i].key == pending@[i].0);
                }
                assert forall|i: int, j: int|
                    0 <= i < regions@.len() && 0 <= j < regions@.len() && i != j implies (
                #[trigger] regions@[i]).key != (#[trigger] regions@[j]).key by {
                    assert(regions@[i] == (UploadRegion {
                        key: done_entries[i].key,
                        rect: done_entries[i].rect,
                    }));
                    assert(regions@[j] == (UploadRegion {
                        key: done_entries[j].key,
                        rect: done_entries[j].rect,
                    }));
                    assert(done_entries[i].key == pending@[i].0);
                    assert(done_entries[j].key == pending@[j].0);
                }
                assert forall|i: int|
                    0 <= i < self.spec_entries().len() implies old(self).key_was_queued(
                    (#[trigger] self.spec_entries()[i]).key,
                ) by {
                    assert(self.spec_entries()[i] == done_entries[i]);
                    assert(done_entries[i].key == pending@[i].0);
                }
            }
            return Ok(regions);
        }
        self.entries = Vec::new();
        self.shelves = Vec::new();
        self.next_shelf_y = 0;
        self.queue.clear();
        proof {
            assert(old(self).key_was_queued(pending@[0].0));
            assert(!pass_fits(
                old(self).spec_queue(),
                old(self).spec_scale_tolerance(),
                old(self).spec_position_tolerance(),
                old(self).spec_width(),
                old(self).spec_height(),
            ));
        }
        Err(CacheWriteError::NoRoomForWholeQueue)
    }
}

/// Pushing a freshly placed entry preserves the entry-table invariant: the
/// new rectangle starts at its shelf's old cursor (or on a fresh shelf), so
/// it cannot collide with anything already placed, and its key is new.
proof fn lemma_push_entry_keeps_wf(
    entries: Seq<Entry>,
    shelves: Seq<Shelf>,
    pre: Seq<Shelf>,
    e: Entry,
)
    requires
        entries_wf(entries, shelves),
        entries_wf(entries, pre),
        entry_wf(e, shelves),
        e.shelf < pre.len() ==> e.rect.x == pre[e.shelf as int].next_x,
        forall|j: int| 0 <= j < entries.len() ==> (#[trigger] entries[j]).key != e.key,
    ensures
        entries_wf(entries.push(e), shelves),
{
    let combined = entries.push(e);
    assert forall|i: int| 0 <= i < combined.len() implies entry_wf(
        #[trigger] combined[i],
        shelves,
    ) by {
        if i < entries.len() {
            assert(combined[i] == entries[i]);
        } else {
            assert(combined[i] == e);
        }
    }
    assert forall|i: int, j: int|
        0 <= i < combined.len() && 0 <= j < combined.len() && i != j implies (
    #[trigger] combined[i]).key != (#[trigger] combined[j]).key by {
        if i < entries.len() && j < entries.len() {
            assert(combined[i] == entries[i] && combined[j] == entries[j]);
        } else if i < entries.len() {
            assert(combined[i] == entries[i] && combined[j] == e);
        } else {
            assert(combined[i] == e && combined[j] == entries[j]);
        }
    }
    assert forall|i: int, j: int|
        0 <= i < combined.len() && 0 <= j < combined.len() && i != j && (
        #[trigger] combined[i]).shelf == (#[trigger] combined[j]).shelf implies (
        combined[i].rect.x + combined[i].rect.w <= combined[j].rect.x || combined[j].rect.x
            + combined[j].rect.w <= combined[i].rect.x) by {
        if i < entries.len() && j < entries.len() {
            assert(combined[i] == entries[i] && combined[j] == entries[j]);
        } else if i < entries.len() {
            assert(combined[i] == entries[i] && combined[j] == e);
            assert(entry_wf(entries[i], pre));
            assert(entries[i].shelf < pre.len());
        } else if j < entries.len() {
            assert(combined[i] == e && combined[j] == entries[j]);
            assert(entry_wf(entries[j], pre));
            assert(entries[j].shelf < pre.len());
        }
    }
}


/// The summed pixel area of the entry rectangles.
pub open spec fn used_area(entries: Seq<Entry>) -> int
    decreases entries.len(),
{
    if entries.len() == 0 {
        0
    } else {
        used_area(entries.drop_last()) + entries.last().rect.w * entries.last().rect.h
    }
}

/// The summed area is never negative.
proof fn lemma_used_area_nonneg(entries: Seq<Entry>)
    ensures
        used_area(entries) >= 0,
    decreases entries.len(),
{
    if entries.len() > 0 {
        lemma_used_area_nonneg(entries.drop_last());
        assert(entries.last().rect.w * entries.last().rect.h >= 0) by (nonlinear_arith);
    }
}

} // verus!
