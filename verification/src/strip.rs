//! Strips: horizontal runs of tiles with contiguous coverage in the alpha buffer.

use vstd::prelude::*;
use crate::gamma::{corrected, lemma_corrected_range, GammaCorrector};
use crate::tile::{Tile, MAX_TILE_COORD, TILE_HEIGHT, TILE_WIDTH};

verus! {

/// Bit of the packed word that holds the fill-gap flag.
pub const FILL_GAP_MASK: u32 = 0x8000_0000;

/// Bits of the packed word that hold the alpha index.
pub const ALPHA_IDX_MASK: u32 = 0x7FFF_FFFF;

/// Horizontal position that marks a strip as the sentinel of its row.
pub const SENTINEL_X: u16 = 0xFFFF;

/// What a strip says: its pixel origin, where its coverage starts in the alpha
/// buffer, and whether the gap to the strip before it in the row is filled.
pub struct StripView {
    pub x: u16,
    pub y: u16,
    pub alpha_idx: u32,
    pub fill_gap: bool,
}

/// A strip.
#[derive(Debug, Clone, Copy, PartialEq, Eq, Structural)]
pub struct Strip {
    /// The x coordinate of the strip, in pixels.
    pub x: u16,
    /// The y coordinate of the strip, in pixels.
    pub y: u16,
    /// Bit 31: the fill-gap flag. Bits 0 to 30: the alpha index.
    packed_alpha_idx_fill_gap: u32,
}

impl View for Strip {
    type V = StripView;

    closed spec fn view(&self) -> StripView {
        StripView {
            x: self.x,
            y: self.y,
            alpha_idx: (self.packed_alpha_idx_fill_gap % 0x8000_0000) as u32,
            fill_gap: self.packed_alpha_idx_fill_gap >= 0x8000_0000,
        }
    }
}

impl StripView {
    /// Whether this is the sentinel strip of a row.
    pub open spec fn is_sentinel(self) -> bool {
        self.x == SENTINEL_X
    }
}

impl Strip {
    /// Creates a new strip.
    pub fn new(x: u16, y: u16, alpha_idx: u32, fill_gap: bool) -> (strip: Strip)
        requires
            alpha_idx < 0x8000_0000,
        ensures
            strip@ == (StripView { x, y, alpha_idx, fill_gap }),
    {
        let flag: u32 = if fill_gap { FILL_GAP_MASK } else { 0 };
        let packed: u32 = alpha_idx | flag;
        assert(packed % 0x8000_0000 == alpha_idx && (packed >= 0x8000_0000) == fill_gap) by (bit_vector)
            requires
                alpha_idx < 0x8000_0000,
                flag == (if fill_gap { 0x8000_0000u32 } else { 0u32 }),
                packed == alpha_idx | flag,
        ;
        Strip { x, y, packed_alpha_idx_fill_gap: packed }
    }

    /// Returns whether the strip is the sentinel of its row.
    pub fn is_sentinel(&self) -> (sentinel: bool)
        ensures
            sentinel == self@.is_sentinel(),
    {
        self.x == SENTINEL_X
    }

    /// Returns the y coordinate of the strip, in strip units.
    pub fn strip_y(&self) -> (row: u16)
        ensures
            row == self@.y / TILE_HEIGHT,
    {
        self.y / TILE_HEIGHT
    }

    /// Returns the alpha index.
    pub fn alpha_idx(&self) -> (idx: u32)
        ensures
            idx == self@.alpha_idx,
            idx < 0x8000_0000,
    {
        let packed: u32 = self.packed_alpha_idx_fill_gap;
        let idx: u32 = packed & ALPHA_IDX_MASK;
        assert(idx == packed % 0x8000_0000 && idx < 0x8000_0000) by (bit_vector)
            requires
                idx == packed & 0x7FFF_FFFFu32,
        ;
        idx
    }

    /// Sets the alpha index and keeps the fill-gap flag.
    pub fn set_alpha_idx(&mut self, alpha_idx: u32)
        requires
            alpha_idx < 0x8000_0000,
        ensures
            final(self)@ == (StripView { alpha_idx, ..old(self)@ }),
    {
        let packed: u32 = self.packed_alpha_idx_fill_gap;
        let flag: u32 = packed & FILL_GAP_MASK;
        let updated: u32 = alpha_idx | flag;
        assert(updated % 0x8000_0000 == alpha_idx && (updated >= 0x8000_0000) == (packed
            >= 0x8000_0000)) by (bit_vector)
            requires
                alpha_idx < 0x8000_0000,
                flag == packed & 0x8000_0000u32,
                updated == alpha_idx | flag,
        ;
        self.packed_alpha_idx_fill_gap = updated;
    }

    /// Returns whether the gap between this strip and the one before it in the
    /// same row is filled.
    pub fn fill_gap(&self) -> (fill: bool)
        ensures
            fill == self@.fill_gap,
    {
        let packed: u32 = self.packed_alpha_idx_fill_gap;
        assert(((packed & 0x8000_0000u32) != 0) == (packed >= 0x8000_0000)) by (bit_vector);
        (packed & FILL_GAP_MASK) != 0
    }

    /// Sets the fill-gap flag and keeps the alpha index.
    pub fn set_fill_gap(&mut self, fill: bool)
        ensures
            final(self)@ == (StripView { fill_gap: fill, ..old(self)@ }),
    {
        let packed: u32 = self.packed_alpha_idx_fill_gap;
        let flag: u32 = if fill { FILL_GAP_MASK } else { 0 };
        let updated: u32 = (packed & ALPHA_IDX_MASK) | flag;
        assert(updated % 0x8000_0000 == packed % 0x8000_0000 && (updated >= 0x8000_0000) == fill)
            by (bit_vector)
            requires
                flag == (if fill { 0x8000_0000u32 } else { 0u32 }),
                updated == (packed & 0x7FFF_FFFFu32) | flag,
        ;
        self.packed_alpha_idx_fill_gap = updated;
    }
}

/// Number of coverage bytes of one tile location: one per pixel, column by
/// column.
pub const LOCATION_BYTES: usize = 16;

/// Rule that turns a winding number into inside or outside.
#[derive(Debug, Clone, Copy, PartialEq, Eq, Structural)]
pub enum FillRule {
    /// Inside where the winding number is not zero.
    NonZero,
    /// Inside where the winding number is odd.
    EvenOdd,
}

impl FillRule {
    /// Whether a region of the given integer winding is inside.
    pub open spec fn fills(self, winding: int) -> bool {
        match self {
            FillRule::NonZero => winding != 0,
            FillRule::EvenOdd => winding % 2 != 0,
        }
    }

    /// Returns whether a region of the given integer winding is inside.
    pub fn should_fill(self, winding: i32) -> (fill: bool)
        ensures
            fill == self.fills(winding as int),
    {
        match self {
            FillRule::NonZero => winding != 0,
            FillRule::EvenOdd => {
                if winding >= 0 {
                    winding % 2 != 0
                } else {
                    (-(winding + 1)) % 2 == 0
                }
            },
        }
    }
}

/// The luminance that an optional gamma corrector is built for.
pub open spec fn luminance_of(gamma: Option<&GammaCorrector>) -> Option<u8> {
    match gamma {
        Some(corrector) => Some(corrector.luminance()),
        None => None,
    }
}

/// The byte stored for a coverage value: snapped to 0 or 255 where a threshold
/// is given, then gamma-corrected where a luminance is given.
pub open spec fn shaped(coverage: u8, threshold: Option<u8>, luminance: Option<u8>) -> u8 {
    let snapped: u8 = match threshold {
        Some(t) => if coverage >= t { 255u8 } else { 0u8 },
        None => coverage,
    };
    match luminance {
        Some(l) => corrected(l, snapped) as u8,
        None => snapped,
    }
}

/// The bytes stored for a run of coverage values.
pub open spec fn shaped_seq(coverage: Seq<u8>, threshold: Option<u8>, luminance: Option<u8>) -> Seq<
    u8,
> {
    Seq::new(coverage.len(), |i: int| shaped(coverage[i], threshold, luminance))
}

/// Appends the stored form of one location's coverage to the alpha buffer.
pub fn push_coverage(
    alpha_buf: &mut Vec<u8>,
    coverage: &[u8; 16],
    threshold: Option<u8>,
    gamma: Option<&GammaCorrector>,
)
    ensures
        final(alpha_buf)@ == old(alpha_buf)@ + shaped_seq(coverage@, threshold, luminance_of(gamma)),
        final(alpha_buf)@.len() == old(alpha_buf)@.len() + LOCATION_BYTES,
        forall|i: int|
            old(alpha_buf)@.len() <= i < final(alpha_buf)@.len() ==> 0 <= (
            #[trigger] final(alpha_buf)@[i]) <= 255,
{
    let ghost start = alpha_buf@;
    let mut i: usize = 0;
    while i < 16
        invariant
            0 <= i <= 16,
            alpha_buf@.len() == start.len() + i,
            forall|k: int| 0 <= k < start.len() ==> alpha_buf@[k] == start[k],
            forall|k: int|
                0 <= k < i ==> alpha_buf@[start.len() + k] == shaped(
                    coverage@[k],
                    threshold,
                    luminance_of(gamma),
                ),
        decreases 16 - i,
    {
        let raw: u8 = coverage[i];
        let snapped: u8 = match threshold {
            Some(t) => if raw >= t { 255 } else { 0 },
            None => raw,
        };
        let stored: u8 = match gamma {
            Some(corrector) => {
                proof {
                    lemma_corrected_range(corrector.luminance(), snapped);
                }
                corrector.correct(snapped)
            },
            None => snapped,
        };
        alpha_buf.push(stored);
        i += 1;
    }
    assert(alpha_buf@ =~= start + shaped_seq(coverage@, threshold, luminance_of(gamma)));
}

/// What the tile after `prev` means for the strip being built.
#[derive(Debug, Clone, Copy, PartialEq, Eq, Structural)]
pub enum Transition {
    /// The tile lies at the location of the tile before it.
    SameLocation,
    /// The tile lies one location to the right and continues the strip.
    NextLocation,
    /// The tile starts a new strip in the same row. The value is the integer
    /// winding accumulated in the row so far.
    NextStrip(i32),
    /// The tile starts a new strip in another row.
    NextRow,
}

/// The sentinel strip that closes a row.
pub open spec fn row_sentinel(prev: Tile, alpha_len: nat, fill_gap: bool) -> StripView {
    StripView {
        x: SENTINEL_X,
        y: (prev.y * TILE_HEIGHT) as u16,
        alpha_idx: alpha_len as u32,
        fill_gap,
    }
}

/// The strip that starts at `tile`.
pub open spec fn strip_at(tile: Tile, alpha_len: nat, fill_gap: bool) -> StripView {
    StripView {
        x: (tile.x * TILE_WIDTH) as u16,
        y: (tile.y * TILE_HEIGHT) as u16,
        alpha_idx: alpha_len as u32,
        fill_gap,
    }
}

/// State of strip emission: the two buffers, the last tile seen, the strip
/// being built and the integer winding accumulated in the current row.
pub struct EmitterView {
    /// The strip buffer.
    pub strips: Seq<StripView>,
    /// Number of strips that the buffer held before emission started.
    pub first: nat,
    /// The alpha buffer.
    pub alphas: Seq<u8>,
    /// The last tile seen.
    pub prev: Tile,
    /// The strip being built.
    pub strip: StripView,
    /// Sum of the windings of the tiles seen in the current row.
    pub winding: int,
    pub fill_rule: FillRule,
    pub threshold: Option<u8>,
}

impl EmitterView {
    /// The state before the first tile, which is also passed to the first
    /// `advance`.
    pub open spec fn start(
        first_tile: Tile,
        strips: Seq<StripView>,
        alphas: Seq<u8>,
        fill_rule: FillRule,
        threshold: Option<u8>,
    ) -> EmitterView {
        EmitterView {
            strips,
            first: strips.len(),
            alphas,
            prev: first_tile,
            strip: strip_at(first_tile, alphas.len(), false),
            winding: 0,
            fill_rule,
            threshold,
        }
    }

    /// Whether `tile` lies at another location than the last tile, so that the
    /// coverage of that location is complete.
    pub open spec fn leaves_location(self, tile: Tile) -> bool {
        !self.prev.spec_same_loc(tile)
    }

    /// Whether `tile` ends the strip being built.
    pub open spec fn breaks_strip(self, tile: Tile) -> bool {
        !self.prev.spec_same_loc(tile) && !self.prev.spec_prev_loc(tile)
    }

    /// Whether `tile` ends the row.
    pub open spec fn breaks_row(self, tile: Tile) -> bool {
        !self.prev.spec_same_row(tile)
    }

    /// What `tile` means for the strip being built.
    pub open spec fn transition(self, tile: Tile) -> Transition {
        if !self.leaves_location(tile) {
            Transition::SameLocation
        } else if !self.breaks_strip(tile) {
            Transition::NextLocation
        } else if !self.breaks_row(tile) {
            Transition::NextStrip(self.winding as i32)
        } else {
            Transition::NextRow
        }
    }

    /// Number of pixel columns that the strip being built spans so far.
    pub open spec fn columns(self) -> int {
        (self.prev.x + 1) * TILE_WIDTH - self.strip.x
    }

    /// The state after `tile`. Where the tile leaves the location, `coverage`
    /// is that location's coverage and is stored; where it also ends the strip,
    /// the strip is pushed, followed by a row sentinel if the row ends with
    /// non-zero winding, and a new strip starts at the tile.
    pub open spec fn advance(self, tile: Tile, coverage: Seq<u8>, luminance: Option<u8>) -> EmitterView {
        let alphas = if self.leaves_location(tile) {
            self.alphas + shaped_seq(coverage, self.threshold, luminance)
        } else {
            self.alphas
        };
        if self.breaks_strip(tile) {
            let pushed = self.strips.push(self.strip);
            let strips = if self.breaks_row(tile) && self.winding != 0 {
                pushed.push(row_sentinel(self.prev, alphas.len(), self.fill_rule.fills(self.winding)))
            } else {
                pushed
            };
            let carried = if self.breaks_row(tile) { 0 } else { self.winding };
            EmitterView {
                strips,
                alphas,
                prev: tile,
                strip: strip_at(tile, alphas.len(), self.fill_rule.fills(carried)),
                winding: carried + tile.winding,
                ..self
            }
        } else {
            EmitterView { alphas, prev: tile, winding: self.winding + tile.winding, ..self }
        }
    }

    /// The alpha buffer at the end: `coverage`, the last location's coverage,
    /// is stored.
    pub open spec fn finish_alphas(self, coverage: Seq<u8>, luminance: Option<u8>) -> Seq<u8> {
        self.alphas + shaped_seq(coverage, self.threshold, luminance)
    }

    /// The strip buffer at the end: the strip being built is pushed, followed by
    /// the sentinel of the last row, which is always there.
    pub open spec fn finish_strips(self) -> Seq<StripView> {
        self.strips.push(self.strip).push(
            row_sentinel(
                self.prev,
                self.alphas.len() + LOCATION_BYTES as nat,
                self.fill_rule.fills(self.winding),
            ),
        )
    }

    /// Whether `tile` can be taken: it is a tile of the viewport, the alpha
    /// buffer with the coverage that the tile completes stays addressable by an
    /// alpha index, and the winding of the row stays in 32 bits.
    pub open spec fn can_advance(self, tile: Tile) -> bool {
        &&& tile.wf()
        &&& self.leaves_location(tile) ==> self.alphas.len() + LOCATION_BYTES < 0x8000_0000
        &&& !self.breaks_row(tile) ==> i32::MIN <= self.winding + tile.winding <= i32::MAX
    }

    /// Whether emission can end: the alpha buffer with the last location's
    /// coverage stays addressable by an alpha index.
    pub open spec fn can_finish(self) -> bool {
        self.alphas.len() + LOCATION_BYTES < 0x8000_0000
    }

    /// Whether the state can arise from `start` by `advance`.
    ///
    /// The strip being built starts on a tile boundary of the row of the last
    /// tile; its coverage so far, through the location of the last tile, takes
    /// up `columns() * TILE_HEIGHT` bytes, of which all but the last location's
    /// are stored. Among the strips emitted, alpha indices never decrease, and
    /// a row sentinel directly follows a strip of its row that is none.
    pub open spec fn wf(self) -> bool {
        &&& self.prev.wf()
        &&& self.first <= self.strips.len()
        &&& self.alphas.len() < 0x8000_0000
        &&& i32::MIN <= self.winding <= i32::MAX
        &&& self.strip.y == self.prev.y * TILE_HEIGHT
        &&& self.strip.x % 4 == 0
        &&& self.strip.x <= self.prev.x * TILE_WIDTH
        &&& self.strip.alpha_idx + self.columns() * TILE_HEIGHT == self.alphas.len()
            + LOCATION_BYTES
        &&& forall|j: int, k: int|
            self.first <= j <= k < self.strips.len() ==> self.strips[j].alpha_idx
                <= self.strips[k].alpha_idx
        &&& forall|k: int|
            self.first <= k < self.strips.len() ==> #[trigger] self.strips[k].alpha_idx
                <= self.strip.alpha_idx
        &&& forall|k: int|
            self.first <= k < self.strips.len() && #[trigger] self.strips[k].is_sentinel() ==> {
                &&& self.first < k
                &&& !self.strips[k - 1].is_sentinel()
                &&& self.strips[k - 1].y == self.strips[k].y
            }
    }
}

/// The views of the strips of a buffer.
pub open spec fn strip_views(strips: Seq<Strip>) -> Seq<StripView> {
    strips.map_values(|strip: Strip| strip@)
}

/// Builds strips from a sequence of tiles, one tile at a time.
///
/// The caller passes every tile of the path in order, the first one included,
/// together with the coverage of the location that the tile completes, and ends
/// with `finish`. Between the calls it accumulates coverage as the returned
/// transition says.
pub struct StripEmitter {
    strip_buf: Vec<Strip>,
    first: usize,
    alpha_buf: Vec<u8>,
    prev_tile: Tile,
    strip: Strip,
    winding_delta: i32,
    fill_rule: FillRule,
    threshold: Option<u8>,
}

impl View for StripEmitter {
    type V = EmitterView;

    closed spec fn view(&self) -> EmitterView {
        EmitterView {
            strips: strip_views(self.strip_buf@),
            first: self.first as nat,
            alphas: self.alpha_buf@,
            prev: self.prev_tile,
            strip: self.strip@,
            winding: self.winding_delta as int,
            fill_rule: self.fill_rule,
            threshold: self.threshold,
        }
    }
}

impl StripEmitter {
    /// Whether the emitter is in a state that `new` and `advance` lead to.
    pub open spec fn wf(&self) -> bool {
        self@.wf()
    }

    /// Starts emission at `first_tile`, appending to the two buffers.
    pub fn new(
        first_tile: Tile,
        strip_buf: Vec<Strip>,
        alpha_buf: Vec<u8>,
        fill_rule: FillRule,
        threshold: Option<u8>,
    ) -> (emitter: StripEmitter)
        requires
            first_tile.wf(),
            alpha_buf.len() < 0x8000_0000,
        ensures
            emitter.wf(),
            emitter@ == EmitterView::start(
                first_tile,
                strip_views(strip_buf@),
                alpha_buf@,
                fill_rule,
                threshold,
            ),
    {
        let strip = Strip::new(
            first_tile.x * TILE_WIDTH,
            first_tile.y * TILE_HEIGHT,
            alpha_buf.len() as u32,
            false,
        );
        let first: usize = strip_buf.len();
        StripEmitter {
            strip_buf,
            first,
            alpha_buf,
            prev_tile: first_tile,
            strip,
            winding_delta: 0,
            fill_rule,
            threshold,
        }
    }

    /// Returns whether `tile` completes the coverage of the current location.
    pub fn leaves_location(&self, tile: Tile) -> (leaves: bool)
        ensures
            leaves == self@.leaves_location(tile),
    {
        !self.prev_tile.same_loc(tile)
    }

    /// Returns whether `advance` can take `tile`.
    pub fn can_advance(&self, tile: Tile) -> (ok: bool)
        ensures
            ok == self@.can_advance(tile),
    {
        let in_viewport: bool = tile.x <= MAX_TILE_COORD && tile.y <= MAX_TILE_COORD && -1
            <= tile.winding && tile.winding <= 1;
        let room: bool = self.prev_tile.same_loc(tile) || self.alpha_buf.len() < 0x8000_0000
            - LOCATION_BYTES;
        let winding_fits: bool = !self.prev_tile.same_row(tile) || {
            let sum: i64 = self.winding_delta as i64 + tile.winding as i64;
            -0x8000_0000 <= sum && sum <= 0x7FFF_FFFF
        };
        in_viewport && room && winding_fits
    }

    /// Returns whether `finish` can store the last location's coverage.
    pub fn can_finish(&self) -> (ok: bool)
        ensures
            ok == self@.can_finish(),
    {
        self.alpha_buf.len() < 0x8000_0000 - LOCATION_BYTES
    }

    /// Takes the next tile.
    ///
    /// `coverage` is read only if the tile leaves the current location.
    pub fn advance(
        &mut self,
        tile: Tile,
        coverage: &[u8; 16],
        gamma: Option<&GammaCorrector>,
    ) -> (transition: Transition)
        requires
            old(self).wf(),
            old(self)@.can_advance(tile),
        ensures
            final(self).wf(),
            final(self)@ == old(self)@.advance(tile, coverage@, luminance_of(gamma)),
            transition == old(self)@.transition(tile),
    {
        let ghost before = self@;
        let prev: Tile = self.prev_tile;
        let mut transition = Transition::SameLocation;
        if !prev.same_loc(tile) {
            push_coverage(&mut self.alpha_buf, coverage, self.threshold, gamma);
            transition = Transition::NextLocation;
        }
        if !prev.same_loc(tile) && !prev.prev_loc(tile) {
            self.strip_buf.push(self.strip);
            assert(strip_views(self.strip_buf@) =~= before.strips.push(before.strip));
            let alpha_len: u32 = self.alpha_buf.len() as u32;
            if !prev.same_row(tile) {
                if self.winding_delta != 0 {
                    let sentinel = Strip::new(
                        SENTINEL_X,
                        prev.y * TILE_HEIGHT,
                        alpha_len,
                        self.fill_rule.should_fill(self.winding_delta),
                    );
                    self.strip_buf.push(sentinel);
                    assert(strip_views(self.strip_buf@) =~= before.strips.push(before.strip).push(
                        sentinel@,
                    ));
                }
                self.winding_delta = 0;
                transition = Transition::NextRow;
            } else {
                transition = Transition::NextStrip(self.winding_delta);
            }
            self.strip =
            Strip::new(
                tile.x * TILE_WIDTH,
                tile.y * TILE_HEIGHT,
                alpha_len,
                self.fill_rule.should_fill(self.winding_delta),
            );
        }
        self.prev_tile = tile;
        self.winding_delta = self.winding_delta + tile.winding as i32;
        proof {
            lemma_advance_wf(before, tile, coverage@, luminance_of(gamma));
        }
        transition
    }

    /// Ends emission: stores the last location's coverage, pushes the strip
    /// being built and the sentinel of the last row, and hands the two buffers
    /// back.
    pub fn finish(self, coverage: &[u8; 16], gamma: Option<&GammaCorrector>) -> (buffers: (
        Vec<Strip>,
        Vec<u8>,
    ))
        requires
            self.wf(),
            self@.can_finish(),
        ensures
            strip_views(buffers.0@) == self@.finish_strips(),
            buffers.1@ == self@.finish_alphas(coverage@, luminance_of(gamma)),
    {
        let mut strip_buf = self.strip_buf;
        let mut alpha_buf = self.alpha_buf;
        push_coverage(&mut alpha_buf, coverage, self.threshold, gamma);
        strip_buf.push(self.strip);
        let sentinel = Strip::new(
            SENTINEL_X,
            self.prev_tile.y * TILE_HEIGHT,
            alpha_buf.len() as u32,
            self.fill_rule.should_fill(self.winding_delta),
        );
        strip_buf.push(sentinel);
        assert(strip_views(strip_buf@) =~= self@.finish_strips());
        (strip_buf, alpha_buf)
    }
}

/// `advance` keeps the emitter's state well formed.
pub proof fn lemma_advance_wf(state: EmitterView, tile: Tile, coverage: Seq<u8>, luminance: Option<u8>)
    requires
        state.wf(),
        state.can_advance(tile),
        coverage.len() == LOCATION_BYTES,
    ensures
        state.advance(tile, coverage, luminance).wf(),
{
    let next = state.advance(tile, coverage, luminance);
    if state.breaks_strip(tile) {
        let pushed = state.strips.push(state.strip);
        assert forall|k: int| next.first <= k < next.strips.len() && #[trigger] next.strips[k].is_sentinel() implies {
            &&& next.first < k
            &&& !next.strips[k - 1].is_sentinel()
            &&& next.strips[k - 1].y == next.strips[k].y
        } by {
            if k < state.strips.len() {
                assert(state.strips[k].is_sentinel());
            }
        }
    }
}

/// Number of locations that the first `n` tiles visit: one for the first tile
/// and one more for each tile that does not lie at the location of the tile
/// before it.
pub open spec fn locations(tiles: Seq<Tile>, n: nat) -> nat
    decreases n,
{
    if n == 0 {
        0
    } else if n == 1 {
        1
    } else {
        locations(tiles, (n - 1) as nat) + if tiles[n - 2].spec_same_loc(tiles[n - 1]) {
            0nat
        } else {
            1nat
        }
    }
}

/// Number of locations whose coverage is stored once the first `n` tiles are
/// taken: all but the one that the last tile lies at.
pub open spec fn stored_locations(tiles: Seq<Tile>, n: nat) -> nat {
    if n == 0 {
        0
    } else {
        (locations(tiles, n) - 1) as nat
    }
}

/// The coverage of location `k` within `coverage`.
pub open spec fn location_coverage(coverage: Seq<u8>, k: nat) -> Seq<u8> {
    coverage.subrange(LOCATION_BYTES * k, LOCATION_BYTES * k + LOCATION_BYTES)
}

/// The state after the first `n` tiles, starting from `init`, where `coverage`
/// holds the coverage of every location in the order of the tiles.
pub open spec fn emitted(
    tiles: Seq<Tile>,
    n: nat,
    coverage: Seq<u8>,
    init: EmitterView,
    luminance: Option<u8>,
) -> EmitterView
    decreases n,
{
    if n == 0 {
        init
    } else {
        emitted(tiles, (n - 1) as nat, coverage, init, luminance).advance(
            tiles[n - 1],
            location_coverage(coverage, stored_locations(tiles, (n - 1) as nat)),
            luminance,
        )
    }
}

/// Whether `tiles` with their `coverage` can be rendered behind an alpha
/// buffer of `alpha_len` bytes: every tile is a tile of the viewport, there
/// are at most `i32::MAX` of them, `coverage` holds 16 bytes for each location,
/// and the alpha buffer with them stays addressable by an alpha index.
pub open spec fn renderable(tiles: Seq<Tile>, coverage: Seq<u8>, alpha_len: nat) -> bool {
    &&& forall|i: int| 0 <= i < tiles.len() ==> (#[trigger] tiles[i]).wf()
    &&& tiles.len() <= i32::MAX
    &&& coverage.len() == LOCATION_BYTES * locations(tiles, tiles.len())
    &&& alpha_len + coverage.len() < 0x8000_0000
}

/// The number of locations grows with the number of tiles.
pub proof fn lemma_locations_monotonic(tiles: Seq<Tile>, m: nat, n: nat)
    requires
        m <= n,
    ensures
        locations(tiles, m) <= locations(tiles, n),
        n >= 1 ==> locations(tiles, n) >= 1,
    decreases n,
{
    if m < n {
        lemma_locations_monotonic(tiles, m, (n - 1) as nat);
    }
    if n >= 2 {
        lemma_locations_monotonic(tiles, 1, (n - 1) as nat);
    }
}

/// Storing is done value by value, so it distributes over appending.
pub proof fn lemma_shaped_seq_add(a: Seq<u8>, b: Seq<u8>, threshold: Option<u8>, luminance: Option<u8>)
    ensures
        shaped_seq(a + b, threshold, luminance) == shaped_seq(a, threshold, luminance) + shaped_seq(
            b,
            threshold,
            luminance,
        ),
{
    assert(shaped_seq(a + b, threshold, luminance) =~= shaped_seq(a, threshold, luminance)
        + shaped_seq(b, threshold, luminance));
}

/// What holds after the first `n` tiles of a renderable sequence: the state
/// is well formed and can take the next tile; the last tile seen is tile
/// `n - 1`; the windings seen add up to at most `n` in size; and the alpha
/// buffer has grown by the stored coverage of all locations but the current one.
pub proof fn lemma_emitted(
    tiles: Seq<Tile>,
    n: nat,
    coverage: Seq<u8>,
    strips: Seq<StripView>,
    alphas: Seq<u8>,
    fill_rule: FillRule,
    threshold: Option<u8>,
    luminance: Option<u8>,
)
    requires
        renderable(tiles, coverage, alphas.len()),
        0 < tiles.len(),
        n <= tiles.len(),
    ensures
        ({
            let init = EmitterView::start(tiles[0], strips, alphas, fill_rule, threshold);
            let state = emitted(tiles, n, coverage, init, luminance);
            let stored = stored_locations(tiles, n);
            &&& state.wf()
            &&& state.first == strips.len()
            &&& state.fill_rule == fill_rule
            &&& state.threshold == threshold
            &&& state.prev == (if n == 0 { tiles[0] } else { tiles[n - 1] })
            &&& -n <= state.winding <= n
            &&& stored < locations(tiles, tiles.len())
            &&& state.alphas == alphas + shaped_seq(
                coverage.take((LOCATION_BYTES * stored) as int),
                threshold,
                luminance,
            )
            &&& state.strips.take(strips.len() as int) == strips
            &&& n < tiles.len() ==> state.can_advance(tiles[n as int])
            &&& n == tiles.len() ==> state.can_finish()
        }),
    decreases n,
{
    let init = EmitterView::start(tiles[0], strips, alphas, fill_rule, threshold);
    let state = emitted(tiles, n, coverage, init, luminance);
    let stored = stored_locations(tiles, n);
    lemma_locations_monotonic(tiles, n, tiles.len());
    lemma_locations_monotonic(tiles, 1, tiles.len());
    if n == 0 {
        assert(coverage.take(0) =~= Seq::<u8>::empty());
        assert(alphas + shaped_seq(Seq::<u8>::empty(), threshold, luminance) =~= alphas);
        assert(state.strips.take(strips.len() as int) =~= strips);
    } else {
        let m = (n - 1) as nat;
        lemma_emitted(tiles, m, coverage, strips, alphas, fill_rule, threshold, luminance);
        let before = emitted(tiles, m, coverage, init, luminance);
        let stored_before = stored_locations(tiles, m);
        let block = location_coverage(coverage, stored_before);
        lemma_locations_monotonic(tiles, m, tiles.len());
        assert(LOCATION_BYTES * stored_before + LOCATION_BYTES <= coverage.len()) by (nonlinear_arith)
            requires
                stored_before < locations(tiles, tiles.len()),
                coverage.len() == LOCATION_BYTES * locations(tiles, tiles.len()),
        ;
        lemma_advance_wf(before, tiles[n - 1], block, luminance);
        assert(state == before.advance(tiles[n - 1], block, luminance));
        if before.leaves_location(tiles[n - 1]) {
            lemma_locations_monotonic(tiles, m, m);
            assert(stored == stored_before + 1);
            let done = coverage.take((LOCATION_BYTES * stored_before) as int);
            lemma_shaped_seq_add(done, block, threshold, luminance);
            assert(done + block =~= coverage.take((LOCATION_BYTES * stored) as int));
            assert(state.alphas =~= alphas + shaped_seq(
                coverage.take((LOCATION_BYTES * stored) as int),
                threshold,
                luminance,
            ));
        } else {
            assert(stored == stored_before);
        }
        assert(state.strips.take(strips.len() as int) =~= strips);
        assert(state.alphas.len() == alphas.len() + LOCATION_BYTES * stored);
        assert(LOCATION_BYTES * stored + LOCATION_BYTES <= coverage.len()) by (nonlinear_arith)
            requires
                stored < locations(tiles, tiles.len()),
                coverage.len() == LOCATION_BYTES * locations(tiles, tiles.len()),
        ;
        if n < tiles.len() {
            let next = tiles[n as int];
            if state.leaves_location(next) {
                lemma_locations_monotonic(tiles, n + 1, tiles.len());
                lemma_locations_monotonic(tiles, n, n);
                assert(locations(tiles, n + 1) == locations(tiles, n) + 1);
                assert(LOCATION_BYTES * (stored + 2) <= coverage.len()) by (nonlinear_arith)
                    requires
                        stored + 2 <= locations(tiles, tiles.len()),
                        coverage.len() == LOCATION_BYTES * locations(tiles, tiles.len()),
                ;
            }
        }
    }
}

/// Renders the tiles into the strip buffer and the alpha buffer.
///
/// `coverage` holds, for every location that the tiles visit and in their
/// order, the area coverage of its 16 pixels, column by column. Each value is
/// snapped to 0 or 255 if `aliasing_threshold` is given, gamma-corrected if
/// `gamma_corrector` is given, and appended to the alpha buffer. The strips
/// cut from the tiles are appended to the strip buffer.
pub fn render(
    tiles: &Vec<Tile>,
    coverage: &Vec<u8>,
    strip_buf: &mut Vec<Strip>,
    alpha_buf: &mut Vec<u8>,
    fill_rule: FillRule,
    aliasing_threshold: Option<u8>,
    gamma_corrector: Option<&GammaCorrector>,
)
    requires
        renderable(tiles@, coverage@, old(alpha_buf)@.len()),
    ensures
        final(alpha_buf)@ == old(alpha_buf)@ + shaped_seq(
            coverage@,
            aliasing_threshold,
            luminance_of(gamma_corrector),
        ),
        forall|i: int|
            old(alpha_buf)@.len() <= i < final(alpha_buf)@.len() ==> 0 <= (
            #[trigger] final(alpha_buf)@[i]) <= 255,
        tiles.len() == 0 ==> final(strip_buf)@ == old(strip_buf)@,
        tiles.len() > 0 ==> strip_views(final(strip_buf)@) == emitted(
            tiles@,
            tiles@.len(),
            coverage@,
            EmitterView::start(
                tiles@[0],
                strip_views(old(strip_buf)@),
                old(alpha_buf)@,
                fill_rule,
                aliasing_threshold,
            ),
            luminance_of(gamma_corrector),
        ).finish_strips(),
{
    let ghost luminance = luminance_of(gamma_corrector);
    if tiles.len() == 0 {
        assert(coverage@ =~= Seq::<u8>::empty());
        assert(alpha_buf@ + shaped_seq(coverage@, aliasing_threshold, luminance) =~= alpha_buf@);
        return ;
    }
    let ghost strips = strip_views(strip_buf@);
    let ghost alphas = alpha_buf@;
    let ghost init = EmitterView::start(tiles@[0], strips, alphas, fill_rule, aliasing_threshold);
    let mut taken_strips: Vec<Strip> = Vec::new();
    let mut taken_alphas: Vec<u8> = Vec::new();
    core::mem::swap(&mut taken_strips, strip_buf);
    core::mem::swap(&mut taken_alphas, alpha_buf);
    let mut emitter = StripEmitter::new(
        tiles[0],
        taken_strips,
        taken_alphas,
        fill_rule,
        aliasing_threshold,
    );
    let mut block: [u8; 16] = [0u8; 16];
    let mut stored: usize = 0;
    let mut i: usize = 0;
    while i < tiles.len()
        invariant
            0 <= i <= tiles.len(),
            0 < tiles.len(),
            renderable(tiles@, coverage@, alphas.len()),
            init == EmitterView::start(tiles@[0], strips, alphas, fill_rule, aliasing_threshold),
            luminance == luminance_of(gamma_corrector),
            emitter.wf(),
            emitter@ == emitted(tiles@, i as nat, coverage@, init, luminance),
            stored == stored_locations(tiles@, i as nat),
        decreases tiles.len() - i,
    {
        proof {
            lemma_emitted(
                tiles@,
                i as nat,
                coverage@,
                strips,
                alphas,
                fill_rule,
                aliasing_threshold,
                luminance,
            );
            lemma_locations_monotonic(tiles@, (i + 1) as nat, tiles@.len());
            lemma_locations_monotonic(tiles@, i as nat, i as nat);
        }
        let tile: Tile = tiles[i];
        let leaves: bool = emitter.leaves_location(tile);
        if leaves {
            assert(LOCATION_BYTES * stored + LOCATION_BYTES <= coverage@.len()) by (nonlinear_arith)
                requires
                    stored < locations(tiles@, tiles@.len()),
                    coverage@.len() == LOCATION_BYTES * locations(tiles@, tiles@.len()),
            ;
            load_location(coverage, stored, &mut block);
        }
        emitter.advance(tile, &block, gamma_corrector);
        if leaves {
            stored += 1;
        }
        i += 1;
    }
    proof {
        lemma_emitted(
            tiles@,
            tiles@.len(),
            coverage@,
            strips,
            alphas,
            fill_rule,
            aliasing_threshold,
            luminance,
        );
        assert(LOCATION_BYTES * stored + LOCATION_BYTES == coverage@.len()) by (nonlinear_arith)
            requires
                stored + 1 == locations(tiles@, tiles@.len()),
                coverage@.len() == LOCATION_BYTES * locations(tiles@, tiles@.len()),
        ;
    }
    load_location(coverage, stored, &mut block);
    let ghost end = emitter@;
    let (mut done_strips, mut done_alphas) = emitter.finish(&block, gamma_corrector);
    proof {
        let head = coverage@.take((LOCATION_BYTES * stored) as int);
        lemma_shaped_seq_add(head, block@, aliasing_threshold, luminance);
        assert(head + block@ =~= coverage@);
    }
    core::mem::swap(&mut done_strips, strip_buf);
    core::mem::swap(&mut done_alphas, alpha_buf);
}

/// Copies the coverage of location `k` out of `coverage`.
fn load_location(coverage: &Vec<u8>, k: usize, block: &mut [u8; 16])
    requires
        LOCATION_BYTES * k + LOCATION_BYTES <= coverage.len(),
    ensures
        final(block)@ == location_coverage(coverage@, k as nat),
{
    let base: usize = LOCATION_BYTES * k;
    let mut j: usize = 0;
    while j < LOCATION_BYTES
        invariant
            0 <= j <= LOCATION_BYTES,
            base == LOCATION_BYTES * k,
            base + LOCATION_BYTES <= coverage.len(),
            forall|c: int| 0 <= c < j ==> block@[c] == coverage@[base + c],
        decreases LOCATION_BYTES - j,
    {
        block[j] = coverage[base + j];
        j += 1;
    }
    assert(block@ =~= location_coverage(coverage@, k as nat));
}

/// The strip buffer that `render` leaves: the strips it held, then the strips
/// cut from the tiles.
pub open spec fn rendered_strips(
    tiles: Seq<Tile>,
    coverage: Seq<u8>,
    strips: Seq<StripView>,
    alphas: Seq<u8>,
    fill_rule: FillRule,
    threshold: Option<u8>,
    luminance: Option<u8>,
) -> Seq<StripView> {
    emitted(
        tiles,
        tiles.len(),
        coverage,
        EmitterView::start(tiles[0], strips, alphas, fill_rule, threshold),
        luminance,
    ).finish_strips()
}

/// Number of pixel columns of each strip pushed while the first `n` tiles are
/// taken: for a strip, from its origin through the last tile that
/// contributed to it; for a row sentinel, none.
pub open spec fn emitted_columns(
    tiles: Seq<Tile>,
    n: nat,
    coverage: Seq<u8>,
    init: EmitterView,
    luminance: Option<u8>,
) -> Seq<int>
    decreases n,
{
    if n == 0 {
        Seq::empty()
    } else {
        let before = emitted(tiles, (n - 1) as nat, coverage, init, luminance);
        let columns = emitted_columns(tiles, (n - 1) as nat, coverage, init, luminance);
        let tile = tiles[n - 1];
        if !before.breaks_strip(tile) {
            columns
        } else if before.breaks_row(tile) && before.winding != 0 {
            columns.push(before.columns()).push(0)
        } else {
            columns.push(before.columns())
        }
    }
}

/// Number of pixel columns of each strip that `render` appends.
pub open spec fn rendered_columns(
    tiles: Seq<Tile>,
    coverage: Seq<u8>,
    strips: Seq<StripView>,
    alphas: Seq<u8>,
    fill_rule: FillRule,
    threshold: Option<u8>,
    luminance: Option<u8>,
) -> Seq<int> {
    let init = EmitterView::start(tiles[0], strips, alphas, fill_rule, threshold);
    emitted_columns(tiles, tiles.len(), coverage, init, luminance).push(
        emitted(tiles, tiles.len(), coverage, init, luminance).columns(),
    ).push(0)
}

/// The alpha index of the strip that follows strip `k` of the state: the next
/// one in the buffer or, after the last, the strip being built.
pub open spec fn following_alpha_idx(state: EmitterView, k: int) -> int {
    if k + 1 < state.strips.len() {
        state.strips[k + 1].alpha_idx as int
    } else {
        state.strip.alpha_idx as int
    }
}

/// While tiles are taken, every strip pushed is followed by a strip whose
/// alpha index lies further by the strip's columns times the tile height, and
/// every row sentinel by a strip with the sentinel's alpha index.
proof fn lemma_emitted_columns(
    tiles: Seq<Tile>,
    n: nat,
    coverage: Seq<u8>,
    strips: Seq<StripView>,
    alphas: Seq<u8>,
    fill_rule: FillRule,
    threshold: Option<u8>,
    luminance: Option<u8>,
)
    requires
        renderable(tiles, coverage, alphas.len()),
        0 < tiles.len(),
        n <= tiles.len(),
    ensures
        ({
            let init = EmitterView::start(tiles[0], strips, alphas, fill_rule, threshold);
            let state = emitted(tiles, n, coverage, init, luminance);
            let columns = emitted_columns(tiles, n, coverage, init, luminance);
            &&& columns.len() == state.strips.len() - strips.len()
            &&& forall|k: int|
                strips.len() <= k < state.strips.len() ==> following_alpha_idx(state, k) - (
                #[trigger] state.strips[k]).alpha_idx == columns[k - strips.len()] * TILE_HEIGHT
            &&& forall|k: int|
                strips.len() <= k < state.strips.len() ==> (#[trigger] state.strips[k]).is_sentinel()
                    == (columns[k - strips.len()] == 0)
        }),
    decreases n,
{
    let init = EmitterView::start(tiles[0], strips, alphas, fill_rule, threshold);
    let state = emitted(tiles, n, coverage, init, luminance);
    let columns = emitted_columns(tiles, n, coverage, init, luminance);
    lemma_emitted(tiles, n, coverage, strips, alphas, fill_rule, threshold, luminance);
    if n > 0 {
        let m = (n - 1) as nat;
        lemma_emitted(tiles, m, coverage, strips, alphas, fill_rule, threshold, luminance);
        lemma_emitted_columns(tiles, m, coverage, strips, alphas, fill_rule, threshold, luminance);
        let before = emitted(tiles, m, coverage, init, luminance);
        let before_columns = emitted_columns(tiles, m, coverage, init, luminance);
        let tile = tiles[n - 1];
        let len = before.strips.len() as int;
        if before.breaks_strip(tile) {
            assert(state.strips[len] == before.strip);
            assert(!before.strip.is_sentinel());
            assert(before.columns() >= 4);
            assert forall|k: int| strips.len() <= k < state.strips.len() implies following_alpha_idx(
                state,
                k,
            ) - (#[trigger] state.strips[k]).alpha_idx == columns[k - strips.len()] * TILE_HEIGHT
                && state.strips[k].is_sentinel() == (columns[k - strips.len()] == 0) by {
                if k < len {
                    assert(state.strips[k] == before.strips[k]);
                    assert(following_alpha_idx(state, k) == following_alpha_idx(before, k));
                    assert(columns[k - strips.len()] == before_columns[k - strips.len()]);
                }
            }
        } else {
            assert forall|k: int| strips.len() <= k < state.strips.len() implies following_alpha_idx(
                state,
                k,
            ) - (#[trigger] state.strips[k]).alpha_idx == columns[k - strips.len()] * TILE_HEIGHT
                && state.strips[k].is_sentinel() == (columns[k - strips.len()] == 0) by {
                assert(state.strips[k] == before.strips[k]);
                assert(following_alpha_idx(state, k) == following_alpha_idx(before, k));
            }
        }
    }
}

/// Column count: of two consecutive strips that `render` appends, the second
/// one's alpha index lies further than the first one's by the first one's
/// columns times the tile height. A row sentinel has no columns, so the strip
/// after it has its alpha index.
pub proof fn lemma_rendered_column_count(
    tiles: Seq<Tile>,
    coverage: Seq<u8>,
    strips: Seq<StripView>,
    alphas: Seq<u8>,
    fill_rule: FillRule,
    threshold: Option<u8>,
    luminance: Option<u8>,
    k: int,
)
    requires
        renderable(tiles, coverage, alphas.len()),
        0 < tiles.len(),
        strips.len() <= k,
        k + 1 < rendered_strips(tiles, coverage, strips, alphas, fill_rule, threshold, luminance).len(),
    ensures
        ({
            let out = rendered_strips(tiles, coverage, strips, alphas, fill_rule, threshold, luminance);
            let columns = rendered_columns(
                tiles,
                coverage,
                strips,
                alphas,
                fill_rule,
                threshold,
                luminance,
            );
            &&& columns.len() == out.len() - strips.len()
            &&& out[k + 1].alpha_idx - out[k].alpha_idx == columns[k - strips.len()] * TILE_HEIGHT
            &&& out[k].is_sentinel() == (columns[k - strips.len()] == 0)
        }),
{
    let init = EmitterView::start(tiles[0], strips, alphas, fill_rule, threshold);
    let state = emitted(tiles, tiles.len(), coverage, init, luminance);
    lemma_emitted(tiles, tiles.len(), coverage, strips, alphas, fill_rule, threshold, luminance);
    lemma_emitted_columns(
        tiles,
        tiles.len(),
        coverage,
        strips,
        alphas,
        fill_rule,
        threshold,
        luminance,
    );
    let out = state.finish_strips();
    if k < state.strips.len() {
        assert(out[k] == state.strips[k]);
        assert(out[k + 1].alpha_idx == following_alpha_idx(state, k));
    } else {
        assert(out[k] == state.strip);
    }
}

/// Monotonic alpha index: among the strips that `render` appends, alpha
/// indices never decrease.
pub proof fn lemma_rendered_alpha_idx_sorted(
    tiles: Seq<Tile>,
    coverage: Seq<u8>,
    strips: Seq<StripView>,
    alphas: Seq<u8>,
    fill_rule: FillRule,
    threshold: Option<u8>,
    luminance: Option<u8>,
    j: int,
    k: int,
)
    requires
        renderable(tiles, coverage, alphas.len()),
        0 < tiles.len(),
        strips.len() <= j <= k,
        k < rendered_strips(tiles, coverage, strips, alphas, fill_rule, threshold, luminance).len(),
    ensures
        ({
            let out = rendered_strips(tiles, coverage, strips, alphas, fill_rule, threshold, luminance);
            out[j].alpha_idx <= out[k].alpha_idx
        }),
{
    let init = EmitterView::start(tiles[0], strips, alphas, fill_rule, threshold);
    let state = emitted(tiles, tiles.len(), coverage, init, luminance);
    lemma_emitted(tiles, tiles.len(), coverage, strips, alphas, fill_rule, threshold, luminance);
    let out = state.finish_strips();
    assert(state.columns() >= 4);
    if k < state.strips.len() {
        assert(out[j] == state.strips[j] && out[k] == state.strips[k]);
    } else if j < state.strips.len() {
        assert(out[j] == state.strips[j]);
    }
}

/// Row sentinels: the strips that `render` appends end in the sentinel of the
/// row of the last tile, and every row sentinel among them directly follows a
/// strip of its row that is no sentinel, so that a row is closed once.
pub proof fn lemma_rendered_sentinels(
    tiles: Seq<Tile>,
    coverage: Seq<u8>,
    strips: Seq<StripView>,
    alphas: Seq<u8>,
    fill_rule: FillRule,
    threshold: Option<u8>,
    luminance: Option<u8>,
)
    requires
        renderable(tiles, coverage, alphas.len()),
        0 < tiles.len(),
    ensures
        ({
            let out = rendered_strips(tiles, coverage, strips, alphas, fill_rule, threshold, luminance);
            &&& out.len() >= strips.len() + 2
            &&& out.take(strips.len() as int) == strips
            &&& out.last().is_sentinel()
            &&& out.last().y == tiles.last().y * TILE_HEIGHT
            &&& forall|k: int|
                strips.len() <= k < out.len() && (#[trigger] out[k]).is_sentinel() ==> {
                    &&& strips.len() < k
                    &&& !out[k - 1].is_sentinel()
                    &&& out[k - 1].y == out[k].y
                }
        }),
{
    let init = EmitterView::start(tiles[0], strips, alphas, fill_rule, threshold);
    let state = emitted(tiles, tiles.len(), coverage, init, luminance);
    lemma_emitted(tiles, tiles.len(), coverage, strips, alphas, fill_rule, threshold, luminance);
    let out = state.finish_strips();
    assert(out.take(strips.len() as int) =~= state.strips.take(strips.len() as int));
    assert forall|k: int| strips.len() <= k < out.len() && (#[trigger] out[k]).is_sentinel() implies {
        &&& strips.len() < k
        &&& !out[k - 1].is_sentinel()
        &&& out[k - 1].y == out[k].y
    } by {
        if k < state.strips.len() {
            assert(state.strips[k].is_sentinel());
            assert(out[k - 1] == state.strips[k - 1]);
        } else if k == state.strips.len() {
            assert(out[k] == state.strip);
        } else {
            assert(out[k - 1] == state.strip);
        }
    }
}

/// The tiles of the same path with every line reversed: each winding negated.
pub open spec fn reversed(tiles: Seq<Tile>) -> Seq<Tile> {
    Seq::new(tiles.len(), |i: int| Tile { winding: (-tiles[i].winding) as i8, ..tiles[i] })
}

/// Both fill rules depend on the size of the winding only.
pub proof fn lemma_fills_symmetric(fill_rule: FillRule, winding: int)
    ensures
        fill_rule.fills(-winding) == fill_rule.fills(winding),
{
}

/// Reversing every line leaves the state as it was, but for the sign of the
/// winding.
proof fn lemma_emitted_reversed(
    tiles: Seq<Tile>,
    n: nat,
    coverage: Seq<u8>,
    init: EmitterView,
    mirrored_init: EmitterView,
    luminance: Option<u8>,
)
    requires
        forall|i: int| 0 <= i < tiles.len() ==> (#[trigger] tiles[i]).wf(),
        n <= tiles.len(),
        init.winding == 0,
        mirrored_init == (EmitterView { prev: mirrored_init.prev, ..init }),
        mirrored_init.prev.x == init.prev.x,
        mirrored_init.prev.y == init.prev.y,
    ensures
        emitted(reversed(tiles), n, coverage, mirrored_init, luminance) == (EmitterView {
            prev: if n == 0 { mirrored_init.prev } else { reversed(tiles)[n - 1] },
            winding: -emitted(tiles, n, coverage, init, luminance).winding,
            ..emitted(tiles, n, coverage, init, luminance)
        }),
        emitted(tiles, n, coverage, init, luminance).prev == (if n == 0 {
            init.prev
        } else {
            tiles[n - 1]
        }),
    decreases n,
{
    if n > 0 {
        let m = (n - 1) as nat;
        lemma_emitted_reversed(tiles, m, coverage, init, mirrored_init, luminance);
        lemma_stored_locations_reversed(tiles, m);
        let before = emitted(tiles, m, coverage, init, luminance);
        let mirrored = emitted(reversed(tiles), m, coverage, mirrored_init, luminance);
        lemma_fills_symmetric(before.fill_rule, before.winding);
        assert(mirrored.leaves_location(reversed(tiles)[n - 1]) == before.leaves_location(
            tiles[n - 1],
        ));
        assert(mirrored.breaks_strip(reversed(tiles)[n - 1]) == before.breaks_strip(tiles[n - 1]));
        assert(mirrored.breaks_row(reversed(tiles)[n - 1]) == before.breaks_row(tiles[n - 1]));
    }
}

/// Reversing every line leaves the locations where they were.
proof fn lemma_stored_locations_reversed(tiles: Seq<Tile>, n: nat)
    requires
        n <= tiles.len(),
    ensures
        locations(reversed(tiles), n) == locations(tiles, n),
        stored_locations(reversed(tiles), n) == stored_locations(tiles, n),
    decreases n,
{
    if n > 1 {
        lemma_stored_locations_reversed(tiles, (n - 1) as nat);
    }
}

/// Symmetry: with every line reversed, `render` appends the same strips, under
/// either fill rule.
pub proof fn lemma_rendered_strips_symmetric(
    tiles: Seq<Tile>,
    coverage: Seq<u8>,
    strips: Seq<StripView>,
    alphas: Seq<u8>,
    fill_rule: FillRule,
    threshold: Option<u8>,
    luminance: Option<u8>,
)
    requires
        forall|i: int| 0 <= i < tiles.len() ==> (#[trigger] tiles[i]).wf(),
        0 < tiles.len(),
    ensures
        rendered_strips(reversed(tiles), coverage, strips, alphas, fill_rule, threshold, luminance)
            == rendered_strips(tiles, coverage, strips, alphas, fill_rule, threshold, luminance),
{
    let init = EmitterView::start(tiles[0], strips, alphas, fill_rule, threshold);
    let mirrored_init = EmitterView::start(reversed(tiles)[0], strips, alphas, fill_rule, threshold);
    lemma_emitted_reversed(tiles, tiles.len(), coverage, init, mirrored_init, luminance);
    let state = emitted(tiles, tiles.len(), coverage, init, luminance);
    lemma_fills_symmetric(state.fill_rule, state.winding);
    assert(reversed(tiles)[tiles.len() - 1].y == tiles[tiles.len() - 1].y);
}

} // verus!
