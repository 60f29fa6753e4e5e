//! A scene: the wide tiles of a picture with their commands, and the strips
//! and coverage that the commands refer to.

use vstd::prelude::*;
use crate::coarse::{Cmd, Paint, WideTile, WideTileView};
use crate::gamma::GammaCorrector;
use crate::schedule_model::visible;
use crate::strip::{
    emitted, luminance_of, render, renderable, shaped_seq, strip_views, EmitterView, FillRule,
    Strip, StripView,
};
use crate::tile::{Tile, TILE_HEIGHT, WIDE_TILE_WIDTH};

verus! {

/// Number of wide tiles that cover `width` pixels.
pub open spec fn wide_tiles_across(width: u16) -> int {
    (width + WIDE_TILE_WIDTH - 1) / (WIDE_TILE_WIDTH as int)
}

/// Number of wide tiles that cover `height` pixels.
pub open spec fn wide_tiles_down(height: u16) -> int {
    (height + TILE_HEIGHT - 1) / (TILE_HEIGHT as int)
}

/// Rounds that the first `n` wide tiles can make the scheduler queue at most:
/// one for each tile and two for each command.
pub open spec fn round_budget(tiles: Seq<WideTileView>, n: nat) -> int
    decreases n,
{
    if n == 0 {
        0
    } else {
        round_budget(tiles, (n - 1) as nat) + 2 * tiles[n - 1].cmds.len() + 1
    }
}

/// The budget grows with the number of tiles.
pub proof fn lemma_round_budget_monotonic(tiles: Seq<WideTileView>, m: nat, n: nat)
    requires
        m <= n,
    ensures
        0 <= round_budget(tiles, m) <= round_budget(tiles, n),
    decreases n,
{
    if m < n {
        lemma_round_budget_monotonic(tiles, m, (n - 1) as nat);
    } else if n > 0 {
        lemma_round_budget_monotonic(tiles, (n - 1) as nat, (n - 1) as nat);
    }
}

/// The budget counts each tile by its number of commands only.
pub proof fn lemma_round_budget_update(
    tiles: Seq<WideTileView>,
    n: nat,
    index: int,
    tile: WideTileView,
)
    requires
        0 <= index < tiles.len(),
        n <= tiles.len(),
    ensures
        round_budget(tiles.update(index, tile), n) == round_budget(tiles, n) + (if index < n {
            2 * (tile.cmds.len() - tiles[index].cmds.len())
        } else {
            0
        }),
    decreases n,
{
    if n > 0 {
        lemma_round_budget_update(tiles, (n - 1) as nat, index, tile);
    }
}

/// Opaque black, the paint of a new scene.
pub const BLACK: u32 = 0xFF00_0000;

/// What a scene says: its size in pixels, its wide tiles, row by row, the
/// strips and coverage rendered so far, and the style of the next path.
pub struct SceneView {
    pub width: u16,
    pub height: u16,
    pub tiles: Seq<WideTileView>,
    pub strips: Seq<StripView>,
    pub alphas: Seq<u8>,
    pub paint: Paint,
    pub paint_visible: bool,
    pub fill_rule: FillRule,
}

/// Whether a paint shows: a solid colour whose alpha is not zero.
pub open spec fn shows(paint: Paint) -> bool {
    match paint {
        Paint::Solid(rgba) => visible(rgba),
        Paint::Indexed(_) => false,
    }
}

/// The strips moved by `offset` places in the alpha buffer.
pub open spec fn rebased(strips: Seq<StripView>, offset: int) -> Seq<StripView> {
    Seq::new(
        strips.len(),
        |i: int| StripView { alpha_idx: (strips[i].alpha_idx + offset) as u32, ..strips[i] },
    )
}

/// Whether the strips can be moved by `offset` places: every alpha index stays
/// in range.
pub open spec fn can_rebase(strips: Seq<StripView>, offset: int) -> bool {
    forall|i: int| 0 <= i < strips.len() ==> 0 <= (#[trigger] strips[i]).alpha_idx + offset < 0x8000_0000
}

/// Returns a copy of the strips from `from` on, moved by `offset` places in the
/// alpha buffer, of which `back` gives the direction.
fn rebase_from(strips: &Vec<Strip>, from: usize, offset: u32, back: bool) -> (moved: Vec<Strip>)
    requires
        from <= strips.len(),
        can_rebase(
            strip_views(strips@).skip(from as int),
            if back {
                -(offset as int)
            } else {
                offset as int
            },
        ),
    ensures
        strip_views(moved@) == rebased(
            strip_views(strips@).skip(from as int),
            if back {
                -(offset as int)
            } else {
                offset as int
            },
        ),
{
    let ghost source = strip_views(strips@).skip(from as int);
    let ghost by: int = if back {
        -(offset as int)
    } else {
        offset as int
    };
    let mut moved: Vec<Strip> = Vec::new();
    let mut i: usize = from;
    while i < strips.len()
        invariant
            from <= i <= strips.len(),
            source == strip_views(strips@).skip(from as int),
            by == (if back {
                -(offset as int)
            } else {
                offset as int
            }),
            can_rebase(source, by),
            moved.len() == i - from,
            forall|k: int| 0 <= k < moved.len() ==> (#[trigger] moved[k])@ == rebased(source, by)[k],
        decreases strips.len() - i,
    {
        let mut strip: Strip = strips[i];
        assert(source[i - from] == strips[i as int]@);
        let alpha_idx: u32 = strip.alpha_idx();
        let target: u32 = if back {
            alpha_idx - offset
        } else {
            alpha_idx + offset
        };
        strip.set_alpha_idx(target);
        moved.push(strip);
        i += 1;
    }
    assert(strip_views(moved@) =~= rebased(source, by));
    moved
}

/// Strips with their coverage, kept to be rendered again. The alpha indices of
/// the strips count from the start of the coverage kept with them.
#[derive(Debug)]
pub struct CachedStrips {
    strips: Vec<Strip>,
    alphas: Vec<u8>,
}

/// What cached strips hold.
pub struct CachedStripsView {
    pub strips: Seq<StripView>,
    pub alphas: Seq<u8>,
}

impl View for CachedStrips {
    type V = CachedStripsView;

    closed spec fn view(&self) -> CachedStripsView {
        CachedStripsView { strips: strip_views(self.strips@), alphas: self.alphas@ }
    }
}

impl CachedStrips {
    /// Creates an empty cache.
    pub fn new() -> (cached: CachedStrips)
        ensures
            cached@.strips.len() == 0,
            cached@.alphas.len() == 0,
    {
        CachedStrips { strips: Vec::new(), alphas: Vec::new() }
    }

    /// Returns the strips.
    pub fn strips(&self) -> (strips: &Vec<Strip>)
        ensures
            strip_views(strips@) == self@.strips,
    {
        &self.strips
    }

    /// Returns the coverage that the strips refer to.
    pub fn alphas(&self) -> (alphas: &Vec<u8>)
        ensures
            alphas@ == self@.alphas,
    {
        &self.alphas
    }

    /// Appends the strips and the coverage of `other`, the strips moved behind
    /// the coverage already held.
    pub fn append(&mut self, other: &CachedStrips)
        requires
            old(self)@.alphas.len() < 0x8000_0000,
            can_rebase(other@.strips, old(self)@.alphas.len() as int),
        ensures
            final(self)@.strips == old(self)@.strips + rebased(
                other@.strips,
                old(self)@.alphas.len() as int,
            ),
            final(self)@.alphas == old(self)@.alphas + other@.alphas,
    {
        let ghost before = self@;
        let offset: u32 = self.alphas.len() as u32;
        assert(strip_views(other.strips@).skip(0) =~= other@.strips);
        let mut moved = rebase_from(&other.strips, 0, offset, false);
        let ghost held = self.strips@;
        let ghost added = moved@;
        self.strips.append(&mut moved);
        assert(strip_views(self.strips@) =~= strip_views(held) + strip_views(added));
        let mut alphas = copy_from(&other.alphas, 0);
        self.alphas.append(&mut alphas);
        assert(other.alphas@.skip(0) =~= other.alphas@);
    }
}

impl Default for CachedStrips {
    fn default() -> (cached: CachedStrips)
        ensures
            cached@.strips.len() == 0,
            cached@.alphas.len() == 0,
    {
        CachedStrips::new()
    }
}

/// Returns a copy of the bytes from `from` on.
fn copy_from(bytes: &Vec<u8>, from: usize) -> (copy: Vec<u8>)
    requires
        from <= bytes.len(),
    ensures
        copy@ == bytes@.skip(from as int),
{
    let mut copy: Vec<u8> = Vec::new();
    let mut i: usize = from;
    while i < bytes.len()
        invariant
            from <= i <= bytes.len(),
            copy@ == bytes@.subrange(from as int, i as int),
        decreases bytes.len() - i,
    {
        let ghost held = copy@;
        copy.push(bytes[i]);
        assert(copy@ =~= bytes@.subrange(from as int, i + 1));
        i += 1;
    }
    assert(copy@ =~= bytes@.skip(from as int));
    copy
}

impl SceneView {
    /// Number of wide tiles in a row.
    pub open spec fn per_row(self) -> int {
        wide_tiles_across(self.width)
    }

    /// Number of rows of wide tiles.
    pub open spec fn per_column(self) -> int {
        wide_tiles_down(self.height)
    }

    /// Whether the scene can be scheduled: it holds one wide tile for each
    /// place, every tile's commands can be scheduled, and the rounds they can
    /// make the scheduler queue can be counted.
    pub open spec fn wf(self) -> bool {
        &&& self.tiles.len() == self.per_row() * self.per_column()
        &&& forall|i: int| 0 <= i < self.tiles.len() ==> (#[trigger] self.tiles[i]).wf()
        &&& round_budget(self.tiles, self.tiles.len()) + 1 <= usize::MAX
    }

    /// Whether every layer that a tile's commands open is closed again.
    pub open spec fn balanced(self) -> bool {
        forall|i: int| 0 <= i < self.tiles.len() ==> (#[trigger] self.tiles[i]).balanced()
    }
}

/// The views of the wide tiles of a scene.
pub open spec fn tile_views(tiles: Seq<WideTile>) -> Seq<WideTileView> {
    tiles.map_values(|tile: WideTile| tile@)
}

/// A scene.
#[derive(Debug)]
pub struct Scene {
    width: u16,
    height: u16,
    wide_tiles: Vec<WideTile>,
    /// Rounds that the wide tiles can make the scheduler queue at most.
    budget: usize,
    alphas: Vec<u8>,
    strip_buf: Vec<Strip>,
    paint: Paint,
    paint_visible: bool,
    fill_rule: FillRule,
}

impl View for Scene {
    type V = SceneView;

    closed spec fn view(&self) -> SceneView {
        SceneView {
            width: self.width,
            height: self.height,
            tiles: tile_views(self.wide_tiles@),
            strips: strip_views(self.strip_buf@),
            alphas: self.alphas@,
            paint: self.paint,
            paint_visible: self.paint_visible,
            fill_rule: self.fill_rule,
        }
    }
}

impl Scene {
    /// Whether the scene can be scheduled.
    pub closed spec fn wf(&self) -> bool {
        &&& self@.wf()
        &&& forall|i: int| 0 <= i < self.wide_tiles.len() ==> (#[trigger] self.wide_tiles[i]).wf()
        &&& self.budget == round_budget(self@.tiles, self@.tiles.len())
    }

    /// What a scene that can be scheduled says can be scheduled.
    pub proof fn lemma_wf(&self)
        requires
            self.wf(),
        ensures
            self@.wf(),
    {
    }

    /// Creates a scene of the given size in pixels, with a transparent
    /// background, no commands, no strips, and opaque black as the paint of
    /// non-zero fills.
    pub fn new(width: u16, height: u16) -> (scene: Scene)
        ensures
            scene.wf(),
            scene@.width == width,
            scene@.height == height,
            scene@.strips.len() == 0,
            scene@.alphas.len() == 0,
            scene@.paint == Paint::Solid(BLACK),
            scene@.paint_visible,
            scene@.fill_rule == FillRule::NonZero,
            scene@.tiles.len() == wide_tiles_across(width) * wide_tiles_down(height),
            forall|i: int|
                0 <= i < scene@.tiles.len() ==> #[trigger] scene@.tiles[i] == (WideTileView {
                    bg: 0,
                    cmds: Seq::empty(),
                }),
    {
        let per_row: usize = (width as usize + WIDE_TILE_WIDTH as usize - 1)
            / WIDE_TILE_WIDTH as usize;
        let per_column: usize = (height as usize + TILE_HEIGHT as usize - 1)
            / TILE_HEIGHT as usize;
        assert(per_row * per_column <= 256 * 16384) by (nonlinear_arith)
            requires
                per_row <= 256,
                per_column <= 16384,
        ;
        let count: usize = per_row * per_column;
        let mut wide_tiles: Vec<WideTile> = Vec::new();
        let mut i: usize = 0;
        while i < count
            invariant
                0 <= i <= count,
                count <= 256 * 16384,
                wide_tiles.len() == i,
                forall|k: int| 0 <= k < i ==> (#[trigger] wide_tiles[k]).wf(),
                forall|k: int|
                    0 <= k < i ==> (#[trigger] wide_tiles[k])@ == (WideTileView {
                        bg: 0,
                        cmds: Seq::empty(),
                    }),
                round_budget(tile_views(wide_tiles@), i as nat) == i,
            decreases count - i,
        {
            let ghost before = tile_views(wide_tiles@);
            let tile = WideTile::new(0);
            wide_tiles.push(tile);
            proof {
                let after = tile_views(wide_tiles@);
                assert(after =~= before.push(tile@));
                assert(after =~= after.update(i as int, tile@));
                lemma_round_budget_prefix(before, after, i as nat);
            }
            i += 1;
        }
        let scene = Scene {
            width,
            height,
            wide_tiles,
            budget: count,
            alphas: Vec::new(),
            strip_buf: Vec::new(),
            paint: Paint::Solid(BLACK),
            paint_visible: true,
            fill_rule: FillRule::NonZero,
        };
        proof {
            assert forall|k: int| 0 <= k < scene@.tiles.len() implies (#[trigger] scene@.tiles[k]).wf() by {
                assert(scene.wide_tiles[k]@ == (WideTileView { bg: 0, cmds: Seq::empty() }));
                assert(crate::coarse::layered(Seq::<Cmd>::empty()));
            }
        }
        scene
    }

    /// Returns the width of the scene in pixels.
    pub fn width(&self) -> (width: u16)
        ensures
            width == self@.width,
    {
        self.width
    }

    /// Returns the height of the scene in pixels.
    pub fn height(&self) -> (height: u16)
        ensures
            height == self@.height,
    {
        self.height
    }

    /// Returns the number of wide tiles in a row.
    pub fn wide_tiles_per_row(&self) -> (count: usize)
        ensures
            count == self@.per_row(),
            count <= 256,
    {
        (self.width as usize + WIDE_TILE_WIDTH as usize - 1) / WIDE_TILE_WIDTH as usize
    }

    /// Returns the number of rows of wide tiles.
    pub fn wide_tiles_per_column(&self) -> (count: usize)
        ensures
            count == self@.per_column(),
            count <= 16384,
    {
        (self.height as usize + TILE_HEIGHT as usize - 1) / TILE_HEIGHT as usize
    }

    /// Returns the wide tiles, row by row.
    pub fn wide_tiles(&self) -> (tiles: &Vec<WideTile>)
        ensures
            tile_views(tiles@) == self@.tiles,
            self.wf() ==> forall|i: int| 0 <= i < tiles.len() ==> (#[trigger] tiles[i]).wf(),
    {
        &self.wide_tiles
    }

    /// Appends a command to the wide tile in column `col` of row `row`, if
    /// there is such a tile, the tile accepts the command, and the scheduler
    /// could still count the rounds. Returns whether it was appended.
    pub fn push_cmd(&mut self, col: u16, row: u16, cmd: Cmd) -> (accepted: bool)
        requires
            old(self).wf(),
        ensures
            final(self).wf(),
            final(self)@ == (SceneView { tiles: final(self)@.tiles, ..old(self)@ }),
            accepted == ({
                &&& col < old(self)@.per_row()
                &&& row < old(self)@.per_column()
                &&& old(self)@.tiles[row * old(self)@.per_row() + col].accepts(cmd)
                &&& round_budget(old(self)@.tiles, old(self)@.tiles.len()) + 3 <= usize::MAX
            }),
            accepted ==> final(self)@.tiles == old(self)@.tiles.update(
                row * old(self)@.per_row() + col,
                WideTileView {
                    cmds: old(self)@.tiles[row * old(self)@.per_row() + col].cmds.push(cmd),
                    ..old(self)@.tiles[row * old(self)@.per_row() + col]
                },
            ),
            !accepted ==> final(self)@ == old(self)@,
    {
        let per_row: usize = self.wide_tiles_per_row();
        let per_column: usize = self.wide_tiles_per_column();
        if col as usize >= per_row || row as usize >= per_column || self.budget >= usize::MAX - 2 {
            return false;
        }
        assert(row * per_row + col < per_row * per_column) by (nonlinear_arith)
            requires
                0 <= col < per_row,
                0 <= row < per_column,
        ;
        assert(row * per_row <= 16384 * 256) by (nonlinear_arith)
            requires
                0 <= row < 16384,
                0 <= per_row <= 256,
        ;
        let index: usize = row as usize * per_row + col as usize;
        let ghost before = self@.tiles;
        let ghost tiles_before = self.wide_tiles@;
        let accepted: bool = self.wide_tiles[index].push(cmd);
        proof {
            let after = self@.tiles;
            assert(after =~= before.update(index as int, self.wide_tiles[index as int]@));
            lemma_round_budget_update(
                before,
                before.len(),
                index as int,
                self.wide_tiles[index as int]@,
            );
            assert forall|i: int| 0 <= i < self.wide_tiles.len() implies (
            #[trigger] self.wide_tiles[i]).wf() by {
                if i != index {
                    assert(self.wide_tiles[i] == tiles_before[i]);
                }
            }
            assert forall|i: int| 0 <= i < after.len() implies (#[trigger] after[i]).wf() by {
                self.wide_tiles[i].lemma_wf();
            }
            if !accepted {
                assert(after =~= before);
            }
        }
        if accepted {
            self.budget = self.budget + 2;
        }
        accepted
    }

    /// Sets the background of the wide tile in column `col` of row `row`, if
    /// there is such a tile. Returns whether there is.
    pub fn set_bg(&mut self, col: u16, row: u16, bg: u32) -> (found: bool)
        requires
            old(self).wf(),
        ensures
            final(self).wf(),
            final(self)@ == (SceneView { tiles: final(self)@.tiles, ..old(self)@ }),
            found == (col < old(self)@.per_row() && row < old(self)@.per_column()),
            found ==> final(self)@.tiles == old(self)@.tiles.update(
                row * old(self)@.per_row() + col,
                WideTileView { bg, ..old(self)@.tiles[row * old(self)@.per_row() + col] },
            ),
            !found ==> final(self)@ == old(self)@,
    {
        let per_row: usize = self.wide_tiles_per_row();
        let per_column: usize = self.wide_tiles_per_column();
        if col as usize >= per_row || row as usize >= per_column {
            return false;
        }
        assert(row * per_row + col < per_row * per_column) by (nonlinear_arith)
            requires
                0 <= col < per_row,
                0 <= row < per_column,
        ;
        assert(row * per_row <= 16384 * 256) by (nonlinear_arith)
            requires
                0 <= row < 16384,
                0 <= per_row <= 256,
        ;
        let index: usize = row as usize * per_row + col as usize;
        let ghost before = self@.tiles;
        let ghost tiles_before = self.wide_tiles@;
        self.wide_tiles[index].set_bg(bg);
        proof {
            let after = self@.tiles;
            assert(after =~= before.update(index as int, self.wide_tiles[index as int]@));
            lemma_round_budget_update(
                before,
                before.len(),
                index as int,
                self.wide_tiles[index as int]@,
            );
            assert forall|i: int| 0 <= i < self.wide_tiles.len() implies (
            #[trigger] self.wide_tiles[i]).wf() by {
                if i != index {
                    assert(self.wide_tiles[i] == tiles_before[i]);
                }
            }
            assert forall|i: int| 0 <= i < after.len() implies (#[trigger] after[i]).wf() by {
                self.wide_tiles[i].lemma_wf();
            }
        }
        true
    }
}

/// The budget of the first `n` tiles depends on those tiles only.
pub proof fn lemma_round_budget_prefix(a: Seq<WideTileView>, b: Seq<WideTileView>, n: nat)
    requires
        n <= a.len(),
        n <= b.len(),
        forall|i: int| 0 <= i < n ==> a[i] == b[i],
    ensures
        round_budget(a, n) == round_budget(b, n),
    decreases n,
{
    if n > 0 {
        lemma_round_budget_prefix(a, b, (n - 1) as nat);
    }
}

impl Scene {
    /// Returns the coverage rendered so far.
    pub fn alphas(&self) -> (alphas: &Vec<u8>)
        ensures
            alphas@ == self@.alphas,
    {
        &self.alphas
    }

    /// Returns the strips rendered so far.
    pub fn strip_buf(&self) -> (strips: &Vec<Strip>)
        ensures
            strip_views(strips@) == self@.strips,
    {
        &self.strip_buf
    }

    /// Exchanges the scene's strips and coverage for the given ones.
    pub fn swap_buffers(&mut self, strip_buf: &mut Vec<Strip>, alpha_buf: &mut Vec<u8>)
        ensures
            old(self).wf() ==> final(self).wf(),
            final(self)@ == (SceneView {
                strips: strip_views(old(strip_buf)@),
                alphas: old(alpha_buf)@,
                ..old(self)@
            }),
            strip_views(final(strip_buf)@) == old(self)@.strips,
            final(alpha_buf)@ == old(self)@.alphas,
    {
        core::mem::swap(&mut self.strip_buf, strip_buf);
        core::mem::swap(&mut self.alphas, alpha_buf);
    }

    /// Returns the paint of the next path.
    pub fn encode_current_paint(&self) -> (paint: Paint)
        ensures
            paint == self@.paint,
    {
        self.paint
    }

    /// Returns whether paths are drawn at all: whether the paint set last
    /// shows.
    pub fn paint_visible(&self) -> (visible: bool)
        ensures
            visible == self@.paint_visible,
    {
        self.paint_visible
    }

    /// Returns the fill rule of the next fill.
    pub fn fill_rule(&self) -> (fill_rule: FillRule)
        ensures
            fill_rule == self@.fill_rule,
    {
        self.fill_rule
    }

    /// Sets the paint of the paths that follow. With a paint that does not
    /// show, they are not drawn.
    pub fn set_paint(&mut self, paint: Paint)
        ensures
            final(self)@ == (SceneView { paint, paint_visible: shows(paint), ..old(self)@ }),
            old(self).wf() ==> final(self).wf(),
    {
        self.paint = paint;
        self.paint_visible =
        match paint {
            Paint::Solid(rgba) => crate::schedule::has_non_zero_alpha(rgba),
            Paint::Indexed(_) => false,
        };
    }

    /// Sets the fill rule of the fills that follow.
    pub fn set_fill_rule(&mut self, fill_rule: FillRule)
        ensures
            final(self)@ == (SceneView { fill_rule, ..old(self)@ }),
            old(self).wf() ==> final(self).wf(),
    {
        self.fill_rule = fill_rule;
    }

    /// Empties the scene: every wide tile loses its background and its
    /// commands, the strips and the coverage go, and paint and fill rule are
    /// those of a new scene. Whether paths are drawn stays as the paint set
    /// last left it.
    pub fn reset(&mut self)
        requires
            old(self).wf(),
        ensures
            final(self).wf(),
            final(self)@ == (SceneView {
                tiles: Seq::new(
                    old(self)@.tiles.len(),
                    |i: int| WideTileView { bg: 0, cmds: Seq::empty() },
                ),
                strips: Seq::empty(),
                alphas: Seq::empty(),
                paint: Paint::Solid(BLACK),
                fill_rule: FillRule::NonZero,
                ..old(self)@
            }),
    {
        let count: usize = self.wide_tiles.len();
        let ghost cleared = Seq::new(
            count as nat,
            |i: int| WideTileView { bg: 0, cmds: Seq::<Cmd>::empty() },
        );
        assert(count == self@.tiles.len());
        assert(count <= 256 * 16384) by (nonlinear_arith)
            requires
                count == self@.per_row() * self@.per_column(),
                0 <= self@.per_row() <= 256,
                0 <= self@.per_column() <= 16384,
        ;
        let mut i: usize = 0;
        while i < count
            invariant
                0 <= i <= count,
                count == self.wide_tiles.len(),
                count <= 256 * 16384,
                self.width == old(self).width,
                self.height == old(self).height,
                self.paint_visible == old(self).paint_visible,
                self@.tiles.len() == old(self)@.tiles.len(),
                forall|k: int| 0 <= k < count ==> (#[trigger] self.wide_tiles[k]).wf(),
                forall|k: int|
                    0 <= k < i ==> (#[trigger] self.wide_tiles[k])@ == (WideTileView {
                        bg: 0,
                        cmds: Seq::empty(),
                    }),
                round_budget(tile_views(self.wide_tiles@), i as nat) == i,
            decreases count - i,
        {
            let ghost before = tile_views(self.wide_tiles@);
            let ghost tiles_before = self.wide_tiles@;
            self.wide_tiles[i].reset();
            proof {
                let after = tile_views(self.wide_tiles@);
                assert forall|k: int| 0 <= k < count implies (#[trigger] self.wide_tiles[k]).wf() by {
                    if k != i {
                        assert(self.wide_tiles[k] == tiles_before[k]);
                    }
                }
                assert forall|k: int| 0 <= k < i + 1 implies (#[trigger] self.wide_tiles[k])@ == (
                WideTileView { bg: 0, cmds: Seq::empty() }) by {
                    if k != i {
                        assert(self.wide_tiles[k] == tiles_before[k]);
                    }
                }
                assert forall|k: int| 0 <= k < i implies before[k] == after[k] by {
                    assert(self.wide_tiles[k] == tiles_before[k]);
                }
                lemma_round_budget_prefix(before, after, i as nat);
            }
            i += 1;
        }
        self.budget = count;
        self.alphas.clear();
        self.strip_buf.clear();
        self.paint = Paint::Solid(BLACK);
        self.fill_rule = FillRule::NonZero;
        proof {
            assert(self@.tiles =~= cleared);
            assert(self@.strips =~= Seq::<StripView>::empty());
            assert forall|k: int| 0 <= k < self@.tiles.len() implies (#[trigger] self@.tiles[k]).wf() by {
                assert(crate::coarse::layered(Seq::<Cmd>::empty()));
            }
        }
    }

    /// Renders the tiles of a path into the scene's strips and coverage, as
    /// `render` does.
    pub fn make_strips(
        &mut self,
        tiles: &Vec<Tile>,
        coverage: &Vec<u8>,
        fill_rule: FillRule,
        aliasing_threshold: Option<u8>,
        gamma_corrector: Option<&GammaCorrector>,
    )
        requires
            renderable(tiles@, coverage@, old(self)@.alphas.len()),
        ensures
            old(self).wf() ==> final(self).wf(),
            final(self)@ == (SceneView {
                strips: final(self)@.strips,
                alphas: final(self)@.alphas,
                ..old(self)@
            }),
            final(self)@.alphas == old(self)@.alphas + shaped_seq(
                coverage@,
                aliasing_threshold,
                luminance_of(gamma_corrector),
            ),
            tiles.len() == 0 ==> final(self)@.strips == old(self)@.strips,
            tiles.len() > 0 ==> final(self)@.strips == emitted(
                tiles@,
                tiles@.len(),
                coverage@,
                EmitterView::start(
                    tiles@[0],
                    old(self)@.strips,
                    old(self)@.alphas,
                    fill_rule,
                    aliasing_threshold,
                ),
                luminance_of(gamma_corrector),
            ).finish_strips(),
    {
        render(
            tiles,
            coverage,
            &mut self.strip_buf,
            &mut self.alphas,
            fill_rule,
            aliasing_threshold,
            gamma_corrector,
        );
    }

    /// Copies the strips from `initial_strips_len` on and the coverage from
    /// `initial_alphas_len` on into a cache, the strips counting from the start
    /// of the coverage copied.
    pub fn create_cached_strips(&self, initial_strips_len: usize, initial_alphas_len: usize) -> (cached:
        CachedStrips)
        requires
            initial_strips_len < self@.strips.len() ==> initial_alphas_len < 0x8000_0000
                && can_rebase(
                self@.strips.skip(initial_strips_len as int),
                -(initial_alphas_len as int),
            ),
        ensures
            cached@.strips == (if initial_strips_len < self@.strips.len() {
                rebased(self@.strips.skip(initial_strips_len as int), -(initial_alphas_len as int))
            } else {
                Seq::<StripView>::empty()
            }),
            cached@.alphas == (if initial_alphas_len < self@.alphas.len() {
                self@.alphas.skip(initial_alphas_len as int)
            } else {
                Seq::<u8>::empty()
            }),
    {
        let strips: Vec<Strip> = if self.strip_buf.len() > initial_strips_len {
            rebase_from(&self.strip_buf, initial_strips_len, initial_alphas_len as u32, true)
        } else {
            Vec::new()
        };
        let alphas: Vec<u8> = if self.alphas.len() > initial_alphas_len {
            copy_from(&self.alphas, initial_alphas_len)
        } else {
            Vec::new()
        };
        let cached = CachedStrips { strips, alphas };
        assert(cached@.strips.len() == 0 ==> cached@.strips =~= Seq::<StripView>::empty());
        cached
    }

    /// Appends the coverage of cached strips to the scene's and returns the
    /// strips, moved behind the coverage that the scene held. Without strips
    /// nothing happens.
    pub fn render_cached_strips(&mut self, cached: &CachedStrips) -> (strips: Vec<Strip>)
        requires
            cached@.strips.len() > 0 ==> old(self)@.alphas.len() < 0x8000_0000 && can_rebase(
                cached@.strips,
                old(self)@.alphas.len() as int,
            ),
        ensures
            old(self).wf() ==> final(self).wf(),
            final(self)@ == (SceneView { alphas: final(self)@.alphas, ..old(self)@ }),
            cached@.strips.len() == 0 ==> strips@.len() == 0 && final(self)@.alphas
                == old(self)@.alphas,
            cached@.strips.len() > 0 ==> strip_views(strips@) == rebased(
                cached@.strips,
                old(self)@.alphas.len() as int,
            ) && final(self)@.alphas == old(self)@.alphas + cached@.alphas,
    {
        if cached.strips.len() == 0 {
            return Vec::new();
        }
        let start_alpha_idx: u32 = self.alphas.len() as u32;
        assert(strip_views(cached.strips@).skip(0) =~= cached@.strips);
        let strips = rebase_from(&cached.strips, 0, start_alpha_idx, false);
        let mut alphas = copy_from(&cached.alphas, 0);
        assert(cached.alphas@.skip(0) =~= cached.alphas@);
        self.alphas.append(&mut alphas);
        strips
    }
}

} // verus!
