//! The slot scheduler as a state machine over plain values.
//!
//! Clip layers are rendered into slots of two clip textures. A draw at clip
//! depth 1 goes to the final target; deeper draws alternate between the two
//! textures. Draws are collected in rounds; a round is flushed as up to three
//! render passes, and a layer's slot is freed after the round in which the
//! layer was consumed.

use vstd::prelude::*;
use crate::coarse::{Cmd, Paint, WideTileView};
use crate::render::{GpuStrip, LoadOp, PassView};
use crate::tile::{TILE_HEIGHT, WIDE_TILE_WIDTH};

verus! {

/// Largest number of slots of a clip texture: the row of every slot has to fit
/// the 16-bit coordinates of a strip instance.
pub const MAX_SLOTS: usize = 16384;

/// Slot index of the stack element that stands for the final target.
pub const FINAL_TARGET_SLOT: usize = usize::MAX;

/// Smallest packed colour whose alpha is not zero.
pub const MIN_VISIBLE_RGBA: u32 = 0x0100_0000;

/// First alpha index that is out of range.
pub const ALPHA_IDX_LIMIT: usize = 0x8000_0000;

/// Why a scene cannot be scheduled.
#[derive(Debug, Clone, Copy, PartialEq, Eq, Structural)]
pub enum ScheduleError {
    /// A layer needs a slot, none is free, and no round is left to flush.
    SlotExhausted,
    /// A command's alpha index does not fit 31 bits.
    AlphaOverflow,
    /// A fill carries a colour with zero alpha, which is reserved for strips
    /// that sample a slot.
    ColorZeroAlphaInFill,
    /// A fill carries a paint that is not a solid colour.
    UnsupportedPaint,
}

/// An element of a wide tile's layer stack.
#[derive(Debug, Clone, Copy, PartialEq, Eq, Structural)]
pub struct TileEl {
    /// The slot that holds the layer's pixels.
    pub slot_ix: usize,
    /// The earliest round in which those pixels are complete.
    pub round: usize,
}

/// Whether a packed premultiplied colour has non-zero alpha.
pub open spec fn visible(rgba: u32) -> bool {
    rgba >= MIN_VISIBLE_RGBA
}

/// The render target of a draw at the given clip depth: the final target, 2,
/// at depth 1; below that clip texture 1 at even and 0 at odd depth.
pub open spec fn target_of(clip_depth: int) -> int {
    if clip_depth == 1 {
        2
    } else {
        1 - clip_depth % 2
    }
}

/// The clip texture that holds the slot of the layer opened at the given clip
/// depth.
pub open spec fn texture_of(clip_depth: int) -> int {
    clip_depth % 2
}

/// Whether a layer consumed at the given clip depth was drawn into the
/// texture that the pass of its consumer is issued before, so that the
/// consumer has to wait for the next round.
pub open spec fn needs_next_round(clip_depth: int) -> bool {
    clip_depth % 2 == 0 && clip_depth > 2
}

/// The round in which the layer on top of the stack can be consumed into the
/// layer below it.
pub open spec fn consume_round(nos: TileEl, tos: TileEl, clip_depth: int) -> int {
    let ready = if needs_next_round(clip_depth) {
        tos.round + 1
    } else {
        tos.round as int
    };
    if nos.round >= ready {
        nos.round as int
    } else {
        ready
    }
}

/// The draws of a round and the slots to free after it.
pub struct RoundView {
    /// Draws into clip texture 0, clip texture 1 and the final target.
    pub draws: Seq<Seq<GpuStrip>>,
    /// Slots of clip texture 0 and 1 that are free after the round.
    pub free: Seq<Seq<usize>>,
}

impl RoundView {
    /// A round without draws.
    pub open spec fn empty() -> RoundView {
        RoundView {
            draws: seq![Seq::empty(), Seq::empty(), Seq::empty()],
            free: seq![Seq::empty(), Seq::empty()],
        }
    }

    pub open spec fn wf(self, total_slots: nat) -> bool {
        &&& self.draws.len() == 3
        &&& self.free.len() == 2
        &&& forall|ix: int, k: int|
            0 <= ix < 2 && 0 <= k < self.free[ix].len() ==> #[trigger] self.free[ix][k]
                < total_slots
    }
}

/// The scheduler's state.
pub struct SchedulerView {
    /// Number of rounds flushed so far in this scene.
    pub round: nat,
    /// Number of slots of each clip texture.
    pub total_slots: nat,
    /// Free slots of clip texture 0 and 1.
    pub free: Seq<Seq<usize>>,
    /// Slots of clip texture 0 and 1 that were handed out and not cleared yet.
    pub clear: Seq<Seq<u32>>,
    /// The rounds not flushed yet, the next one first.
    pub rounds: Seq<RoundView>,
}

/// The slots `0..n` in order.
pub open spec fn all_slots(n: nat) -> Seq<usize> {
    Seq::new(n, |i: int| i as usize)
}

impl SchedulerView {
    /// The state of a new scheduler: every slot free, one empty round queued.
    pub open spec fn idle(total_slots: nat) -> SchedulerView {
        SchedulerView {
            round: 0,
            total_slots,
            free: seq![all_slots(total_slots), all_slots(total_slots)],
            clear: seq![Seq::empty(), Seq::empty()],
            rounds: seq![RoundView::empty()],
        }
    }

    /// The round after the last round queued.
    pub open spec fn end(self) -> int {
        (self.round + self.rounds.len()) as int
    }

    pub open spec fn wf(self) -> bool {
        &&& self.total_slots <= MAX_SLOTS
        &&& self.free.len() == 2
        &&& self.clear.len() == 2
        &&& self.end() <= usize::MAX
        &&& forall|ix: int, k: int|
            0 <= ix < 2 && 0 <= k < self.free[ix].len() ==> #[trigger] self.free[ix][k]
                < self.total_slots
        &&& forall|q: int|
            0 <= q < self.rounds.len() ==> (#[trigger] self.rounds[q]).wf(self.total_slots)
    }

    /// Position in the queue of the given round; a round already flushed
    /// counts as the next one.
    pub open spec fn rel_round(self, round: int) -> int {
        if round >= self.round {
            round - self.round
        } else {
            0
        }
    }

    /// The state with empty rounds queued as needed for position `rel` to
    /// exist.
    pub open spec fn with_round(self, rel: int) -> SchedulerView {
        if rel < self.rounds.len() {
            self
        } else {
            SchedulerView {
                rounds: self.rounds + Seq::new(
                    (rel + 1 - self.rounds.len()) as nat,
                    |i: int| RoundView::empty(),
                ),
                ..self
            }
        }
    }

    /// The state after `strip` is scheduled for `round`, at the given clip
    /// depth.
    pub open spec fn with_draw(self, round: int, clip_depth: int, strip: GpuStrip) -> SchedulerView {
        let rel = self.rel_round(round);
        let target = target_of(clip_depth);
        let queued = self.with_round(rel);
        let at = queued.rounds[rel];
        SchedulerView {
            rounds: queued.rounds.update(
                rel,
                RoundView { draws: at.draws.update(target, at.draws[target].push(strip)), ..at },
            ),
            ..queued
        }
    }

    /// The state after `slot` of clip texture `texture` is queued to be freed
    /// after `round`.
    pub open spec fn with_free(self, round: int, texture: int, slot: usize) -> SchedulerView {
        let rel = self.rel_round(round);
        let queued = self.with_round(rel);
        let at = queued.rounds[rel];
        SchedulerView {
            rounds: queued.rounds.update(
                rel,
                RoundView { free: at.free.update(texture, at.free[texture].push(slot)), ..at },
            ),
            ..queued
        }
    }

    /// Whether every slot of clip texture `texture` is free or waits to be
    /// cleared, so that the whole texture can be cleared at once.
    pub open spec fn clears_all(self, texture: int) -> bool {
        self.clear[texture].len() + self.free[texture].len() == self.total_slots
    }

    /// The render passes that draw `strips` into `target`: none without
    /// strips; into the final target one that keeps what is there; into a clip
    /// texture one that clears it all if no slot is in use, else one that
    /// clears the slots waiting for it and one that keeps the rest.
    pub open spec fn passes_of(self, strips: Seq<GpuStrip>, target: int) -> Seq<PassView> {
        if strips.len() == 0 {
            Seq::empty()
        } else if target == 2 {
            seq![PassView::DrawStrips { target_ix: 2, strips, load: LoadOp::Load }]
        } else if self.clears_all(target) {
            seq![PassView::DrawStrips { target_ix: target as usize, strips, load: LoadOp::Clear }]
        } else {
            seq![
                PassView::ClearSlots { texture_ix: target as usize, slots: self.clear[target] },
                PassView::DrawStrips { target_ix: target as usize, strips, load: LoadOp::Load },
            ]
        }
    }

    /// The render passes of the draws into `target` of the next round.
    pub open spec fn target_passes(self, target: int) -> Seq<PassView> {
        self.passes_of(self.rounds[0].draws[target], target)
    }

    /// The render passes of the next round: clip texture 0, clip texture 1,
    /// then the final target.
    pub open spec fn flush_passes(self) -> Seq<PassView> {
        self.target_passes(0) + self.target_passes(1) + self.target_passes(2)
    }

    /// The slots of `texture` that wait to be cleared once the next round is
    /// flushed: none if the round draws into the texture.
    pub open spec fn clear_after_flush(self, texture: int) -> Seq<u32> {
        if self.rounds[0].draws[texture].len() == 0 {
            self.clear[texture]
        } else {
            Seq::empty()
        }
    }

    /// The state after the next round is flushed.
    pub open spec fn flushed(self) -> SchedulerView {
        SchedulerView {
            round: self.round + 1,
            free: seq![
                self.free[0] + self.rounds[0].free[0],
                self.free[1] + self.rounds[0].free[1],
            ],
            clear: seq![self.clear_after_flush(0), self.clear_after_flush(1)],
            rounds: self.rounds.drop_first(),
            ..self
        }
    }

    /// The state once rounds are flushed until a slot of `texture` is free or
    /// no round is left.
    pub open spec fn flushed_for(self, texture: int) -> SchedulerView
        decreases self.rounds.len(),
    {
        if self.free[texture].len() > 0 || self.rounds.len() == 0 {
            self
        } else {
            self.flushed().flushed_for(texture)
        }
    }

    /// The render passes of the rounds that `flushed_for` flushes.
    pub open spec fn passes_for(self, texture: int) -> Seq<PassView>
        decreases self.rounds.len(),
    {
        if self.free[texture].len() > 0 || self.rounds.len() == 0 {
            Seq::empty()
        } else {
            self.flush_passes() + self.flushed().passes_for(texture)
        }
    }

    /// The state after the last free slot of `texture` is handed out.
    pub open spec fn allocated(self, texture: int) -> SchedulerView {
        let slot = self.free[texture].last();
        SchedulerView {
            free: self.free.update(texture, self.free[texture].drop_last()),
            clear: self.clear.update(texture, self.clear[texture].push(slot as u32)),
            ..self
        }
    }

    /// The state once every round is flushed.
    pub open spec fn drained(self) -> SchedulerView
        decreases self.rounds.len(),
    {
        if self.rounds.len() == 0 {
            self
        } else {
            self.flushed().drained()
        }
    }

    /// The render passes of all rounds queued.
    pub open spec fn drain_passes(self) -> Seq<PassView>
        decreases self.rounds.len(),
    {
        if self.rounds.len() == 0 {
            Seq::empty()
        } else {
            self.flush_passes() + self.flushed().drain_passes()
        }
    }
}

/// The colour of a fill, or why the fill is refused.
pub open spec fn fill_rgba(paint: Paint) -> Result<u32, ScheduleError> {
    match paint {
        Paint::Solid(rgba) => if visible(rgba) {
            Ok(rgba)
        } else {
            Err(ScheduleError::ColorZeroAlphaInFill)
        },
        Paint::Indexed(_) => Err(ScheduleError::UnsupportedPaint),
    }
}

/// The strip instance of a span drawn into the layer `el` at the given clip
/// depth. At depth 1 it lies in the final target, at the span's place within
/// the wide tile at (`wide_x`, `wide_y`); deeper, in the row of the layer's slot.
pub open spec fn encoded_strip(
    clip_depth: int,
    el: TileEl,
    wide_x: u16,
    wide_y: u16,
    x: int,
    width: int,
    dense_width: int,
    col: int,
    rgba: u32,
) -> GpuStrip {
    GpuStrip {
        x: (if clip_depth == 1 { wide_x + x } else { x }) as u16,
        y: (if clip_depth == 1 { wide_y as int } else { el.slot_ix * TILE_HEIGHT }) as u16,
        width: width as u16,
        dense_width: dense_width as u16,
        col: col as u32,
        rgba,
    }
}

/// Scheduling of one wide tile in progress.
pub struct TileRun {
    pub sched: SchedulerView,
    /// The layer stack; its first element stands for the final target.
    pub stack: Seq<TileEl>,
    /// The render passes issued so far.
    pub passes: Seq<PassView>,
    /// Why scheduling stopped, if it did.
    pub error: Option<ScheduleError>,
}

impl TileRun {
    /// The clip depth: 1 for the final target, one more for each open layer.
    pub open spec fn depth(self) -> int {
        self.stack.len() as int
    }

    /// Scheduling stopped with `error`.
    pub open spec fn failed(self, error: ScheduleError) -> TileRun {
        TileRun { error: Some(error), ..self }
    }

    /// The run at the start of a wide tile: only the final target on the
    /// stack, and the background, if visible, drawn over the whole tile.
    pub open spec fn begin(
        sched: SchedulerView,
        passes: Seq<PassView>,
        bg: u32,
        wide_x: u16,
        wide_y: u16,
    ) -> TileRun {
        let bottom = TileEl { slot_ix: FINAL_TARGET_SLOT, round: sched.round as usize };
        TileRun {
            sched: if visible(bg) {
                sched.with_draw(
                    sched.round as int,
                    1,
                    encoded_strip(1, bottom, wide_x, wide_y, 0, WIDE_TILE_WIDTH as int, 0, 0, bg),
                )
            } else {
                sched
            },
            stack: seq![bottom],
            passes,
            error: None,
        }
    }

    /// A fill of the current layer.
    pub open spec fn fill(
        self,
        wide_x: u16,
        wide_y: u16,
        x: int,
        width: int,
        dense_width: int,
        col: int,
        rgba: u32,
    ) -> TileRun {
        let el = self.stack.last();
        TileRun {
            sched: self.sched.with_draw(
                el.round as int,
                self.depth(),
                encoded_strip(self.depth(), el, wide_x, wide_y, x, width, dense_width, col, rgba),
            ),
            ..self
        }
    }

    /// A new layer: rounds are flushed until its texture has a free slot; the
    /// slot is marked for clearing and goes on the stack.
    pub open spec fn push_buf(self) -> TileRun {
        let texture = texture_of(self.depth());
        let ready = self.sched.flushed_for(texture);
        let passes = self.passes + self.sched.passes_for(texture);
        if ready.free[texture].len() == 0 {
            TileRun { sched: ready, passes, ..self }.failed(ScheduleError::SlotExhausted)
        } else {
            TileRun {
                sched: ready.allocated(texture),
                stack: self.stack.push(
                    TileEl { slot_ix: ready.free[texture].last(), round: ready.round as usize },
                ),
                passes,
                ..self
            }
        }
    }

    /// The end of the current layer: the layer below it cannot be consumed
    /// before this one, and the slot is freed after that round.
    pub open spec fn pop_buf(self) -> TileRun {
        let tos = self.stack[self.depth() - 1];
        let nos = self.stack[self.depth() - 2];
        let round = consume_round(nos, tos, self.depth());
        TileRun {
            sched: self.sched.with_free(round, 1 - self.depth() % 2, tos.slot_ix),
            stack: self.stack.drop_last().update(
                self.depth() - 2,
                TileEl { round: round as usize, ..nos },
            ),
            ..self
        }
    }

    /// A copy of the current layer into the layer below it: a strip in the
    /// layer below that samples the current layer's slot.
    pub open spec fn clip(
        self,
        wide_x: u16,
        wide_y: u16,
        x: int,
        width: int,
        dense_width: int,
        col: int,
    ) -> TileRun {
        let tos = self.stack[self.depth() - 1];
        let nos = self.stack[self.depth() - 2];
        TileRun {
            sched: self.sched.with_draw(
                consume_round(nos, tos, self.depth()),
                self.depth() - 1,
                encoded_strip(
                    self.depth() - 1,
                    nos,
                    wide_x,
                    wide_y,
                    x,
                    width,
                    dense_width,
                    col,
                    tos.slot_ix as u32,
                ),
            ),
            ..self
        }
    }

    /// The run after one more command. Once stopped, a run stays as it is.
    pub open spec fn step(self, cmd: Cmd, wide_x: u16, wide_y: u16) -> TileRun {
        if self.error is Some {
            self
        } else {
            match cmd {
                Cmd::Fill(fill) => match fill_rgba(fill.paint) {
                    Err(error) => self.failed(error),
                    Ok(rgba) => self.fill(
                        wide_x,
                        wide_y,
                        fill.x as int,
                        fill.width as int,
                        0,
                        0,
                        rgba,
                    ),
                },
                Cmd::AlphaFill(fill) => match fill_rgba(fill.paint) {
                    Err(error) => self.failed(error),
                    Ok(rgba) => if fill.alpha_idx >= ALPHA_IDX_LIMIT {
                        self.failed(ScheduleError::AlphaOverflow)
                    } else {
                        self.fill(
                            wide_x,
                            wide_y,
                            fill.x as int,
                            fill.width as int,
                            fill.width as int,
                            fill.alpha_idx as int / TILE_HEIGHT as int,
                            rgba,
                        )
                    },
                },
                Cmd::PushBuf => self.push_buf(),
                Cmd::PopBuf => self.pop_buf(),
                Cmd::ClipFill(clip) => self.clip(
                    wide_x,
                    wide_y,
                    clip.x as int,
                    clip.width as int,
                    0,
                    0,
                ),
                Cmd::ClipStrip(clip) => if clip.alpha_idx >= ALPHA_IDX_LIMIT {
                    self.failed(ScheduleError::AlphaOverflow)
                } else {
                    self.clip(
                        wide_x,
                        wide_y,
                        clip.x as int,
                        clip.width as int,
                        clip.width as int,
                        clip.alpha_idx as int / TILE_HEIGHT as int,
                    )
                },
            }
        }
    }

    /// The run after the first `n` of the commands.
    pub open spec fn steps(self, cmds: Seq<Cmd>, n: nat, wide_x: u16, wide_y: u16) -> TileRun
        decreases n,
    {
        if n == 0 {
            self
        } else {
            self.steps(cmds, (n - 1) as nat, wide_x, wide_y).step(cmds[n - 1], wide_x, wide_y)
        }
    }
}

/// The run of a whole wide tile.
pub open spec fn tile_run(
    sched: SchedulerView,
    passes: Seq<PassView>,
    tile: WideTileView,
    wide_x: u16,
    wide_y: u16,
) -> TileRun {
    TileRun::begin(sched, passes, tile.bg, wide_x, wide_y).steps(
        tile.cmds,
        tile.cmds.len(),
        wide_x,
        wide_y,
    )
}

/// Scheduling of a scene in progress.
pub struct SceneRun {
    pub sched: SchedulerView,
    pub passes: Seq<PassView>,
    pub error: Option<ScheduleError>,
}

/// The pixel origin of wide tile `index` in a scene of `per_row` wide tiles a
/// row.
pub open spec fn wide_tile_x(index: int, per_row: int) -> u16 {
    ((index % per_row) * WIDE_TILE_WIDTH) as u16
}

pub open spec fn wide_tile_y(index: int, per_row: int) -> u16 {
    ((index / per_row) * TILE_HEIGHT) as u16
}

/// The run after the first `n` wide tiles, row by row from the top, each row
/// from the left. Once stopped, a run stays as it is.
pub open spec fn scene_run(
    sched: SchedulerView,
    passes: Seq<PassView>,
    tiles: Seq<WideTileView>,
    per_row: int,
    n: nat,
) -> SceneRun
    decreases n,
{
    if n == 0 {
        SceneRun { sched, passes, error: None }
    } else {
        let before = scene_run(sched, passes, tiles, per_row, (n - 1) as nat);
        if before.error is Some {
            before
        } else {
            let run = tile_run(
                before.sched,
                before.passes,
                tiles[n - 1],
                wide_tile_x(n - 1, per_row),
                wide_tile_y(n - 1, per_row),
            );
            SceneRun { sched: run.sched, passes: run.passes, error: run.error }
        }
    }
}

/// The run at the end of the scene: every round flushed and the round counter
/// back at 0, unless scheduling stopped.
pub open spec fn scene_end(
    sched: SchedulerView,
    passes: Seq<PassView>,
    tiles: Seq<WideTileView>,
    per_row: int,
) -> SceneRun {
    let run = scene_run(sched, passes, tiles, per_row, tiles.len());
    if run.error is Some {
        run
    } else {
        SceneRun {
            sched: SchedulerView { round: 0, ..run.sched.drained() },
            passes: run.passes + run.sched.drain_passes(),
            error: None,
        }
    }
}

impl SchedulerView {
    /// Queuing empty rounds keeps the state well formed and changes nothing
    /// but the number of rounds.
    pub proof fn lemma_with_round(self, rel: int)
        requires
            self.wf(),
            0 <= rel,
            self.round + rel + 1 <= usize::MAX,
        ensures
            self.with_round(rel).wf(),
            self.with_round(rel).rounds.len() == (if rel < self.rounds.len() {
                self.rounds.len() as int
            } else {
                rel + 1
            }),
            self.with_round(rel) == (SchedulerView { rounds: self.with_round(rel).rounds, ..self }),
            forall|q: int|
                0 <= q < self.rounds.len() ==> #[trigger] self.with_round(rel).rounds[q]
                    == self.rounds[q],
            forall|q: int|
                self.rounds.len() <= q <= rel ==> #[trigger] self.with_round(rel).rounds[q]
                    == RoundView::empty(),
    {
        let _ = RoundView::empty().wf(self.total_slots);
    }

    /// Scheduling a draw keeps the state well formed and queues at most the
    /// rounds up to the draw's.
    pub proof fn lemma_with_draw(self, round: int, clip_depth: int, strip: GpuStrip)
        requires
            self.wf(),
            1 <= clip_depth,
            0 <= round < usize::MAX,
            self.round < usize::MAX,
        ensures
            self.with_draw(round, clip_depth, strip).wf(),
            0 <= target_of(clip_depth) <= 2,
            self.with_draw(round, clip_depth, strip).end() == (if self.end() > round && self.end()
                > self.round {
                self.end()
            } else if round >= self.round {
                round + 1
            } else {
                self.round as int + 1
            }),
            self.with_draw(round, clip_depth, strip) == (SchedulerView {
                rounds: self.with_draw(round, clip_depth, strip).rounds,
                ..self
            }),
    {
        let rel = self.rel_round(round);
        self.lemma_with_round(rel);
        let queued = self.with_round(rel);
        let after = self.with_draw(round, clip_depth, strip);
        assert forall|q: int| 0 <= q < after.rounds.len() implies (#[trigger] after.rounds[q]).wf(
            after.total_slots,
        ) by {
            assert(queued.rounds[q].wf(queued.total_slots));
        }
    }

    /// Queuing a slot to be freed keeps the state well formed and queues at
    /// most the rounds up to the given one.
    pub proof fn lemma_with_free(self, round: int, texture: int, slot: usize)
        requires
            self.wf(),
            0 <= texture < 2,
            0 <= round < usize::MAX,
            self.round < usize::MAX,
            slot < self.total_slots,
        ensures
            self.with_free(round, texture, slot).wf(),
            self.with_free(round, texture, slot).end() == (if self.end() > round && self.end()
                > self.round {
                self.end()
            } else if round >= self.round {
                round + 1
            } else {
                self.round as int + 1
            }),
            self.with_free(round, texture, slot) == (SchedulerView {
                rounds: self.with_free(round, texture, slot).rounds,
                ..self
            }),
    {
        let rel = self.rel_round(round);
        self.lemma_with_round(rel);
        let queued = self.with_round(rel);
        let after = self.with_free(round, texture, slot);
        assert forall|q: int| 0 <= q < after.rounds.len() implies (#[trigger] after.rounds[q]).wf(
            after.total_slots,
        ) by {
            assert(queued.rounds[q].wf(queued.total_slots));
        }
    }

    /// Flushing a round keeps the state well formed and the end of the queue
    /// where it was.
    pub proof fn lemma_flushed(self)
        requires
            self.wf(),
            self.rounds.len() > 0,
        ensures
            self.flushed().wf(),
            self.flushed().end() == self.end(),
            self.flushed().total_slots == self.total_slots,
            self.flushed().rounds.len() == self.rounds.len() - 1,
    {
        let after = self.flushed();
        assert(self.rounds[0].wf(self.total_slots));
        assert forall|q: int| 0 <= q < after.rounds.len() implies (#[trigger] after.rounds[q]).wf(
            after.total_slots,
        ) by {
            assert(self.rounds[q + 1].wf(self.total_slots));
        }
    }

    /// Flushing until a slot is free keeps the state well formed and only moves
    /// the round counter within the queue.
    pub proof fn lemma_flushed_for(self, texture: int)
        requires
            self.wf(),
            0 <= texture < 2,
        ensures
            self.flushed_for(texture).wf(),
            self.flushed_for(texture).end() == self.end(),
            self.flushed_for(texture).total_slots == self.total_slots,
            self.flushed_for(texture).round >= self.round,
            self.flushed_for(texture).free[texture].len() == 0 ==> self.flushed_for(
                texture,
            ).rounds.len() == 0,
        decreases self.rounds.len(),
    {
        if !(self.free[texture].len() > 0 || self.rounds.len() == 0) {
            self.lemma_flushed();
            self.flushed().lemma_flushed_for(texture);
        }
    }

    /// Handing out a slot keeps the state well formed.
    pub proof fn lemma_allocated(self, texture: int)
        requires
            self.wf(),
            0 <= texture < 2,
            self.free[texture].len() > 0,
        ensures
            self.allocated(texture).wf(),
            self.free[texture].last() < self.total_slots,
            self.allocated(texture).end() == self.end(),
    {
        let after = self.allocated(texture);
        assert(self.free[texture][self.free[texture].len() - 1] < self.total_slots);
        assert forall|ix: int, k: int|
            0 <= ix < 2 && 0 <= k < after.free[ix].len() implies #[trigger] after.free[ix][k]
            < after.total_slots by {
            assert(self.free[ix][k] < self.total_slots);
        }
    }

    /// Flushing every round keeps the state well formed and leaves no round.
    pub proof fn lemma_drained(self)
        requires
            self.wf(),
        ensures
            self.drained().wf(),
            self.drained().rounds.len() == 0,
            self.drained().total_slots == self.total_slots,
        decreases self.rounds.len(),
    {
        if self.rounds.len() > 0 {
            self.lemma_flushed();
            self.flushed().lemma_drained();
        }
    }
}

impl TileRun {
    /// Whether the run can go on: the scheduler is well formed, the stack
    /// holds the final target, every layer on it holds a slot of its texture,
    /// and no layer waits for a round beyond the end of the queue.
    pub open spec fn inv(self) -> bool {
        &&& self.sched.wf()
        &&& self.stack.len() >= 1
        &&& forall|p: int|
            1 <= p < self.stack.len() ==> (#[trigger] self.stack[p]).slot_ix
                < self.sched.total_slots
        &&& forall|p: int|
            0 <= p < self.stack.len() ==> (#[trigger] self.stack[p]).round <= self.sched.end()
    }

    /// The start of a wide tile can go on, and has queued at most one round.
    pub proof fn lemma_begin(
        sched: SchedulerView,
        passes: Seq<PassView>,
        bg: u32,
        wide_x: u16,
        wide_y: u16,
    )
        requires
            sched.wf(),
            sched.end() + 1 <= usize::MAX,
        ensures
            TileRun::begin(sched, passes, bg, wide_x, wide_y).inv(),
            TileRun::begin(sched, passes, bg, wide_x, wide_y).sched.end() <= sched.end() + 1,
            TileRun::begin(sched, passes, bg, wide_x, wide_y).sched.total_slots
                == sched.total_slots,
    {
        let bottom = TileEl { slot_ix: FINAL_TARGET_SLOT, round: sched.round as usize };
        if visible(bg) {
            sched.lemma_with_draw(
                sched.round as int,
                1,
                encoded_strip(1, bottom, wide_x, wide_y, 0, WIDE_TILE_WIDTH as int, 0, 0, bg),
            );
        }
    }

    /// A command that finds its layer keeps a run going, changes the depth by
    /// its own change unless the run stops, and queues at most two rounds.
    pub proof fn lemma_step(self, cmd: Cmd, wide_x: u16, wide_y: u16)
        requires
            self.inv(),
            self.sched.end() + 2 <= usize::MAX,
            cmd.needs_layer() ==> self.depth() >= 2,
        ensures
            self.step(cmd, wide_x, wide_y).inv(),
            self.step(cmd, wide_x, wide_y).sched.end() <= self.sched.end() + 2,
            self.step(cmd, wide_x, wide_y).sched.total_slots == self.sched.total_slots,
            self.step(cmd, wide_x, wide_y).error is None ==> self.step(
                cmd,
                wide_x,
                wide_y,
            ).depth() == self.depth() + cmd.depth_change(),
            self.error is Some ==> self.step(cmd, wide_x, wide_y) == self,
    {
        let next = self.step(cmd, wide_x, wide_y);
        let depth = self.depth();
        if self.error is None {
            match cmd {
                Cmd::Fill(fill) => {
                    if let Ok(rgba) = fill_rgba(fill.paint) {
                        let el = self.stack.last();
                        self.sched.lemma_with_draw(
                            el.round as int,
                            depth,
                            encoded_strip(
                                depth,
                                el,
                                wide_x,
                                wide_y,
                                fill.x as int,
                                fill.width as int,
                                0,
                                0,
                                rgba,
                            ),
                        );
                    }
                },
                Cmd::AlphaFill(fill) => {
                    if let Ok(rgba) = fill_rgba(fill.paint) {
                        if fill.alpha_idx < ALPHA_IDX_LIMIT {
                            let el = self.stack.last();
                            self.sched.lemma_with_draw(
                                el.round as int,
                                depth,
                                encoded_strip(
                                    depth,
                                    el,
                                    wide_x,
                                    wide_y,
                                    fill.x as int,
                                    fill.width as int,
                                    fill.width as int,
                                    fill.alpha_idx as int / TILE_HEIGHT as int,
                                    rgba,
                                ),
                            );
                        }
                    }
                },
                Cmd::PushBuf => {
                    let texture = texture_of(depth);
                    self.sched.lemma_flushed_for(texture);
                    let ready = self.sched.flushed_for(texture);
                    if ready.free[texture].len() > 0 {
                        ready.lemma_allocated(texture);
                    }
                },
                Cmd::PopBuf => {
                    let tos = self.stack[depth - 1];
                    let nos = self.stack[depth - 2];
                    let round = consume_round(nos, tos, depth);
                    self.sched.lemma_with_free(round, 1 - depth % 2, tos.slot_ix);
                },
                Cmd::ClipFill(clip) => {
                    let tos = self.stack[depth - 1];
                    let nos = self.stack[depth - 2];
                    self.sched.lemma_with_draw(
                        consume_round(nos, tos, depth),
                        depth - 1,
                        encoded_strip(
                            depth - 1,
                            nos,
                            wide_x,
                            wide_y,
                            clip.x as int,
                            clip.width as int,
                            0,
                            0,
                            tos.slot_ix as u32,
                        ),
                    );
                },
                Cmd::ClipStrip(clip) => {
                    if clip.alpha_idx < ALPHA_IDX_LIMIT {
                        let tos = self.stack[depth - 1];
                        let nos = self.stack[depth - 2];
                        self.sched.lemma_with_draw(
                            consume_round(nos, tos, depth),
                            depth - 1,
                            encoded_strip(
                                depth - 1,
                                nos,
                                wide_x,
                                wide_y,
                                clip.x as int,
                                clip.width as int,
                                clip.width as int,
                                clip.alpha_idx as int / TILE_HEIGHT as int,
                                tos.slot_ix as u32,
                            ),
                        );
                    }
                },
            }
        }
    }
}

/// Largest pixel origin of a wide tile: a span within the tile still fits the
/// 16-bit coordinates of a strip instance.
pub const MAX_WIDE_TILE_X: u16 = 65280;

impl TileRun {
    /// A run that stopped stays as it is, whatever commands follow.
    pub proof fn lemma_steps_stuck(self, cmds: Seq<Cmd>, m: nat, n: nat, wide_x: u16, wide_y: u16)
        requires
            m <= n,
            self.steps(cmds, m, wide_x, wide_y).error is Some,
        ensures
            self.steps(cmds, n, wide_x, wide_y) == self.steps(cmds, m, wide_x, wide_y),
        decreases n,
    {
        if m < n {
            self.lemma_steps_stuck(cmds, m, (n - 1) as nat, wide_x, wide_y);
        }
    }
}

/// A scene's run that stopped stays as it is, whatever wide tiles follow.
pub proof fn lemma_scene_run_stuck(
    sched: SchedulerView,
    passes: Seq<PassView>,
    tiles: Seq<WideTileView>,
    per_row: int,
    m: nat,
    n: nat,
)
    requires
        m <= n,
        scene_run(sched, passes, tiles, per_row, m).error is Some,
    ensures
        scene_run(sched, passes, tiles, per_row, n) == scene_run(sched, passes, tiles, per_row, m),
    decreases n,
{
    if m < n {
        lemma_scene_run_stuck(sched, passes, tiles, per_row, m, (n - 1) as nat);
    }
}

} // verus!
