//! The slot scheduler.

use vstd::prelude::*;
use crate::coarse::{depth_after, lemma_depth_bounds, Cmd, Paint, WideTile};
use crate::render::{pass_views, GpuStrip, LoadOp, PassView, RenderPass};
use crate::scene::{lemma_round_budget_monotonic, round_budget, Scene};
use crate::schedule_model::{
    consume_round, encoded_strip, fill_rgba, lemma_scene_run_stuck, scene_end, scene_run,
    tile_run, visible, wide_tile_x, wide_tile_y, RoundView, ScheduleError, SchedulerView, TileEl, TileRun, ALPHA_IDX_LIMIT,
    FINAL_TARGET_SLOT, MAX_SLOTS, MAX_WIDE_TILE_X, MIN_VISIBLE_RGBA,
};
use crate::tile::{TILE_HEIGHT, WIDE_TILE_WIDTH};

verus! {

/// A round: the draws into the two clip textures and the final target, and the
/// slots to free after them.
#[derive(Debug)]
pub struct Round {
    /// Draws into clip texture 0, clip texture 1 and the final target.
    draws: [Vec<GpuStrip>; 3],
    /// Slots of clip texture 0 and 1 that are free after the round.
    free: [Vec<usize>; 2],
}

impl View for Round {
    type V = RoundView;

    closed spec fn view(&self) -> RoundView {
        RoundView {
            draws: seq![self.draws[0]@, self.draws[1]@, self.draws[2]@],
            free: seq![self.free[0]@, self.free[1]@],
        }
    }
}

impl Round {
    /// Creates a round without draws.
    pub fn new() -> (round: Round)
        ensures
            round@ == RoundView::empty(),
    {
        Round { draws: [Vec::new(), Vec::new(), Vec::new()], free: [Vec::new(), Vec::new()] }
    }
}

/// The views of the rounds of a queue.
pub open spec fn round_views(rounds: Seq<Round>) -> Seq<RoundView> {
    rounds.map_values(|round: Round| round@)
}

/// The layer stack of the wide tile being scheduled.
#[derive(Debug)]
pub struct TileState {
    pub stack: Vec<TileEl>,
}

impl TileState {
    /// Creates an empty stack.
    pub fn new() -> (state: TileState)
        ensures
            state.stack@ == Seq::<TileEl>::empty(),
    {
        TileState { stack: Vec::new() }
    }
}

/// Returns whether a packed premultiplied colour has non-zero alpha.
pub fn has_non_zero_alpha(rgba: u32) -> (non_zero: bool)
    ensures
        non_zero == visible(rgba),
{
    rgba >= MIN_VISIBLE_RGBA
}

/// Schedules the commands of wide tiles into rounds of render passes, with
/// two clip textures of `total_slots` slots each for the layers.
#[derive(Debug)]
pub struct Scheduler {
    /// Number of rounds flushed so far in this scene.
    round: usize,
    total_slots: usize,
    free: [Vec<usize>; 2],
    /// Slots handed out and not cleared yet.
    clear: [Vec<u32>; 2],
    /// Rounds are queued as draws need them and leave from the front.
    rounds_queue: Vec<Round>,
}

impl View for Scheduler {
    type V = SchedulerView;

    closed spec fn view(&self) -> SchedulerView {
        SchedulerView {
            round: self.round as nat,
            total_slots: self.total_slots as nat,
            free: seq![self.free[0]@, self.free[1]@],
            clear: seq![self.clear[0]@, self.clear[1]@],
            rounds: round_views(self.rounds_queue@),
        }
    }
}

impl Scheduler {
    /// Whether the scheduler's state is well formed.
    pub open spec fn wf(&self) -> bool {
        self@.wf()
    }

    /// Creates a scheduler for clip textures of `total_slots` slots.
    pub fn new(total_slots: usize) -> (scheduler: Scheduler)
        requires
            total_slots <= MAX_SLOTS,
        ensures
            scheduler.wf(),
            scheduler@ == SchedulerView::idle(total_slots as nat),
    {
        let mut free0: Vec<usize> = Vec::new();
        let mut free1: Vec<usize> = Vec::new();
        let mut i: usize = 0;
        while i < total_slots
            invariant
                0 <= i <= total_slots,
                free0@.len() == i,
                free1@.len() == i,
                forall|k: int| 0 <= k < i ==> free0@[k] == k && free1@[k] == k,
            decreases total_slots - i,
        {
            free0.push(i);
            free1.push(i);
            i += 1;
        }
        let mut rounds_queue: Vec<Round> = Vec::new();
        rounds_queue.push(Round::new());
        let scheduler = Scheduler {
            round: 0,
            total_slots,
            free: [free0, free1],
            clear: [Vec::new(), Vec::new()],
            rounds_queue,
        };
        proof {
            let idle = SchedulerView::idle(total_slots as nat);
            assert(scheduler@.free[0] =~= idle.free[0]);
            assert(scheduler@.free[1] =~= idle.free[1]);
            assert(scheduler@.free =~= idle.free);
            assert(scheduler@.clear =~= idle.clear);
            assert(scheduler@.rounds =~= idle.rounds);
            assert(RoundView::empty().wf(total_slots as nat));
        }
        scheduler
    }

    /// Returns the number of rounds flushed so far in this scene.
    pub fn round(&self) -> (round: usize)
        ensures
            round == self@.round,
    {
        self.round
    }

    /// Returns the number of slots of each clip texture.
    pub fn total_slots(&self) -> (total: usize)
        ensures
            total == self@.total_slots,
    {
        self.total_slots
    }

    /// Returns the number of free slots of clip texture `texture`.
    pub fn free_len(&self, texture: usize) -> (len: usize)
        requires
            texture < 2,
        ensures
            len == self@.free[texture as int].len(),
    {
        self.free[texture].len()
    }

    /// Returns the number of slots of clip texture `texture` that wait to be
    /// cleared.
    pub fn clear_len(&self, texture: usize) -> (len: usize)
        requires
            texture < 2,
        ensures
            len == self@.clear[texture as int].len(),
    {
        self.clear[texture].len()
    }

    /// Returns the number of rounds queued.
    pub fn queued_rounds(&self) -> (len: usize)
        ensures
            len == self@.rounds.len(),
    {
        self.rounds_queue.len()
    }

    /// Appends `strip` to the draws that a strip of the given round and clip
    /// depth belongs to: those of the final target at depth 1, below that of
    /// clip texture 1 at even and 0 at odd depth. Empty rounds are queued as
    /// needed.
    pub fn draw_mut(&mut self, el_round: usize, clip_depth: usize, strip: GpuStrip)
        requires
            old(self).wf(),
            1 <= clip_depth,
            el_round < usize::MAX,
            old(self)@.round < usize::MAX,
        ensures
            final(self).wf(),
            final(self)@ == old(self)@.with_draw(el_round as int, clip_depth as int, strip),
    {
        let ghost before = self@;
        let ix: usize = if clip_depth == 1 {
            2
        } else {
            1 - clip_depth % 2
        };
        let rel_round: usize = el_round.saturating_sub(self.round);
        proof {
            before.lemma_with_round(rel_round as int);
            before.lemma_with_draw(el_round as int, clip_depth as int, strip);
        }
        self.queue_through(rel_round);
        let ghost queued = self@;
        self.rounds_queue[rel_round].draws[ix].push(strip);
        proof {
            let at = queued.rounds[rel_round as int];
            let after = RoundView { draws: at.draws.update(ix as int, at.draws[ix as int].push(strip)), ..at };
            assert(self.rounds_queue@[rel_round as int]@.draws =~= after.draws);
            assert(self.rounds_queue@[rel_round as int]@.free =~= after.free);
            assert(self@.rounds =~= queued.rounds.update(rel_round as int, after));
            assert(self@.free =~= queued.free);
            assert(self@.clear =~= queued.clear);
        }
    }

    /// Queues `slot` of clip texture `texture` to be freed after the given
    /// round. Empty rounds are queued as needed.
    fn free_after(&mut self, round: usize, texture: usize, slot: usize)
        requires
            old(self).wf(),
            texture < 2,
            round < usize::MAX,
            old(self)@.round < usize::MAX,
            slot < old(self)@.total_slots,
        ensures
            final(self).wf(),
            final(self)@ == old(self)@.with_free(round as int, texture as int, slot),
    {
        let ghost before = self@;
        let rel_round: usize = round.saturating_sub(self.round);
        proof {
            before.lemma_with_round(rel_round as int);
            before.lemma_with_free(round as int, texture as int, slot);
        }
        self.queue_through(rel_round);
        let ghost queued = self@;
        self.rounds_queue[rel_round].free[texture].push(slot);
        proof {
            let at = queued.rounds[rel_round as int];
            let after = RoundView {
                free: at.free.update(texture as int, at.free[texture as int].push(slot)),
                ..at
            };
            assert(self.rounds_queue@[rel_round as int]@.draws =~= after.draws);
            assert(self.rounds_queue@[rel_round as int]@.free =~= after.free);
            assert(self@.rounds =~= queued.rounds.update(rel_round as int, after));
            assert(self@.free =~= queued.free);
            assert(self@.clear =~= queued.clear);
        }
    }

    /// Queues empty rounds as needed for position `rel` to exist.
    fn queue_through(&mut self, rel: usize)
        requires
            old(self).wf(),
            old(self)@.round + rel + 1 <= usize::MAX,
        ensures
            final(self)@ == old(self)@.with_round(rel as int),
            final(self).wf(),
            rel < final(self).rounds_queue.len(),
    {
        let ghost before = self@;
        proof {
            before.lemma_with_round(rel as int);
        }
        while self.rounds_queue.len() <= rel
            invariant
                self.round == before.round,
                self.total_slots == before.total_slots,
                self@.free == before.free,
                self@.clear == before.clear,
                before.rounds.len() <= self.rounds_queue.len() <= (if rel < before.rounds.len() {
                    before.rounds.len() as int
                } else {
                    rel + 1
                }),
                forall|q: int| 0 <= q < before.rounds.len() ==> self@.rounds[q] == before.rounds[q],
                forall|q: int|
                    before.rounds.len() <= q < self.rounds_queue.len() ==> self@.rounds[q]
                        == RoundView::empty(),
            decreases rel + 1 - self.rounds_queue.len(),
        {
            let ghost queue = self@.rounds;
            let round = Round::new();
            self.rounds_queue.push(round);
            assert(self@.rounds =~= queue.push(RoundView::empty()));
            assert forall|q: int| before.rounds.len() <= q < self.rounds_queue.len() implies self@.rounds[q]
                == RoundView::empty() by {
                if q < queue.len() {
                    assert(self@.rounds[q] == queue[q]);
                }
            }
        }
        assert(self@.rounds =~= before.with_round(rel as int).rounds);
    }

    /// Issues the render passes that draw `strips` into `target`, and forgets
    /// the slots that they clear.
    fn flush_target(&mut self, strips: Vec<GpuStrip>, target: usize, out: &mut Vec<RenderPass>)
        requires
            target < 3,
        ensures
            final(self)@ == (SchedulerView {
                clear: if target < 2 && strips@.len() > 0 {
                    old(self)@.clear.update(target as int, Seq::empty())
                } else {
                    old(self)@.clear
                },
                ..old(self)@
            }),
            pass_views(final(out)@) == pass_views(old(out)@) + old(self)@.passes_of(
                strips@,
                target as int,
            ),
    {
        let ghost before = self@;
        let ghost issued = pass_views(out@);
        if strips.len() == 0 {
            assert(issued + before.passes_of(strips@, target as int) =~= issued);
            assert(self@.clear =~= before.clear);
            return ;
        }
        let load = if target == 2 {
            LoadOp::Load
        } else {
            let free_len: usize = self.free[target].len();
            if free_len <= self.total_slots && self.clear[target].len() == self.total_slots
                - free_len {
                self.clear[target].clear();
                LoadOp::Clear
            } else {
                let mut slots: Vec<u32> = Vec::new();
                core::mem::swap(&mut slots, &mut self.clear[target]);
                let ghost queue = out@;
                let pass = RenderPass::ClearSlots { texture_ix: target, slots };
                out.push(pass);
                assert(pass_views(out@) =~= pass_views(queue).push(pass@));
                LoadOp::Load
            }
        };
        let ghost queue = out@;
        let pass = RenderPass::DrawStrips { target_ix: target, strips, load };
        out.push(pass);
        assert(pass_views(out@) =~= pass_views(queue).push(pass@));
        assert(pass_views(out@) =~= issued + before.passes_of(strips@, target as int));
        assert(self@.free =~= before.free);
        if target < 2 {
            assert(self@.clear =~= before.clear.update(target as int, Seq::empty()));
        } else {
            assert(self@.clear =~= before.clear);
        }
    }

    /// Flushes the next round: issues its render passes, returns the slots
    /// that it frees, and counts it.
    pub fn flush(&mut self, out: &mut Vec<RenderPass>)
        requires
            old(self).wf(),
            old(self)@.rounds.len() > 0,
        ensures
            final(self).wf(),
            final(self)@ == old(self)@.flushed(),
            pass_views(final(out)@) == pass_views(old(out)@) + old(self)@.flush_passes(),
    {
        let ghost before = self@;
        let ghost issued = pass_views(out@);
        proof {
            before.lemma_flushed();
        }
        let mut round = self.rounds_queue.remove(0);
        assert(self@.rounds =~= before.rounds.drop_first());
        assert(round@ == before.rounds[0]);
        let mut draws0: Vec<GpuStrip> = Vec::new();
        let mut draws1: Vec<GpuStrip> = Vec::new();
        let mut draws2: Vec<GpuStrip> = Vec::new();
        core::mem::swap(&mut draws0, &mut round.draws[0]);
        core::mem::swap(&mut draws1, &mut round.draws[1]);
        core::mem::swap(&mut draws2, &mut round.draws[2]);
        let ghost freed = round@.free;
        assert(freed =~= before.rounds[0].free);
        self.flush_target(draws0, 0, out);
        self.flush_target(draws1, 1, out);
        self.flush_target(draws2, 2, out);
        self.free[0].append(&mut round.free[0]);
        self.free[1].append(&mut round.free[1]);
        self.round = self.round + 1;
        proof {
            let after = before.flushed();
            assert(self@.free[0] =~= after.free[0]);
            assert(self@.free[1] =~= after.free[1]);
            assert(self@.free =~= after.free);
            assert(self@.clear[0] =~= after.clear[0]);
            assert(self@.clear[1] =~= after.clear[1]);
            assert(self@.clear =~= after.clear);
            assert(self@.rounds =~= after.rounds);
            assert(pass_views(out@) =~= issued + before.flush_passes());
        }
    }

    /// Hands out a slot of clip texture `texture`, flushing rounds until one is
    /// free. Returns `None` if none is free and no round is left to flush.
    fn allocate(&mut self, texture: usize, out: &mut Vec<RenderPass>) -> (slot: Option<usize>)
        requires
            old(self).wf(),
            texture < 2,
        ensures
            final(self).wf(),
            pass_views(final(out)@) == pass_views(old(out)@) + old(self)@.passes_for(
                texture as int,
            ),
            ({
                let ready = old(self)@.flushed_for(texture as int);
                match slot {
                    Some(slot) => {
                        &&& ready.free[texture as int].len() > 0
                        &&& slot == ready.free[texture as int].last()
                        &&& slot < ready.total_slots
                        &&& final(self)@ == ready.allocated(texture as int)
                    },
                    None => ready.free[texture as int].len() == 0 && final(self)@ == ready,
                }
            }),
    {
        let ghost before = self@;
        let ghost issued = pass_views(out@);
        assert(issued + Seq::<PassView>::empty() =~= issued);
        while self.free[texture].len() == 0
            invariant
                self.wf(),
                texture < 2,
                before == old(self)@,
                issued == pass_views(old(out)@),
                self@.flushed_for(texture as int) == before.flushed_for(texture as int),
                pass_views(out@) + self@.passes_for(texture as int) == issued + before.passes_for(
                    texture as int,
                ),
            decreases self@.rounds.len(),
        {
            assert(self@.free[texture as int].len() == 0);
            if self.rounds_queue.len() == 0 {
                assert(self@.rounds.len() == 0);
                assert(self@.flushed_for(texture as int) == self@);
                assert(self@.passes_for(texture as int) =~= Seq::<PassView>::empty());
                assert(pass_views(out@) + Seq::<PassView>::empty() =~= pass_views(out@));
                return None;
            }
            let ghost here = self@;
            let ghost here_passes = pass_views(out@);
            proof {
                here.lemma_flushed();
            }
            self.flush(out);
            assert(pass_views(out@) + self@.passes_for(texture as int) =~= here_passes
                + here.passes_for(texture as int));
        }
        let ghost ready = self@;
        proof {
            assert(ready.free[texture as int].len() > 0);
            assert(ready.flushed_for(texture as int) == ready);
            assert(ready.passes_for(texture as int) =~= Seq::<PassView>::empty());
            ready.lemma_allocated(texture as int);
            assert(pass_views(out@) + Seq::<PassView>::empty() =~= pass_views(out@));
        }
        let slot: usize = self.free[texture].pop().unwrap();
        self.clear[texture].push(slot as u32);
        proof {
            let after = ready.allocated(texture as int);
            assert(self@.free[texture as int] =~= after.free[texture as int]);
            assert(self@.free =~= after.free);
            assert(self@.clear[texture as int] =~= after.clear[texture as int]);
            assert(self@.clear =~= after.clear);
            assert(self@.rounds =~= after.rounds);
        }
        Some(slot)
    }

    /// Schedules the commands of one wide tile at pixel origin
    /// (`wide_tile_x`, `wide_tile_y`), appending to `out` the render passes of
    /// the rounds that have to be flushed on the way.
    ///
    /// Scheduling stops at the first command that cannot be scheduled.
    pub fn do_tile(
        &mut self,
        out: &mut Vec<RenderPass>,
        wide_tile_x: u16,
        wide_tile_y: u16,
        tile: &WideTile,
        state: &mut TileState,
    ) -> (result: Result<(), ScheduleError>)
        requires
            old(self).wf(),
            tile.wf(),
            wide_tile_x <= MAX_WIDE_TILE_X,
            old(self)@.end() + 2 * tile@.cmds.len() + 1 <= usize::MAX,
        ensures
            final(self).wf(),
            ({
                let run = tile_run(
                    old(self)@,
                    pass_views(old(out)@),
                    tile@,
                    wide_tile_x,
                    wide_tile_y,
                );
                &&& final(self)@ == run.sched
                &&& pass_views(final(out)@) == run.passes
                &&& final(state).stack@ == run.stack
                &&& run.error is None ==> result is Ok
                &&& run.error matches Some(error) ==> result == Err::<(), ScheduleError>(error)
                &&& run.inv()
                &&& run.sched.end() <= old(self)@.end() + 2 * tile@.cmds.len() + 1
            }),
    {
        let ghost start = TileRun::begin(
            self@,
            pass_views(out@),
            tile@.bg,
            wide_tile_x,
            wide_tile_y,
        );
        let ghost end_before = self@.end();
        proof {
            tile.lemma_wf();
            TileRun::lemma_begin(self@, pass_views(out@), tile@.bg, wide_tile_x, wide_tile_y);
        }
        state.stack.clear();
        state.stack.push(TileEl { slot_ix: FINAL_TARGET_SLOT, round: self.round });
        let bg: u32 = tile.bg();
        if has_non_zero_alpha(bg) {
            self.draw_mut(
                self.round,
                1,
                GpuStrip {
                    x: wide_tile_x,
                    y: wide_tile_y,
                    width: WIDE_TILE_WIDTH,
                    dense_width: 0,
                    col: 0,
                    rgba: bg,
                },
            );
        }
        assert(state.stack@ =~= start.stack);
        let cmds = tile.cmds();
        let mut i: usize = 0;
        assert(cmds@.take(0) =~= Seq::<Cmd>::empty());
        while i < cmds.len()
            invariant
                0 <= i <= cmds.len(),
                cmds@ == tile@.cmds,
                tile@.wf(),
                wide_tile_x <= MAX_WIDE_TILE_X,
                self.wf(),
                start == TileRun::begin(
                    old(self)@,
                    pass_views(old(out)@),
                    tile@.bg,
                    wide_tile_x,
                    wide_tile_y,
                ),
                end_before == old(self)@.end(),
                start.steps(cmds@, i as nat, wide_tile_x, wide_tile_y) == (TileRun {
                    sched: self@,
                    stack: state.stack@,
                    passes: pass_views(out@),
                    error: None,
                }),
                start.steps(cmds@, i as nat, wide_tile_x, wide_tile_y).inv(),
                self@.end() <= end_before + 1 + 2 * i,
                end_before + 2 * cmds.len() + 1 <= usize::MAX,
                state.stack@.len() == depth_after(cmds@.take(i as int)),
            decreases cmds.len() - i,
        {
            let cmd: Cmd = cmds[i];
            let clip_depth: usize = state.stack.len();
            let ghost run = start.steps(cmds@, i as nat, wide_tile_x, wide_tile_y);
            let ghost next = run.step(cmd, wide_tile_x, wide_tile_y);
            proof {
                lemma_depth_bounds(cmds@, i as int);
                assert(cmds@[i as int].needs_layer() ==> depth_after(cmds@.take(i as int)) >= 2);
                assert(cmds@[i as int].fits());
                run.lemma_step(cmd, wide_tile_x, wide_tile_y);
                assert(start.steps(cmds@, (i + 1) as nat, wide_tile_x, wide_tile_y) == next);
                if next.error is Some {
                    start.lemma_steps_stuck(
                        cmds@,
                        (i + 1) as nat,
                        cmds@.len(),
                        wide_tile_x,
                        wide_tile_y,
                    );
                }
            }
            match cmd {
                Cmd::Fill(fill) => {
                    let rgba: u32 = match Self::solid_rgba(fill.paint) {
                        Ok(rgba) => rgba,
                        Err(error) => {
                            return Err(error);
                        },
                    };
                    let el: TileEl = state.stack[clip_depth - 1];
                    let strip = Self::encode(
                        clip_depth,
                        el,
                        wide_tile_x,
                        wide_tile_y,
                        fill.x,
                        fill.width,
                        0,
                        0,
                        rgba,
                        Ghost(self@.total_slots),
                    );
                    self.draw_mut(el.round, clip_depth, strip);
                },
                Cmd::AlphaFill(fill) => {
                    let rgba: u32 = match Self::solid_rgba(fill.paint) {
                        Ok(rgba) => rgba,
                        Err(error) => {
                            return Err(error);
                        },
                    };
                    if fill.alpha_idx >= ALPHA_IDX_LIMIT {
                        return Err(ScheduleError::AlphaOverflow);
                    }
                    let el: TileEl = state.stack[clip_depth - 1];
                    let strip = Self::encode(
                        clip_depth,
                        el,
                        wide_tile_x,
                        wide_tile_y,
                        fill.x,
                        fill.width,
                        fill.width,
                        (fill.alpha_idx / TILE_HEIGHT as usize) as u32,
                        rgba,
                        Ghost(self@.total_slots),
                    );
                    self.draw_mut(el.round, clip_depth, strip);
                },
                Cmd::PushBuf => {
                    let texture: usize = clip_depth % 2;
                    match self.allocate(texture, out) {
                        None => {
                            return Err(ScheduleError::SlotExhausted);
                        },
                        Some(slot_ix) => {
                            state.stack.push(TileEl { slot_ix, round: self.round });
                        },
                    }
                },
                Cmd::PopBuf => {
                    let tos: TileEl = state.stack[clip_depth - 1];
                    let nos: TileEl = state.stack[clip_depth - 2];
                    let round: usize = Self::round_to_consume(nos, tos, clip_depth);
                    state.stack.pop();
                    state.stack[clip_depth - 2] = TileEl { slot_ix: nos.slot_ix, round };
                    self.free_after(round, 1 - clip_depth % 2, tos.slot_ix);
                    assert(state.stack@ =~= next.stack);
                },
                Cmd::ClipFill(clip) => {
                    let tos: TileEl = state.stack[clip_depth - 1];
                    let nos: TileEl = state.stack[clip_depth - 2];
                    let round: usize = Self::round_to_consume(nos, tos, clip_depth);
                    let strip = Self::encode(
                        clip_depth - 1,
                        nos,
                        wide_tile_x,
                        wide_tile_y,
                        clip.x as u16,
                        clip.width as u16,
                        0,
                        0,
                        tos.slot_ix as u32,
                        Ghost(self@.total_slots),
                    );
                    self.draw_mut(round, clip_depth - 1, strip);
                },
                Cmd::ClipStrip(clip) => {
                    if clip.alpha_idx >= ALPHA_IDX_LIMIT {
                        return Err(ScheduleError::AlphaOverflow);
                    }
                    let tos: TileEl = state.stack[clip_depth - 1];
                    let nos: TileEl = state.stack[clip_depth - 2];
                    let round: usize = Self::round_to_consume(nos, tos, clip_depth);
                    let strip = Self::encode(
                        clip_depth - 1,
                        nos,
                        wide_tile_x,
                        wide_tile_y,
                        clip.x as u16,
                        clip.width as u16,
                        clip.width as u16,
                        (clip.alpha_idx / TILE_HEIGHT as usize) as u32,
                        tos.slot_ix as u32,
                        Ghost(self@.total_slots),
                    );
                    self.draw_mut(round, clip_depth - 1, strip);
                },
            }
            i += 1;
        }
        assert(cmds@.take(cmds@.len() as int) =~= cmds@);
        Ok(())
    }

    /// The colour of a fill, or why the fill is refused: a paint that is no
    /// solid colour, or a colour with zero alpha.
    fn solid_rgba(paint: Paint) -> (rgba: Result<u32, ScheduleError>)
        ensures
            rgba == fill_rgba(paint),
    {
        match paint {
            Paint::Solid(rgba) => {
                if has_non_zero_alpha(rgba) {
                    Ok(rgba)
                } else {
                    Err(ScheduleError::ColorZeroAlphaInFill)
                }
            },
            Paint::Indexed(_) => Err(ScheduleError::UnsupportedPaint),
        }
    }

    /// The round in which the layer `tos` can be consumed into the layer `nos`
    /// below it.
    fn round_to_consume(nos: TileEl, tos: TileEl, clip_depth: usize) -> (round: usize)
        requires
            tos.round < usize::MAX,
        ensures
            round == consume_round(nos, tos, clip_depth as int),
    {
        let next_round: bool = clip_depth % 2 == 0 && clip_depth > 2;
        let ready: usize = if next_round {
            tos.round + 1
        } else {
            tos.round
        };
        if nos.round >= ready {
            nos.round
        } else {
            ready
        }
    }

    /// Encodes a span drawn into the layer `el` at the given clip depth.
    fn encode(
        clip_depth: usize,
        el: TileEl,
        wide_tile_x: u16,
        wide_tile_y: u16,
        x: u16,
        width: u16,
        dense_width: u16,
        col: u32,
        rgba: u32,
        Ghost(total_slots): Ghost<nat>,
    ) -> (strip: GpuStrip)
        requires
            wide_tile_x <= MAX_WIDE_TILE_X,
            x < WIDE_TILE_WIDTH,
            total_slots <= MAX_SLOTS,
            clip_depth != 1 ==> el.slot_ix < total_slots,
        ensures
            strip == encoded_strip(
                clip_depth as int,
                el,
                wide_tile_x,
                wide_tile_y,
                x as int,
                width as int,
                dense_width as int,
                col as int,
                rgba,
            ),
    {
        if clip_depth == 1 {
            GpuStrip { x: wide_tile_x + x, y: wide_tile_y, width, dense_width, col, rgba }
        } else {
            GpuStrip { x, y: el.slot_ix as u16 * TILE_HEIGHT, width, dense_width, col, rgba }
        }
    }

    /// Flushes every round queued.
    fn drain(&mut self, out: &mut Vec<RenderPass>)
        requires
            old(self).wf(),
        ensures
            final(self).wf(),
            final(self)@ == old(self)@.drained(),
            pass_views(final(out)@) == pass_views(old(out)@) + old(self)@.drain_passes(),
    {
        let ghost before = self@;
        let ghost issued = pass_views(out@);
        assert(issued + Seq::<PassView>::empty() =~= issued);
        while self.rounds_queue.len() > 0
            invariant
                self.wf(),
                before == old(self)@,
                issued == pass_views(old(out)@),
                self@.drained() == before.drained(),
                pass_views(out@) + self@.drain_passes() == issued + before.drain_passes(),
            decreases self@.rounds.len(),
        {
            let ghost here = self@;
            let ghost here_passes = pass_views(out@);
            self.flush(out);
            assert(pass_views(out@) + self@.drain_passes() =~= here_passes + here.drain_passes());
        }
        assert(self@.rounds.len() == 0);
        assert(pass_views(out@) + Seq::<PassView>::empty() =~= pass_views(out@));
    }

    /// Schedules a scene: its wide tiles row by row from the top, each row from
    /// the left, then every round still queued. The render passes are appended
    /// to `out` in the order in which they have to be carried out.
    ///
    /// Scheduling stops at the first command that cannot be scheduled; the
    /// scheduler is then left as it stands, with its rounds queued.
    pub fn do_scene(&mut self, out: &mut Vec<RenderPass>, scene: &Scene) -> (result: Result<
        (),
        ScheduleError,
    >)
        requires
            old(self).wf(),
            scene.wf(),
            old(self)@.end() <= 1,
        ensures
            final(self).wf(),
            ({
                let end = scene_end(
                    old(self)@,
                    pass_views(old(out)@),
                    scene@.tiles,
                    scene@.per_row(),
                );
                &&& final(self)@ == end.sched
                &&& pass_views(final(out)@) == end.passes
                &&& end.error is None ==> result is Ok
                &&& end.error matches Some(error) ==> result == Err::<(), ScheduleError>(error)
            }),
            result is Ok ==> final(self)@.round == 0 && final(self)@.rounds.len() == 0,
            result is Ok && scene@.balanced() && old(self)@.slots_held(0) == old(
                self,
            )@.total_slots && old(self)@.slots_held(1) == old(self)@.total_slots ==> {
                &&& final(self)@.free[0].len() == final(self)@.total_slots
                &&& final(self)@.free[1].len() == final(self)@.total_slots
                &&& (scene@.layers_drawn() && old(self)@.clear[0].len() == 0 && old(
                    self,
                )@.clear[1].len() == 0 ==> final(self)@.clear[0].len() == 0
                    && final(self)@.clear[1].len() == 0)
            },
    {
        let ghost before = self@;
        let ghost issued = pass_views(out@);
        proof {
            scene.lemma_wf();
            if scene@.balanced() && before.slots_held(0) == before.total_slots && before.slots_held(
                1,
            ) == before.total_slots {
                crate::schedule_laws::lemma_scene_end_conserves_slots(before, issued, scene@);
                if scene@.layers_drawn() && before.clear[0].len() == 0 && before.clear[1].len()
                    == 0 {
                    crate::schedule_clears::lemma_scene_end_clears(before, issued, scene@);
                }
            }
        }
        let mut state = TileState::new();
        let per_row: usize = scene.wide_tiles_per_row();
        let tiles = scene.wide_tiles();
        proof {
            scene.lemma_wf();
        }
        let count: usize = tiles.len();
        let mut index: usize = 0;
        let mut col: usize = 0;
        let mut row: usize = 0;
        while index < count
            invariant
                0 <= index <= count,
                count == tiles.len(),
                crate::scene::tile_views(tiles@) == scene@.tiles,
                forall|i: int| 0 <= i < tiles.len() ==> (#[trigger] tiles[i]).wf(),
                scene@.wf(),
                per_row == scene@.per_row(),
                per_row <= 256,
                before == old(self)@,
                issued == pass_views(old(out)@),
                before.end() <= 1,
                index == row * per_row + col,
                index < count ==> col < per_row,
                self.wf(),
                scene_run(before, issued, scene@.tiles, per_row as int, index as nat) == (
                crate::schedule_model::SceneRun {
                    sched: self@,
                    passes: pass_views(out@),
                    error: None,
                }),
                self@.end() <= before.end() + round_budget(scene@.tiles, index as nat),
            decreases count - index,
        {
            let ghost views = scene@.tiles;
            proof {
                lemma_round_budget_monotonic(views, (index + 1) as nat, views.len());
                lemma_round_budget_monotonic(views, index as nat, index as nat);
                vstd::arithmetic::div_mod::lemma_fundamental_div_mod_converse(
                    index as int,
                    per_row as int,
                    row as int,
                    col as int,
                );
                assert(row < scene@.per_column()) by (nonlinear_arith)
                    requires
                        row * per_row + col < per_row * scene@.per_column(),
                        0 <= col < per_row,
                ;
                assert(tiles[index as int]@ == views[index as int]);
            }
            assert(col < 256);
            assert(scene@.per_column() <= 16384);
            assert(row < 16384);
            let wide_x: u16 = col as u16 * WIDE_TILE_WIDTH;
            let wide_y: u16 = row as u16 * TILE_HEIGHT;
            let outcome = self.do_tile(out, wide_x, wide_y, &tiles[index], &mut state);
            match outcome {
                Err(error) => {
                    proof {
                        lemma_scene_run_stuck(
                            before,
                            issued,
                            views,
                            per_row as int,
                            (index + 1) as nat,
                            views.len(),
                        );
                    }
                    return Err(error);
                },
                Ok(_) => {},
            }
            index += 1;
            col += 1;
            if col == per_row {
                col = 0;
                row += 1;
                assert(index == row * per_row + col) by (nonlinear_arith)
                    requires
                        index == (row - 1) * per_row + per_row,
                        col == 0,
                ;
            } else {
                assert(index == row * per_row + col);
            }
        }
        self.drain(out);
        self.round = 0;
        proof {
            let run = scene_run(before, issued, scene@.tiles, per_row as int, count as nat);
            run.sched.lemma_drained();
            let end = scene_end(before, issued, scene@.tiles, per_row as int);
            assert(self@.free =~= end.sched.free);
            assert(self@.clear =~= end.sched.clear);
            assert(self@.rounds =~= end.sched.rounds);
        }
        Ok(())
    }
}

} // verus!
