//! What holds of every schedule: no slot is left waiting to be cleared.
//!
//! A slot waits to be cleared from the moment it is handed out until a round
//! that draws into its texture is flushed. So none is left at the end of a
//! scene if every layer is drawn into before it is closed.

use vstd::prelude::*;
use crate::coarse::{depth_after, lemma_depth_bounds, Cmd, WideTileView};
use crate::render::{GpuStrip, PassView};
use crate::scene::{lemma_round_budget_monotonic, SceneView};
use crate::schedule_laws::{lemma_draw_lands, lemma_scene_run};
use crate::schedule_model::{
    consume_round, scene_end, scene_run, target_of, texture_of, tile_run, visible, wide_tile_x,
    wide_tile_y, SchedulerView, TileRun,
};

verus! {

/// For each layer of the stack after a command, whether anything was drawn
/// into it. The first element stands for the final target.
pub open spec fn step_drawn(drawn: Seq<bool>, cmd: Cmd) -> Seq<bool> {
    match cmd {
        Cmd::Fill(_) => drawn.update(drawn.len() - 1, true),
        Cmd::AlphaFill(_) => drawn.update(drawn.len() - 1, true),
        Cmd::PushBuf => drawn.push(false),
        Cmd::PopBuf => drawn.drop_last(),
        Cmd::ClipFill(_) => drawn.update(drawn.len() - 2, true),
        Cmd::ClipStrip(_) => drawn.update(drawn.len() - 2, true),
    }
}

/// For each layer of the stack after the first `n` commands, whether anything
/// was drawn into it.
pub open spec fn drawn_after(cmds: Seq<Cmd>, n: nat) -> Seq<bool>
    decreases n,
{
    if n == 0 {
        seq![true]
    } else {
        step_drawn(drawn_after(cmds, (n - 1) as nat), cmds[n - 1])
    }
}

/// Whether every layer is drawn into before it is closed.
pub open spec fn layers_drawn(cmds: Seq<Cmd>) -> bool {
    forall|i: int|
        0 <= i < cmds.len() && (#[trigger] cmds[i]) is PopBuf ==> drawn_after(cmds, i as nat).last()
}

impl SceneView {
    /// Whether every layer of every wide tile is drawn into before it is
    /// closed.
    pub open spec fn layers_drawn(self) -> bool {
        forall|i: int| 0 <= i < self.tiles.len() ==> layers_drawn((#[trigger] self.tiles[i]).cmds)
    }
}

impl SchedulerView {
    /// Whether a round queued draws into clip texture `texture`.
    pub open spec fn pending(self, texture: int) -> bool {
        exists|q: int| 0 <= q < self.rounds.len() && (#[trigger] self.rounds[q]).draws[texture].len() > 0
    }
}

/// Whether a layer whose slot lies in clip texture `texture` is open and
/// nothing was drawn into it.
pub open spec fn undrawn_open(drawn: Seq<bool>, texture: int) -> bool {
    exists|p: int| 1 <= p < drawn.len() && p % 2 == texture && !#[trigger] drawn[p]
}

/// Whether every slot that waits to be cleared will be: a round queued draws
/// into its texture, or a layer of its texture is open that nothing was drawn
/// into yet.
pub open spec fn clears_pending(sched: SchedulerView, drawn: Seq<bool>) -> bool {
    forall|texture: int|
        0 <= texture < 2 && (#[trigger] sched.clear[texture]).len() > 0 ==> sched.pending(texture)
            || undrawn_open(drawn, texture)
}

proof fn lemma_with_round_pending(sched: SchedulerView, rel: int, texture: int)
    requires
        sched.wf(),
        0 <= rel,
        sched.round + rel + 1 <= usize::MAX,
        0 <= texture < 2,
    ensures
        sched.with_round(rel).pending(texture) == sched.pending(texture),
{
    sched.lemma_with_round(rel);
    let queued = sched.with_round(rel);
    if sched.pending(texture) {
        let q = choose|q: int|
            0 <= q < sched.rounds.len() && (#[trigger] sched.rounds[q]).draws[texture].len() > 0;
        assert(queued.rounds[q] == sched.rounds[q]);
    }
    if queued.pending(texture) {
        let q = choose|q: int|
            0 <= q < queued.rounds.len() && (#[trigger] queued.rounds[q]).draws[texture].len()
                > 0;
        if q >= sched.rounds.len() {
            assert(queued.rounds[q] == crate::schedule_model::RoundView::empty());
        } else {
            assert(queued.rounds[q] == sched.rounds[q]);
        }
    }
}

proof fn lemma_with_draw_pending(
    sched: SchedulerView,
    round: int,
    clip_depth: int,
    strip: GpuStrip,
    texture: int,
)
    requires
        sched.wf(),
        1 <= clip_depth,
        0 <= round < usize::MAX,
        sched.round < usize::MAX,
        0 <= texture < 2,
    ensures
        sched.pending(texture) ==> sched.with_draw(round, clip_depth, strip).pending(texture),
        target_of(clip_depth) == texture ==> sched.with_draw(round, clip_depth, strip).pending(
            texture,
        ),
        sched.with_draw(round, clip_depth, strip).clear == sched.clear,
{
    let rel = sched.rel_round(round);
    sched.lemma_with_round(rel);
    lemma_with_round_pending(sched, rel, texture);
    lemma_draw_lands(sched, round, clip_depth, strip);
    let queued = sched.with_round(rel);
    let after = sched.with_draw(round, clip_depth, strip);
    if sched.pending(texture) {
        let q = choose|q: int|
            0 <= q < queued.rounds.len() && (#[trigger] queued.rounds[q]).draws[texture].len()
                > 0;
        if q == rel && texture == target_of(clip_depth) {
            assert(after.rounds[q].draws[texture].len() > 0);
        } else {
            assert(after.rounds[q].draws[texture] == queued.rounds[q].draws[texture]);
        }
    }
    if target_of(clip_depth) == texture {
        assert(after.rounds[rel].draws[texture].len() > 0);
    }
}

proof fn lemma_with_free_pending(
    sched: SchedulerView,
    round: int,
    freed: int,
    slot: usize,
    texture: int,
)
    requires
        sched.wf(),
        0 <= freed < 2,
        0 <= round < usize::MAX,
        sched.round < usize::MAX,
        0 <= texture < 2,
    ensures
        sched.pending(texture) ==> sched.with_free(round, freed, slot).pending(texture),
        sched.with_free(round, freed, slot).clear == sched.clear,
{
    let rel = sched.rel_round(round);
    sched.lemma_with_round(rel);
    lemma_with_round_pending(sched, rel, texture);
    let queued = sched.with_round(rel);
    let after = sched.with_free(round, freed, slot);
    if sched.pending(texture) {
        let q = choose|q: int|
            0 <= q < queued.rounds.len() && (#[trigger] queued.rounds[q]).draws[texture].len()
                > 0;
        assert(after.rounds[q].draws == queued.rounds[q].draws);
    }
}

proof fn lemma_flushed_clears(sched: SchedulerView, drawn: Seq<bool>)
    requires
        sched.wf(),
        sched.rounds.len() > 0,
        clears_pending(sched, drawn),
    ensures
        clears_pending(sched.flushed(), drawn),
{
    let after = sched.flushed();
    assert forall|texture: int|
        0 <= texture < 2 && (#[trigger] after.clear[texture]).len() > 0 implies after.pending(
        texture,
    ) || undrawn_open(drawn, texture) by {
        assert(sched.rounds[0].draws[texture].len() == 0);
        assert(after.clear[texture] == sched.clear[texture]);
        assert(sched.clear[texture].len() > 0);
        if sched.pending(texture) {
            let q = choose|q: int|
                0 <= q < sched.rounds.len() && (#[trigger] sched.rounds[q]).draws[texture].len()
                    > 0;
            assert(q != 0);
            assert(after.rounds[q - 1] == sched.rounds[q]);
        }
    }
}

proof fn lemma_flushed_for_clears(sched: SchedulerView, flushed_for: int, drawn: Seq<bool>)
    requires
        sched.wf(),
        0 <= flushed_for < 2,
        clears_pending(sched, drawn),
    ensures
        clears_pending(sched.flushed_for(flushed_for), drawn),
    decreases sched.rounds.len(),
{
    if !(sched.free[flushed_for].len() > 0 || sched.rounds.len() == 0) {
        sched.lemma_flushed();
        lemma_flushed_clears(sched, drawn);
        lemma_flushed_for_clears(sched.flushed(), flushed_for, drawn);
    }
}

proof fn lemma_drained_clears(sched: SchedulerView)
    requires
        sched.wf(),
        clears_pending(sched, seq![true]),
    ensures
        sched.drained().clear[0].len() == 0,
        sched.drained().clear[1].len() == 0,
    decreases sched.rounds.len(),
{
    if sched.rounds.len() > 0 {
        sched.lemma_flushed();
        lemma_flushed_clears(sched, seq![true]);
        lemma_drained_clears(sched.flushed());
    } else {
        assert(!undrawn_open(seq![true], 0));
        assert(!undrawn_open(seq![true], 1));
        assert(!sched.pending(0));
        assert(!sched.pending(1));
        assert(sched.clear[0].len() > 0 ==> sched.pending(0) || undrawn_open(seq![true], 0));
        assert(sched.clear[1].len() > 0 ==> sched.pending(1) || undrawn_open(seq![true], 1));
    }
}

/// An open layer that nothing was drawn into stays so when another layer's
/// mark is set.
proof fn lemma_undrawn_kept(drawn: Seq<bool>, marked: int, texture: int)
    requires
        0 <= marked < drawn.len(),
        undrawn_open(drawn, texture),
        marked == 0 || marked % 2 != texture,
    ensures
        undrawn_open(drawn.update(marked, true), texture),
{
    let p = choose|p: int| 1 <= p < drawn.len() && p % 2 == texture && !#[trigger] drawn[p];
    assert(!drawn.update(marked, true)[p]);
}

impl TileRun {
    /// A command that is scheduled keeps every waiting slot's clear pending,
    /// provided that a layer is not closed before anything is drawn into it.
    pub proof fn lemma_step_clears(self, drawn: Seq<bool>, cmd: Cmd, wide_x: u16, wide_y: u16)
        requires
            self.inv(),
            self.error is None,
            self.sched.end() + 2 <= usize::MAX,
            cmd.needs_layer() ==> self.depth() >= 2,
            drawn.len() == self.stack.len(),
            clears_pending(self.sched, drawn),
            cmd is PopBuf ==> drawn.last(),
        ensures
            step_drawn(drawn, cmd).len() == self.depth() + cmd.depth_change(),
            self.step(cmd, wide_x, wide_y).error is None ==> clears_pending(
                self.step(cmd, wide_x, wide_y).sched,
                step_drawn(drawn, cmd),
            ),
    {
        let next = self.step(cmd, wide_x, wide_y);
        let marks = step_drawn(drawn, cmd);
        let depth = self.depth();
        self.lemma_step(cmd, wide_x, wide_y);
        if next.error is None {
            assert forall|texture: int|
                0 <= texture < 2 && (#[trigger] next.sched.clear[texture]).len()
                    > 0 implies next.sched.pending(texture) || undrawn_open(marks, texture) by {
                match cmd {
                    Cmd::Fill(fill) => {
                        self.lemma_fill_clears(drawn, next, depth, depth - 1, texture);
                    },
                    Cmd::AlphaFill(fill) => {
                        self.lemma_fill_clears(drawn, next, depth, depth - 1, texture);
                    },
                    Cmd::ClipFill(clip) => {
                        self.lemma_fill_clears(drawn, next, depth - 1, depth - 2, texture);
                    },
                    Cmd::ClipStrip(clip) => {
                        self.lemma_fill_clears(drawn, next, depth - 1, depth - 2, texture);
                    },
                    Cmd::PushBuf => {
                        let opened = texture_of(depth);
                        self.sched.lemma_flushed_for(opened);
                        lemma_flushed_for_clears(self.sched, opened, drawn);
                        let ready = self.sched.flushed_for(opened);
                        assert(next.sched == ready.allocated(opened));
                        assert(next.sched.rounds == ready.rounds);
                        if texture == opened {
                            assert(!marks[depth]);
                            assert(undrawn_open(marks, texture));
                        } else {
                            assert(next.sched.clear[texture] == ready.clear[texture]);
                            assert(ready.clear[texture].len() > 0);
                            if ready.pending(texture) {
                                let q = choose|q: int|
                                    0 <= q < ready.rounds.len() && (
                                    #[trigger] ready.rounds[q]).draws[texture].len() > 0;
                                assert(next.sched.rounds[q].draws[texture].len() > 0);
                            } else {
                                let p = choose|p: int|
                                    1 <= p < drawn.len() && p % 2 == texture && !#[trigger] drawn[p];
                                assert(!marks[p]);
                            }
                        }
                    },
                    Cmd::PopBuf => {
                        let tos = self.stack[depth - 1];
                        let nos = self.stack[depth - 2];
                        lemma_with_free_pending(
                            self.sched,
                            consume_round(nos, tos, depth),
                            1 - depth % 2,
                            tos.slot_ix,
                            texture,
                        );
                        assert(self.sched.clear[texture].len() > 0);
                        if !self.sched.pending(texture) {
                            let p = choose|p: int|
                                1 <= p < drawn.len() && p % 2 == texture && !#[trigger] drawn[p];
                            assert(p != depth - 1);
                            assert(!marks[p]);
                        }
                    },
                }
            }
        }
    }

    /// A strip scheduled at clip depth `at_depth`, into the layer `marked` of
    /// the stack, keeps every waiting slot's clear pending.
    proof fn lemma_fill_clears(
        self,
        drawn: Seq<bool>,
        next: TileRun,
        at_depth: int,
        marked: int,
        texture: int,
    )
        requires
            self.sched.wf(),
            self.sched.round < usize::MAX,
            1 <= at_depth,
            marked == at_depth - 1,
            marked < drawn.len(),
            0 <= texture < 2,
            clears_pending(self.sched, drawn),
            next.sched.clear[texture].len() > 0,
            exists|round: int, strip: GpuStrip|
                0 <= round < usize::MAX && next.sched == #[trigger] self.sched.with_draw(
                    round,
                    at_depth,
                    strip,
                ),
        ensures
            next.sched.pending(texture) || undrawn_open(drawn.update(marked, true), texture),
    {
        let (round, strip) = choose|round: int, strip: GpuStrip|
            0 <= round < usize::MAX && next.sched == #[trigger] self.sched.with_draw(
                round,
                at_depth,
                strip,
            );
        lemma_with_draw_pending(self.sched, round, at_depth, strip, texture);
        assert(self.sched.clear[texture].len() > 0);
        if target_of(at_depth) != texture && !self.sched.pending(texture) {
            lemma_undrawn_kept(drawn, marked, texture);
        }
    }

    /// What holds after the first `n` commands of a wide tile whose commands
    /// can be scheduled and whose layers are drawn into before they are closed,
    /// unless the run stopped: every waiting slot's clear is pending.
    pub proof fn lemma_steps_clear(self, cmds: Seq<Cmd>, n: nat, wide_x: u16, wide_y: u16)
        requires
            self.inv(),
            self.conserves(),
            self.error is None,
            self.depth() == 1,
            (WideTileView { bg: 0, cmds }).wf(),
            layers_drawn(cmds),
            n <= cmds.len(),
            self.sched.end() + 2 * cmds.len() <= usize::MAX,
            clears_pending(self.sched, seq![true]),
        ensures
            self.steps(cmds, n, wide_x, wide_y).error is None ==> {
                &&& drawn_after(cmds, n).len() == self.steps(cmds, n, wide_x, wide_y).depth()
                &&& clears_pending(
                    self.steps(cmds, n, wide_x, wide_y).sched,
                    drawn_after(cmds, n),
                )
            },
        decreases n,
    {
        if n > 0 {
            let m = (n - 1) as nat;
            self.lemma_steps_clear(cmds, m, wide_x, wide_y);
            self.lemma_steps(cmds, m, wide_x, wide_y);
            let before = self.steps(cmds, m, wide_x, wide_y);
            lemma_depth_bounds(cmds, m as int);
            if before.error is None {
                assert(cmds[m as int].needs_layer() ==> depth_after(cmds.take(m as int)) >= 2);
                before.lemma_step(cmds[m as int], wide_x, wide_y);
                before.lemma_step_clears(drawn_after(cmds, m), cmds[m as int], wide_x, wide_y);
            }
        }
    }
}

/// What holds after the first `n` wide tiles of a scene that can be
/// scheduled, whose layers are all drawn into and closed, unless the run
/// stopped: a round queued draws into the texture of every slot that waits to
/// be cleared.
proof fn lemma_scene_run_clears(
    sched: SchedulerView,
    passes: Seq<PassView>,
    scene: SceneView,
    n: nat,
)
    requires
        sched.wf(),
        sched.end() <= 1,
        sched.slots_held(0) == sched.total_slots,
        sched.slots_held(1) == sched.total_slots,
        clears_pending(sched, seq![true]),
        scene.wf(),
        scene.balanced(),
        scene.layers_drawn(),
        n <= scene.tiles.len(),
    ensures
        ({
            let run = scene_run(sched, passes, scene.tiles, scene.per_row(), n);
            run.error is None ==> clears_pending(run.sched, seq![true])
        }),
    decreases n,
{
    if n > 0 {
        let m = (n - 1) as nat;
        lemma_scene_run_clears(sched, passes, scene, m);
        lemma_scene_run(sched, passes, scene, m);
        lemma_round_budget_monotonic(scene.tiles, n, scene.tiles.len());
        lemma_round_budget_monotonic(scene.tiles, m, m);
        let before = scene_run(sched, passes, scene.tiles, scene.per_row(), m);
        if before.error is None {
            let tile = scene.tiles[m as int];
            let wide_x = wide_tile_x(m as int, scene.per_row());
            let wide_y = wide_tile_y(m as int, scene.per_row());
            assert(tile.wf());
            assert(tile.balanced());
            assert(layers_drawn(tile.cmds));
            TileRun::lemma_begin(before.sched, before.passes, tile.bg, wide_x, wide_y);
            let start = TileRun::begin(before.sched, before.passes, tile.bg, wide_x, wide_y);
            crate::schedule_laws::lemma_begin_conserves(
                before.sched,
                before.passes,
                tile.bg,
                wide_x,
                wide_y,
            );
            assert forall|texture: int|
                0 <= texture < 2 && (#[trigger] start.sched.clear[texture]).len()
                    > 0 implies start.sched.pending(texture) || undrawn_open(
                seq![true],
                texture,
            ) by {
                if visible(tile.bg) {
                    let strip = choose|strip: GpuStrip|
                        start.sched == #[trigger] before.sched.with_draw(
                            before.sched.round as int,
                            1,
                            strip,
                        );
                    lemma_with_draw_pending(
                        before.sched,
                        before.sched.round as int,
                        1,
                        strip,
                        texture,
                    );
                }
                assert(before.sched.clear[texture].len() > 0);
            }
            start.lemma_steps(tile.cmds, tile.cmds.len(), wide_x, wide_y);
            start.lemma_steps_clear(tile.cmds, tile.cmds.len(), wide_x, wide_y);
            let end = tile_run(before.sched, before.passes, tile, wide_x, wide_y);
            assert(tile.cmds.take(tile.cmds.len() as int) =~= tile.cmds);
            if end.error is None {
                let drawn = drawn_after(tile.cmds, tile.cmds.len());
                assert(drawn.len() == 1);
                assert forall|texture: int|
                    0 <= texture < 2 && (#[trigger] end.sched.clear[texture]).len()
                        > 0 implies end.sched.pending(texture) || undrawn_open(
                    seq![true],
                    texture,
                ) by {
                    assert(!undrawn_open(drawn, texture));
                }
            }
        }
    }
}

/// No slot is left waiting: once a scene has been scheduled that can be
/// scheduled and whose layers are all drawn into and then closed, by a
/// scheduler that held every slot and had none waiting to be cleared, no slot
/// of either texture waits to be cleared.
pub proof fn lemma_scene_end_clears(sched: SchedulerView, passes: Seq<PassView>, scene: SceneView)
    requires
        sched.wf(),
        sched.end() <= 1,
        sched.slots_held(0) == sched.total_slots,
        sched.slots_held(1) == sched.total_slots,
        sched.clear[0].len() == 0,
        sched.clear[1].len() == 0,
        scene.wf(),
        scene.balanced(),
        scene.layers_drawn(),
    ensures
        ({
            let end = scene_end(sched, passes, scene.tiles, scene.per_row());
            end.error is None ==> end.sched.clear[0].len() == 0 && end.sched.clear[1].len() == 0
        }),
{
    lemma_scene_run_clears(sched, passes, scene, scene.tiles.len());
    lemma_scene_run(sched, passes, scene, scene.tiles.len());
    let run = scene_run(sched, passes, scene.tiles, scene.per_row(), scene.tiles.len());
    if run.error is None {
        lemma_drained_clears(run.sched);
    }
}

} // verus!
