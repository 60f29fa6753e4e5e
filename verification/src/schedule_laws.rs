//! What holds of every schedule: where a draw lands, and that no slot is lost.

use vstd::prelude::*;
use crate::coarse::{depth_after, lemma_depth_bounds, Cmd, WideTileView};
use crate::render::{GpuStrip, PassView};
use crate::scene::{lemma_round_budget_monotonic, round_budget, SceneView};
use crate::schedule_model::{
    scene_end, scene_run, target_of, texture_of, tile_run, wide_tile_x, wide_tile_y, RoundView,
    SchedulerView, TileRun,
};

verus! {

/// Depth-parity targeting: a strip scheduled at clip depth 1 lands in the
/// draws of the final target, one scheduled at a deeper depth `d` in those of
/// clip texture `1 - d mod 2`, of the round it is scheduled for; no other draws
/// change.
pub proof fn lemma_draw_lands(sched: SchedulerView, round: int, clip_depth: int, strip: GpuStrip)
    requires
        sched.wf(),
        1 <= clip_depth,
        0 <= round < usize::MAX,
        sched.round < usize::MAX,
    ensures
        target_of(1) == 2,
        clip_depth >= 2 ==> target_of(clip_depth) == 1 - clip_depth % 2,
        ({
            let rel = sched.rel_round(round);
            let queued = sched.with_round(rel);
            let after = sched.with_draw(round, clip_depth, strip);
            &&& after.rounds.len() == queued.rounds.len()
            &&& rel < after.rounds.len()
            &&& after.rounds[rel].draws[target_of(clip_depth)] == queued.rounds[rel].draws[target_of(
                clip_depth,
            )].push(strip)
            &&& forall|q: int, target: int|
                0 <= q < after.rounds.len() && 0 <= target < 3 && (q != rel || target != target_of(
                    clip_depth,
                )) ==> #[trigger] after.rounds[q].draws[target] == queued.rounds[q].draws[target]
            &&& forall|q: int|
                0 <= q < after.rounds.len() ==> (#[trigger] after.rounds[q]).free
                    == queued.rounds[q].free
        }),
{
    let rel = sched.rel_round(round);
    sched.lemma_with_round(rel);
    let queued = sched.with_round(rel);
    assert(queued.rounds[rel].wf(queued.total_slots));
}

/// Number of slots that wait in the rounds queued to be freed.
pub open spec fn queued_free(rounds: Seq<RoundView>, texture: int) -> nat
    decreases rounds.len(),
{
    if rounds.len() == 0 {
        0
    } else {
        queued_free(rounds.drop_last(), texture) + rounds.last().free[texture].len()
    }
}

/// Number of layers open at the given clip depth whose slot lies in clip
/// texture `texture`: layers are opened at depths 1, 2, 3 and so on, and the one
/// opened at depth `d` takes a slot of texture `d mod 2`.
pub open spec fn open_layers(clip_depth: int, texture: int) -> int {
    if texture == 1 {
        clip_depth / 2
    } else {
        (clip_depth - 1) / 2
    }
}

proof fn lemma_queued_free_empties(rounds: Seq<RoundView>, count: nat, texture: int)
    requires
        0 <= texture < 2,
    ensures
        queued_free(rounds + Seq::new(count, |i: int| RoundView::empty()), texture) == queued_free(
            rounds,
            texture,
        ),
    decreases count,
{
    let extended = rounds + Seq::new(count, |i: int| RoundView::empty());
    if count == 0 {
        assert(extended =~= rounds);
    } else {
        let shorter = rounds + Seq::new((count - 1) as nat, |i: int| RoundView::empty());
        lemma_queued_free_empties(rounds, (count - 1) as nat, texture);
        assert(extended.drop_last() =~= shorter);
        assert(extended.last() == RoundView::empty());
    }
}

proof fn lemma_queued_free_update(rounds: Seq<RoundView>, q: int, round: RoundView, texture: int)
    requires
        0 <= q < rounds.len(),
    ensures
        queued_free(rounds.update(q, round), texture) == queued_free(rounds, texture)
            - rounds[q].free[texture].len() + round.free[texture].len(),
    decreases rounds.len(),
{
    let updated = rounds.update(q, round);
    if q == rounds.len() - 1 {
        assert(updated.drop_last() =~= rounds.drop_last());
    } else {
        lemma_queued_free_update(rounds.drop_last(), q, round, texture);
        assert(updated.drop_last() =~= rounds.drop_last().update(q, round));
    }
}

proof fn lemma_queued_free_front(rounds: Seq<RoundView>, texture: int)
    requires
        rounds.len() > 0,
    ensures
        queued_free(rounds, texture) == rounds[0].free[texture].len() + queued_free(
            rounds.drop_first(),
            texture,
        ),
    decreases rounds.len(),
{
    if rounds.len() == 1 {
        assert(rounds.drop_last() =~= Seq::<RoundView>::empty());
        assert(rounds.drop_first() =~= Seq::<RoundView>::empty());
    } else {
        lemma_queued_free_front(rounds.drop_last(), texture);
        assert(rounds.drop_last().drop_first() =~= rounds.drop_first().drop_last());
    }
}

impl SchedulerView {
    /// Number of slots of `texture` that are free or wait to be freed.
    pub open spec fn slots_held(self, texture: int) -> int {
        (self.free[texture].len() + queued_free(self.rounds, texture)) as int
    }

    /// A new scheduler holds every slot.
    pub proof fn lemma_idle_holds_all(total_slots: nat)
        ensures
            SchedulerView::idle(total_slots).slots_held(0) == total_slots,
            SchedulerView::idle(total_slots).slots_held(1) == total_slots,
    {
        let idle = SchedulerView::idle(total_slots);
        assert(idle.rounds.drop_last() =~= Seq::<RoundView>::empty());
        assert(queued_free(idle.rounds.drop_last(), 0) == 0);
        assert(queued_free(idle.rounds.drop_last(), 1) == 0);
        assert(idle.rounds.last() == RoundView::empty());
    }

    proof fn lemma_with_round_holds(self, rel: int, texture: int)
        requires
            0 <= rel,
            0 <= texture < 2,
        ensures
            self.with_round(rel).slots_held(texture) == self.slots_held(texture),
    {
        if rel >= self.rounds.len() {
            lemma_queued_free_empties(
                self.rounds,
                (rel + 1 - self.rounds.len()) as nat,
                texture,
            );
        }
    }

    proof fn lemma_with_draw_holds(self, round: int, clip_depth: int, texture: int)
        requires
            self.wf(),
            0 <= texture < 2,
            1 <= clip_depth,
            0 <= round < usize::MAX,
            self.round < usize::MAX,
        ensures
            forall|strip: GpuStrip|
                (#[trigger] self.with_draw(round, clip_depth, strip)).slots_held(texture)
                    == self.slots_held(texture),
    {
        assert forall|strip: GpuStrip|
            (#[trigger] self.with_draw(round, clip_depth, strip)).slots_held(texture)
                == self.slots_held(texture) by {
            let rel = self.rel_round(round);
            self.lemma_with_round(rel);
            self.lemma_with_round_holds(rel, texture);
            let queued = self.with_round(rel);
            let at = queued.rounds[rel];
            let target = target_of(clip_depth);
            lemma_queued_free_update(
                queued.rounds,
                rel,
                RoundView { draws: at.draws.update(target, at.draws[target].push(strip)), ..at },
                texture,
            );
        }
    }

    proof fn lemma_with_free_holds(self, round: int, freed: int, slot: usize, texture: int)
        requires
            self.wf(),
            0 <= freed < 2,
            0 <= texture < 2,
            0 <= round < usize::MAX,
            self.round < usize::MAX,
        ensures
            self.with_free(round, freed, slot).slots_held(texture) == self.slots_held(texture)
                + (if texture == freed {
                1int
            } else {
                0int
            }),
    {
        let rel = self.rel_round(round);
        self.lemma_with_round(rel);
        self.lemma_with_round_holds(rel, texture);
        let queued = self.with_round(rel);
        let at = queued.rounds[rel];
        assert(at.wf(queued.total_slots));
        lemma_queued_free_update(
            queued.rounds,
            rel,
            RoundView { free: at.free.update(freed, at.free[freed].push(slot)), ..at },
            texture,
        );
    }

    proof fn lemma_flushed_holds(self, texture: int)
        requires
            self.wf(),
            self.rounds.len() > 0,
            0 <= texture < 2,
        ensures
            self.flushed().slots_held(texture) == self.slots_held(texture),
    {
        lemma_queued_free_front(self.rounds, texture);
    }

    proof fn lemma_flushed_for_holds(self, flushed_for: int, texture: int)
        requires
            self.wf(),
            0 <= flushed_for < 2,
            0 <= texture < 2,
        ensures
            self.flushed_for(flushed_for).slots_held(texture) == self.slots_held(texture),
        decreases self.rounds.len(),
    {
        if !(self.free[flushed_for].len() > 0 || self.rounds.len() == 0) {
            self.lemma_flushed();
            self.lemma_flushed_holds(texture);
            self.flushed().lemma_flushed_for_holds(flushed_for, texture);
        }
    }

    proof fn lemma_drained_holds(self, texture: int)
        requires
            self.wf(),
            0 <= texture < 2,
        ensures
            self.drained().free[texture].len() == self.slots_held(texture),
        decreases self.rounds.len(),
    {
        if self.rounds.len() > 0 {
            self.lemma_flushed();
            self.lemma_flushed_holds(texture);
            self.flushed().lemma_drained_holds(texture);
        }
    }
}

impl TileRun {
    /// Whether every slot is accounted for: free, waiting to be freed, or held
    /// by a layer that is open.
    pub open spec fn conserves(self) -> bool {
        forall|texture: int|
            0 <= texture < 2 ==> #[trigger] self.sched.slots_held(texture) + open_layers(
                self.depth(),
                texture,
            ) == self.sched.total_slots
    }

    /// No command loses a slot.
    pub proof fn lemma_step_conserves(self, cmd: Cmd, wide_x: u16, wide_y: u16)
        requires
            self.inv(),
            self.conserves(),
            self.sched.end() + 2 <= usize::MAX,
            cmd.needs_layer() ==> self.depth() >= 2,
        ensures
            self.step(cmd, wide_x, wide_y).conserves(),
    {
        let next = self.step(cmd, wide_x, wide_y);
        let depth = self.depth();
        self.lemma_step(cmd, wide_x, wide_y);
        assert forall|texture: int| 0 <= texture < 2 implies #[trigger] next.sched.slots_held(
            texture,
        ) + open_layers(next.depth(), texture) == next.sched.total_slots by {
            assert(self.sched.slots_held(texture) + open_layers(depth, texture)
                == self.sched.total_slots);
            if self.error is None {
                match cmd {
                    Cmd::Fill(fill) => {
                        if next.error is None {
                            self.sched.lemma_with_draw_holds(
                                self.stack.last().round as int,
                                depth,
                                texture,
                            );
                        }
                    },
                    Cmd::AlphaFill(fill) => {
                        if next.error is None {
                            self.sched.lemma_with_draw_holds(
                                self.stack.last().round as int,
                                depth,
                                texture,
                            );
                        }
                    },
                    Cmd::PushBuf => {
                        let opened = texture_of(depth);
                        self.sched.lemma_flushed_for(opened);
                        self.sched.lemma_flushed_for_holds(opened, texture);
                        let ready = self.sched.flushed_for(opened);
                        if ready.free[opened].len() > 0 {
                            ready.lemma_allocated(opened);
                        }
                    },
                    Cmd::PopBuf => {
                        let tos = self.stack[depth - 1];
                        let nos = self.stack[depth - 2];
                        self.sched.lemma_with_free_holds(
                            crate::schedule_model::consume_round(nos, tos, depth),
                            1 - depth % 2,
                            tos.slot_ix,
                            texture,
                        );
                    },
                    Cmd::ClipFill(clip) => {
                        let tos = self.stack[depth - 1];
                        let nos = self.stack[depth - 2];
                        self.sched.lemma_with_draw_holds(
                            crate::schedule_model::consume_round(nos, tos, depth),
                            depth - 1,
                            texture,
                        );
                    },
                    Cmd::ClipStrip(clip) => {
                        if next.error is None {
                            let tos = self.stack[depth - 1];
                            let nos = self.stack[depth - 2];
                            self.sched.lemma_with_draw_holds(
                                crate::schedule_model::consume_round(nos, tos, depth),
                                depth - 1,
                                texture,
                            );
                        }
                    },
                }
            }
        }
    }

    /// What holds after the first `n` commands of a wide tile whose commands
    /// can be scheduled: the run can go on, no slot is lost, at most two rounds
    /// were queued for each command, and the depth is that of the commands
    /// unless the run stopped.
    pub proof fn lemma_steps(self, cmds: Seq<Cmd>, n: nat, wide_x: u16, wide_y: u16)
        requires
            self.inv(),
            self.conserves(),
            self.error is None,
            self.depth() == 1,
            (WideTileView { bg: 0, cmds }).wf(),
            n <= cmds.len(),
            self.sched.end() + 2 * cmds.len() <= usize::MAX,
        ensures
            self.steps(cmds, n, wide_x, wide_y).inv(),
            self.steps(cmds, n, wide_x, wide_y).conserves(),
            self.steps(cmds, n, wide_x, wide_y).sched.end() <= self.sched.end() + 2 * n,
            self.steps(cmds, n, wide_x, wide_y).sched.total_slots == self.sched.total_slots,
            self.steps(cmds, n, wide_x, wide_y).error is None ==> self.steps(
                cmds,
                n,
                wide_x,
                wide_y,
            ).depth() == depth_after(cmds.take(n as int)),
        decreases n,
    {
        if n == 0 {
            assert(cmds.take(0) =~= Seq::<Cmd>::empty());
        } else {
            let m = (n - 1) as nat;
            self.lemma_steps(cmds, m, wide_x, wide_y);
            let before = self.steps(cmds, m, wide_x, wide_y);
            lemma_depth_bounds(cmds, m as int);
            if before.error is None {
                assert(cmds[m as int].needs_layer() ==> depth_after(cmds.take(m as int)) >= 2);
                before.lemma_step(cmds[m as int], wide_x, wide_y);
                before.lemma_step_conserves(cmds[m as int], wide_x, wide_y);
            }
        }
    }
}

/// The start of a wide tile loses no slot.
pub proof fn lemma_begin_conserves(
    sched: SchedulerView,
    passes: Seq<PassView>,
    bg: u32,
    wide_x: u16,
    wide_y: u16,
)
    requires
        sched.wf(),
        sched.end() + 1 <= usize::MAX,
        sched.slots_held(0) == sched.total_slots,
        sched.slots_held(1) == sched.total_slots,
    ensures
        TileRun::begin(sched, passes, bg, wide_x, wide_y).conserves(),
{
    let start = TileRun::begin(sched, passes, bg, wide_x, wide_y);
    assert forall|texture: int| 0 <= texture < 2 implies #[trigger] start.sched.slots_held(
        texture,
    ) + open_layers(start.depth(), texture) == start.sched.total_slots by {
        if crate::schedule_model::visible(bg) {
            sched.lemma_with_draw_holds(sched.round as int, 1, texture);
        }
    }
}

/// What holds after the first `n` wide tiles of a scene that can be scheduled
/// and whose layers are all closed: the scheduler is well formed and holds
/// every slot, and at most the scene's budget of rounds was queued.
pub proof fn lemma_scene_run(sched: SchedulerView, passes: Seq<PassView>, scene: SceneView, n: nat)
    requires
        sched.wf(),
        sched.end() <= 1,
        sched.slots_held(0) == sched.total_slots,
        sched.slots_held(1) == sched.total_slots,
        scene.wf(),
        scene.balanced(),
        n <= scene.tiles.len(),
    ensures
        ({
            let run = scene_run(sched, passes, scene.tiles, scene.per_row(), n);
            &&& run.sched.wf()
            &&& run.sched.total_slots == sched.total_slots
            &&& run.sched.end() <= sched.end() + round_budget(scene.tiles, n)
            &&& run.error is None ==> run.sched.slots_held(0) == sched.total_slots
                && run.sched.slots_held(1) == sched.total_slots
        }),
    decreases n,
{
    if n > 0 {
        let m = (n - 1) as nat;
        lemma_scene_run(sched, passes, scene, m);
        lemma_round_budget_monotonic(scene.tiles, n, scene.tiles.len());
        lemma_round_budget_monotonic(scene.tiles, m, m);
        let before = scene_run(sched, passes, scene.tiles, scene.per_row(), m);
        if before.error is None {
            let tile = scene.tiles[m as int];
            let wide_x = wide_tile_x(m as int, scene.per_row());
            let wide_y = wide_tile_y(m as int, scene.per_row());
            assert(tile.wf());
            assert(tile.balanced());
            TileRun::lemma_begin(before.sched, before.passes, tile.bg, wide_x, wide_y);
            let start = TileRun::begin(before.sched, before.passes, tile.bg, wide_x, wide_y);
            assert forall|texture: int| 0 <= texture < 2 implies #[trigger] start.sched.slots_held(
                texture,
            ) + open_layers(start.depth(), texture) == start.sched.total_slots by {
                if crate::schedule_model::visible(tile.bg) {
                    before.sched.lemma_with_draw_holds(
                        before.sched.round as int,
                        1,
                        texture,
                    );
                }
            }
            start.lemma_steps(tile.cmds, tile.cmds.len(), wide_x, wide_y);
            let end = tile_run(before.sched, before.passes, tile, wide_x, wide_y);
            assert(tile.cmds.take(tile.cmds.len() as int) =~= tile.cmds);
            if end.error is None {
                assert(end.depth() == 1);
                assert(end.sched.slots_held(0) + open_layers(1, 0) == end.sched.total_slots);
                assert(end.sched.slots_held(1) + open_layers(1, 1) == end.sched.total_slots);
            }
        }
    }
}

/// Slot conservation: once a scene that can be scheduled and whose layers are
/// all closed has been scheduled by a scheduler that held every slot, every
/// slot of both textures is free again, no round is queued, and the round
/// counter is back at 0.
pub proof fn lemma_scene_end_conserves_slots(
    sched: SchedulerView,
    passes: Seq<PassView>,
    scene: SceneView,
)
    requires
        sched.wf(),
        sched.end() <= 1,
        sched.slots_held(0) == sched.total_slots,
        sched.slots_held(1) == sched.total_slots,
        scene.wf(),
        scene.balanced(),
    ensures
        ({
            let end = scene_end(sched, passes, scene.tiles, scene.per_row());
            end.error is None ==> {
                &&& end.sched.free[0].len() == sched.total_slots
                &&& end.sched.free[1].len() == sched.total_slots
                &&& end.sched.rounds.len() == 0
                &&& end.sched.round == 0
                &&& end.sched.slots_held(0) == sched.total_slots
                &&& end.sched.slots_held(1) == sched.total_slots
                &&& end.sched.total_slots == sched.total_slots
                &&& end.sched.wf()
            }
        }),
{
    lemma_scene_run(sched, passes, scene, scene.tiles.len());
    let run = scene_run(sched, passes, scene.tiles, scene.per_row(), scene.tiles.len());
    if run.error is None {
        run.sched.lemma_drained();
        run.sched.lemma_drained_holds(0);
        run.sched.lemma_drained_holds(1);
        let end = scene_end(sched, passes, scene.tiles, scene.per_row());
        assert(end.sched.rounds =~= Seq::<RoundView>::empty());
        assert(queued_free(end.sched.rounds, 0) == 0);
        assert(queued_free(end.sched.rounds, 1) == 0);
    }
}

} // verus!
