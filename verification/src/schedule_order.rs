//! What holds of every schedule: a layer is read after it was written.
//!
//! The passes of a round are carried out in the order clip texture 0, clip
//! texture 1, final target. A strip that samples a layer's slot therefore has
//! to be scheduled for a later round than every strip drawn into that slot, or
//! for the same round and a target whose pass comes later.

use vstd::prelude::*;
use crate::coarse::{depth_after, lemma_depth_bounds, Cmd, WideTileView};
use crate::render::PassView;
use crate::schedule_model::{consume_round, target_of, SchedulerView, TileEl, TileRun};

verus! {

/// The later of two rounds.
pub open spec fn later(a: int, b: int) -> int {
    if a >= b {
        a
    } else {
        b
    }
}

/// For each layer of the stack after a command, the latest round for which a
/// strip was scheduled into it, or -1 if there is none. A fill is scheduled
/// into the layer on top for that layer's round; a copy of the layer on top
/// into the layer below for the round in which the layer on top can be
/// consumed.
pub open spec fn step_writes(
    run: TileRun,
    writes: Seq<int>,
    cmd: Cmd,
    wide_x: u16,
    wide_y: u16,
) -> Seq<int> {
    let depth = run.depth();
    if run.error is Some || run.step(cmd, wide_x, wide_y).error is Some {
        writes
    } else {
        match cmd {
            Cmd::Fill(_) => writes.update(
                depth - 1,
                later(writes[depth - 1], run.stack[depth - 1].round as int),
            ),
            Cmd::AlphaFill(_) => writes.update(
                depth - 1,
                later(writes[depth - 1], run.stack[depth - 1].round as int),
            ),
            Cmd::PushBuf => writes.push(-1),
            Cmd::PopBuf => writes.drop_last(),
            Cmd::ClipFill(_) => writes.update(
                depth - 2,
                later(
                    writes[depth - 2],
                    consume_round(run.stack[depth - 2], run.stack[depth - 1], depth),
                ),
            ),
            Cmd::ClipStrip(_) => writes.update(
                depth - 2,
                later(
                    writes[depth - 2],
                    consume_round(run.stack[depth - 2], run.stack[depth - 1], depth),
                ),
            ),
        }
    }
}

/// For each layer of the stack after the first `n` commands, the latest round
/// for which a strip was scheduled into it, or -1.
pub open spec fn writes_after(
    start: TileRun,
    cmds: Seq<Cmd>,
    n: nat,
    wide_x: u16,
    wide_y: u16,
) -> Seq<int>
    decreases n,
{
    if n == 0 {
        seq![-1int]
    } else {
        step_writes(
            start.steps(cmds, (n - 1) as nat, wide_x, wide_y),
            writes_after(start, cmds, (n - 1) as nat, wide_x, wide_y),
            cmds[n - 1],
            wide_x,
            wide_y,
        )
    }
}

/// Whether no strip was scheduled into a layer for a later round than the
/// layer can be consumed in: for the layer on top its own round, which is no
/// round flushed already; for a layer below the round in which the layer above
/// it can be consumed into it.
pub open spec fn ordered(run: TileRun, writes: Seq<int>) -> bool {
    &&& writes.len() == run.stack.len()
    &&& run.stack.last().round >= run.sched.round
    &&& writes.last() <= run.stack.last().round
    &&& forall|p: int|
        0 <= p < run.stack.len() - 1 ==> #[trigger] writes[p] <= consume_round(
            run.stack[p],
            run.stack[p + 1],
            p + 2,
        )
}

/// A layer can be consumed no earlier if the layer above it is complete
/// later.
proof fn lemma_consume_round_monotonic(nos: TileEl, tos: TileEl, later_tos: TileEl, depth: int)
    requires
        tos.round <= later_tos.round,
    ensures
        consume_round(nos, tos, depth) <= consume_round(nos, later_tos, depth),
        nos.round <= consume_round(nos, tos, depth),
        tos.round <= consume_round(nos, tos, depth),
{
}

impl TileRun {
    /// A command that is scheduled keeps the writes in order.
    pub proof fn lemma_step_ordered(self, writes: Seq<int>, cmd: Cmd, wide_x: u16, wide_y: u16)
        requires
            self.inv(),
            self.error is None,
            self.sched.end() + 2 <= usize::MAX,
            cmd.needs_layer() ==> self.depth() >= 2,
            ordered(self, writes),
        ensures
            self.step(cmd, wide_x, wide_y).error is None ==> ordered(
                self.step(cmd, wide_x, wide_y),
                step_writes(self, writes, cmd, wide_x, wide_y),
            ),
    {
        let next = self.step(cmd, wide_x, wide_y);
        let marks = step_writes(self, writes, cmd, wide_x, wide_y);
        let depth = self.depth();
        self.lemma_step(cmd, wide_x, wide_y);
        if next.error is None {
            match cmd {
                Cmd::Fill(fill) => {
                    assert(next.sched.round == self.sched.round);
                    assert(next.stack == self.stack);
                },
                Cmd::AlphaFill(fill) => {
                    assert(next.sched.round == self.sched.round);
                    assert(next.stack == self.stack);
                },
                Cmd::ClipFill(clip) => {
                    assert(next.sched.round == self.sched.round);
                    assert(next.stack == self.stack);
                },
                Cmd::ClipStrip(clip) => {
                    assert(next.sched.round == self.sched.round);
                    assert(next.stack == self.stack);
                },
                Cmd::PushBuf => {
                    let opened = crate::schedule_model::texture_of(depth);
                    self.sched.lemma_flushed_for(opened);
                    let ready = self.sched.flushed_for(opened);
                    ready.lemma_allocated(opened);
                    assert(next.stack.last().round == ready.round);
                    assert forall|p: int| 0 <= p < next.stack.len() - 1 implies #[trigger] marks[p]
                        <= consume_round(next.stack[p], next.stack[p + 1], p + 2) by {
                        if p == depth - 1 {
                            lemma_consume_round_monotonic(
                                next.stack[p],
                                next.stack[p + 1],
                                next.stack[p + 1],
                                p + 2,
                            );
                        } else {
                            assert(writes[p] <= consume_round(
                                self.stack[p],
                                self.stack[p + 1],
                                p + 2,
                            ));
                        }
                    }
                },
                Cmd::PopBuf => {
                    let tos = self.stack[depth - 1];
                    let nos = self.stack[depth - 2];
                    let round = consume_round(nos, tos, depth);
                    lemma_consume_round_monotonic(nos, tos, tos, depth);
                    assert(next.sched.round == self.sched.round);
                    assert(writes[depth - 2] <= round);
                    assert(next.stack.last().round == round);
                    assert forall|p: int| 0 <= p < next.stack.len() - 1 implies #[trigger] marks[p]
                        <= consume_round(next.stack[p], next.stack[p + 1], p + 2) by {
                        assert(writes[p] <= consume_round(self.stack[p], self.stack[p + 1], p + 2));
                        if p == depth - 3 {
                            lemma_consume_round_monotonic(
                                self.stack[p],
                                self.stack[p + 1],
                                next.stack[p + 1],
                                p + 2,
                            );
                        }
                    }
                },
            }
        }
    }

    /// What holds after the first `n` commands of a wide tile whose commands
    /// can be scheduled, unless the run stopped: the run can go on, its depth
    /// is that of the commands, and the writes are in order.
    pub proof fn lemma_steps_ordered(self, cmds: Seq<Cmd>, n: nat, wide_x: u16, wide_y: u16)
        requires
            self.inv(),
            self.error is None,
            self.depth() == 1,
            self.stack[0].round >= self.sched.round,
            (WideTileView { bg: 0, cmds }).wf(),
            n <= cmds.len(),
            self.sched.end() + 2 * cmds.len() <= usize::MAX,
        ensures
            self.steps(cmds, n, wide_x, wide_y).inv(),
            self.steps(cmds, n, wide_x, wide_y).sched.end() <= self.sched.end() + 2 * n,
            self.steps(cmds, n, wide_x, wide_y).error is None ==> {
                &&& self.steps(cmds, n, wide_x, wide_y).depth() == depth_after(cmds.take(n as int))
                &&& ordered(
                    self.steps(cmds, n, wide_x, wide_y),
                    writes_after(self, cmds, n, wide_x, wide_y),
                )
            },
        decreases n,
    {
        if n == 0 {
            assert(cmds.take(0) =~= Seq::<Cmd>::empty());
        } else {
            let m = (n - 1) as nat;
            self.lemma_steps_ordered(cmds, m, wide_x, wide_y);
            let before = self.steps(cmds, m, wide_x, wide_y);
            lemma_depth_bounds(cmds, m as int);
            if before.error is None {
                assert(cmds[m as int].needs_layer() ==> depth_after(cmds.take(m as int)) >= 2);
                before.lemma_step(cmds[m as int], wide_x, wide_y);
                before.lemma_step_ordered(
                    writes_after(self, cmds, m, wide_x, wide_y),
                    cmds[m as int],
                    wide_x,
                    wide_y,
                );
            }
        }
    }
}

/// Write before read: where command `i` of a wide tile copies the layer on top
/// of the stack into the layer below, the strip that samples the layer's slot
/// is scheduled for a round that is not flushed yet and no earlier than any
/// strip drawn into the slot; and where it is the same round, the strips drawn
/// into the slot belong to a target whose pass is carried out first.
pub proof fn lemma_write_before_read(
    sched: SchedulerView,
    passes: Seq<PassView>,
    tile: WideTileView,
    wide_x: u16,
    wide_y: u16,
    i: int,
)
    requires
        sched.wf(),
        sched.end() + 2 * tile.cmds.len() + 1 <= usize::MAX,
        tile.wf(),
        0 <= i < tile.cmds.len(),
        tile.cmds[i] is ClipFill || tile.cmds[i] is ClipStrip,
    ensures
        ({
            let start = TileRun::begin(sched, passes, tile.bg, wide_x, wide_y);
            let run = start.steps(tile.cmds, i as nat, wide_x, wide_y);
            let writes = writes_after(start, tile.cmds, i as nat, wide_x, wide_y);
            let depth = run.depth();
            run.error is None ==> {
                &&& depth >= 2
                &&& writes.len() == depth
                &&& consume_round(run.stack[depth - 2], run.stack[depth - 1], depth)
                    >= run.sched.round
                &&& writes[depth - 1] <= consume_round(
                    run.stack[depth - 2],
                    run.stack[depth - 1],
                    depth,
                )
                &&& writes[depth - 1] < consume_round(
                    run.stack[depth - 2],
                    run.stack[depth - 1],
                    depth,
                ) || target_of(depth) < target_of(depth - 1)
            }
        }),
{
    let start = TileRun::begin(sched, passes, tile.bg, wide_x, wide_y);
    TileRun::lemma_begin(sched, passes, tile.bg, wide_x, wide_y);
    assert(start.sched.round == sched.round);
    assert((WideTileView { bg: 0, cmds: tile.cmds }).wf());
    start.lemma_steps_ordered(tile.cmds, i as nat, wide_x, wide_y);
    let run = start.steps(tile.cmds, i as nat, wide_x, wide_y);
    if run.error is None {
        lemma_depth_bounds(tile.cmds, i);
        assert(tile.cmds[i].needs_layer());
        let depth = run.depth();
        lemma_consume_round_monotonic(
            run.stack[depth - 2],
            run.stack[depth - 1],
            run.stack[depth - 1],
            depth,
        );
    }
}

} // verus!
