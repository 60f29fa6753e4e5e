use sparse_strips::coarse::{
    Cmd, CmdAlphaFill, CmdClipAlphaFill, CmdClipFill, CmdFill, Paint, WideTile,
};
use sparse_strips::render::{GpuStrip, LoadOp, RenderPass};
use sparse_strips::scene::Scene;
use sparse_strips::schedule::{has_non_zero_alpha, Scheduler, TileState};
use sparse_strips::schedule_model::ScheduleError;

const RED: u32 = 0xFF00_00FF;
const WHITE: u32 = 0xFFFF_FFFF;

fn strip(x: u16, y: u16, width: u16, dense_width: u16, col: u32, rgba: u32) -> GpuStrip {
    GpuStrip { x, y, width, dense_width, col, rgba }
}

fn fill(x: u16, width: u16, rgba: u32) -> Cmd {
    Cmd::Fill(CmdFill { x, width, paint: Paint::Solid(rgba) })
}

fn alpha_fill(x: u16, width: u16, alpha_idx: usize, rgba: u32) -> Cmd {
    Cmd::AlphaFill(CmdAlphaFill { x, width, alpha_idx, paint: Paint::Solid(rgba) })
}

fn clip_fill(x: u32, width: u32) -> Cmd {
    Cmd::ClipFill(CmdClipFill { x, width })
}

fn clip_strip(x: u32, width: u32, alpha_idx: usize) -> Cmd {
    Cmd::ClipStrip(CmdClipAlphaFill { x, width, alpha_idx })
}

fn tile_of(bg: u32, cmds: &[Cmd]) -> WideTile {
    let mut tile = WideTile::new(bg);
    for cmd in cmds {
        assert!(tile.push(*cmd));
    }
    tile
}

/// What a pass says, for comparison.
#[derive(Debug, PartialEq)]
enum Pass {
    Clear(usize, Vec<u32>),
    Draw(usize, Vec<GpuStrip>, LoadOp),
}

fn passes_of(out: &[RenderPass]) -> Vec<Pass> {
    out.iter()
        .map(|pass| match pass {
            RenderPass::ClearSlots { texture_ix, slots } => Pass::Clear(*texture_ix, slots.clone()),
            RenderPass::DrawStrips { target_ix, strips, load } => {
                Pass::Draw(*target_ix, strips.clone(), *load)
            }
        })
        .collect()
}

/// Schedules one wide tile and flushes every round; returns the passes and
/// the number of rounds flushed.
fn run_tile(scheduler: &mut Scheduler, tile: &WideTile) -> (Vec<Pass>, usize) {
    let mut out = Vec::new();
    let mut state = TileState::new();
    scheduler.do_tile(&mut out, 0, 0, tile, &mut state).unwrap();
    while scheduler.queued_rounds() > 0 {
        scheduler.flush(&mut out);
    }
    (passes_of(&out), scheduler.round())
}

#[test]
fn alpha_of_a_packed_colour() {
    assert!(has_non_zero_alpha(0x0100_0000));
    assert!(has_non_zero_alpha(0xFFFF_FFFF));
    assert!(!has_non_zero_alpha(0x00FF_FFFF));
    assert!(!has_non_zero_alpha(0));
}

#[test]
fn new_scheduler_holds_every_slot() {
    let scheduler = Scheduler::new(7);
    assert_eq!(scheduler.total_slots(), 7);
    assert_eq!(scheduler.round(), 0);
    assert_eq!(scheduler.free_len(0), 7);
    assert_eq!(scheduler.free_len(1), 7);
    assert_eq!(scheduler.clear_len(0), 0);
    assert_eq!(scheduler.clear_len(1), 0);
    assert_eq!(scheduler.queued_rounds(), 1);
}

#[test]
fn draws_land_by_depth_parity() {
    let mut scheduler = Scheduler::new(2);
    for depth in 1..=6usize {
        scheduler.draw_mut(0, depth, strip(depth as u16, 0, 1, 0, 0, RED));
    }
    let mut out = Vec::new();
    scheduler.flush(&mut out);
    assert_eq!(
        passes_of(&out),
        vec![
            Pass::Draw(
                0,
                vec![strip(3, 0, 1, 0, 0, RED), strip(5, 0, 1, 0, 0, RED)],
                LoadOp::Clear
            ),
            Pass::Draw(
                1,
                vec![
                    strip(2, 0, 1, 0, 0, RED),
                    strip(4, 0, 1, 0, 0, RED),
                    strip(6, 0, 1, 0, 0, RED)
                ],
                LoadOp::Clear
            ),
            Pass::Draw(2, vec![strip(1, 0, 1, 0, 0, RED)], LoadOp::Load),
        ]
    );
}

#[test]
fn draws_queue_rounds_as_needed() {
    let mut scheduler = Scheduler::new(2);
    scheduler.draw_mut(3, 1, strip(0, 0, 1, 0, 0, RED));
    assert_eq!(scheduler.queued_rounds(), 4);
    scheduler.draw_mut(1, 1, strip(1, 0, 1, 0, 0, RED));
    assert_eq!(scheduler.queued_rounds(), 4);
    let mut out = Vec::new();
    scheduler.flush(&mut out);
    assert!(out.is_empty());
    assert_eq!(scheduler.round(), 1);
    // A round already flushed counts as the next one.
    scheduler.draw_mut(0, 1, strip(2, 0, 1, 0, 0, RED));
    scheduler.flush(&mut out);
    assert_eq!(
        passes_of(&out),
        vec![Pass::Draw(
            2,
            vec![strip(1, 0, 1, 0, 0, RED), strip(2, 0, 1, 0, 0, RED)],
            LoadOp::Load
        )]
    );
    scheduler.flush(&mut out);
    assert_eq!(out.len(), 1);
    scheduler.flush(&mut out);
    assert_eq!(out.len(), 2);
    assert_eq!(scheduler.round(), 4);
    assert_eq!(scheduler.queued_rounds(), 0);
}

#[test]
fn fills_at_depth_one_lie_in_the_final_target() {
    let mut scheduler = Scheduler::new(2);
    let tile = tile_of(WHITE, &[fill(10, 20, RED), alpha_fill(30, 8, 44, RED)]);
    let mut out = Vec::new();
    let mut state = TileState::new();
    assert_eq!(scheduler.do_tile(&mut out, 512, 40, &tile, &mut state), Ok(()));
    assert!(out.is_empty());
    scheduler.flush(&mut out);
    assert_eq!(
        passes_of(&out),
        vec![Pass::Draw(
            2,
            vec![
                strip(512, 40, 256, 0, 0, WHITE),
                strip(522, 40, 20, 0, 0, RED),
                strip(542, 40, 8, 8, 11, RED),
            ],
            LoadOp::Load
        )]
    );
}

#[test]
fn transparent_background_is_not_drawn() {
    let mut scheduler = Scheduler::new(2);
    let tile = tile_of(0x00FF_FFFF, &[]);
    let (passes, rounds) = run_tile(&mut scheduler, &tile);
    assert!(passes.is_empty());
    assert_eq!(rounds, 1);
}

#[test]
fn single_path_under_clip() {
    let mut scheduler = Scheduler::new(4);
    let tile =
        tile_of(WHITE, &[Cmd::PushBuf, fill(0, 100, RED), clip_fill(10, 40), Cmd::PopBuf]);
    let (passes, rounds) = run_tile(&mut scheduler, &tile);
    assert_eq!(
        passes,
        vec![
            Pass::Draw(1, vec![strip(0, 12, 100, 0, 0, RED)], LoadOp::Clear),
            Pass::Draw(
                2,
                vec![strip(0, 0, 256, 0, 0, WHITE), strip(10, 0, 40, 0, 0, 3)],
                LoadOp::Load
            ),
        ]
    );
    assert_eq!(rounds, 1);
    assert_eq!(scheduler.free_len(0), 4);
    assert_eq!(scheduler.free_len(1), 4);
    assert_eq!(scheduler.clear_len(0), 0);
    assert_eq!(scheduler.clear_len(1), 0);
}

#[test]
fn clip_strip_samples_the_slot_through_coverage() {
    let mut scheduler = Scheduler::new(4);
    let tile = tile_of(
        0,
        &[Cmd::PushBuf, alpha_fill(4, 8, 16, RED), clip_strip(4, 8, 32), Cmd::PopBuf],
    );
    let mut out = Vec::new();
    let mut state = TileState::new();
    assert_eq!(scheduler.do_tile(&mut out, 256, 8, &tile, &mut state), Ok(()));
    scheduler.flush(&mut out);
    assert_eq!(
        passes_of(&out),
        vec![
            Pass::Draw(1, vec![strip(4, 12, 8, 8, 4, RED)], LoadOp::Clear),
            Pass::Draw(2, vec![strip(260, 8, 8, 8, 8, 3)], LoadOp::Load),
        ]
    );
}

/// Ten layers, each opened within the one before and filled, then consumed
/// from the innermost out.
fn ten_nested_layers() -> WideTile {
    let mut cmds = Vec::new();
    for k in 0..10u16 {
        cmds.push(Cmd::PushBuf);
        cmds.push(fill(0, 100 - 10 * k, 0xFF00_0000 + u32::from(k) + 1));
    }
    for _ in 0..10 {
        cmds.push(clip_fill(0, 10));
        cmds.push(Cmd::PopBuf);
    }
    tile_of(0, &cmds)
}

#[test]
fn ten_nested_layers_take_five_slots_and_five_rounds() {
    let mut scheduler = Scheduler::new(5);
    let (passes, rounds) = run_tile(&mut scheduler, &ten_nested_layers());
    assert_eq!(rounds, 5);
    assert_eq!(scheduler.free_len(0), 5);
    assert_eq!(scheduler.free_len(1), 5);
    assert_eq!(scheduler.clear_len(0), 0);
    assert_eq!(scheduler.clear_len(1), 0);
    assert_eq!(passes.len(), 19);
    // The first round fills every layer; the innermost layer, in texture 0, is
    // consumed in the same round by the pass of texture 1.
    assert_eq!(
        passes[0],
        Pass::Draw(
            0,
            vec![
                strip(0, 16, 90, 0, 0, 0xFF00_0002),
                strip(0, 12, 70, 0, 0, 0xFF00_0004),
                strip(0, 8, 50, 0, 0, 0xFF00_0006),
                strip(0, 4, 30, 0, 0, 0xFF00_0008),
                strip(0, 0, 10, 0, 0, 0xFF00_000A),
            ],
            LoadOp::Clear
        )
    );
    assert_eq!(
        passes[1],
        Pass::Draw(
            1,
            vec![
                strip(0, 16, 100, 0, 0, 0xFF00_0001),
                strip(0, 12, 80, 0, 0, 0xFF00_0003),
                strip(0, 8, 60, 0, 0, 0xFF00_0005),
                strip(0, 4, 40, 0, 0, 0xFF00_0007),
                strip(0, 0, 20, 0, 0, 0xFF00_0009),
                strip(0, 0, 10, 0, 0, 0),
            ],
            LoadOp::Clear
        )
    );
    // A layer of texture 1 is consumed into texture 0 one round later.
    assert_eq!(passes[2], Pass::Clear(0, vec![]));
    assert_eq!(passes[3], Pass::Draw(0, vec![strip(0, 4, 10, 0, 0, 0)], LoadOp::Load));
    assert_eq!(passes[18], Pass::Draw(2, vec![strip(0, 0, 10, 0, 0, 4)], LoadOp::Load));
}

#[test]
fn ten_nested_layers_exhaust_four_slots() {
    let mut scheduler = Scheduler::new(4);
    let mut out = Vec::new();
    let mut state = TileState::new();
    assert_eq!(
        scheduler.do_tile(&mut out, 0, 0, &ten_nested_layers(), &mut state),
        Err(ScheduleError::SlotExhausted)
    );
    // The one round queued was flushed in search of a slot.
    assert_eq!(scheduler.round(), 1);
    assert_eq!(scheduler.queued_rounds(), 0);
    assert_eq!(scheduler.free_len(0), 0);
    assert_eq!(scheduler.free_len(1), 0);
}

fn six_layers_in_sequence() -> WideTile {
    let mut cmds = Vec::new();
    for _ in 0..6 {
        cmds.push(Cmd::PushBuf);
        cmds.push(fill(0, 10, 0xFF00_0001));
        cmds.push(clip_fill(0, 10));
        cmds.push(Cmd::PopBuf);
    }
    tile_of(0, &cmds)
}

#[test]
fn slots_are_reused_across_rounds() {
    let mut scheduler = Scheduler::new(2);
    let mut out = Vec::new();
    let mut state = TileState::new();
    scheduler.do_tile(&mut out, 0, 0, &six_layers_in_sequence(), &mut state).unwrap();
    // Two layers share a round; the third and the fifth had to wait for a
    // slot, so two rounds are flushed already.
    assert_eq!(scheduler.round(), 2);
    assert_eq!(scheduler.queued_rounds(), 1);
    scheduler.flush(&mut out);
    assert_eq!(scheduler.round(), 3);
    assert_eq!(scheduler.free_len(0), 2);
    assert_eq!(scheduler.free_len(1), 2);
    assert_eq!(out.len(), 6);
    let passes = passes_of(&out);
    for round in 0..3 {
        match &passes[2 * round] {
            Pass::Draw(1, strips, LoadOp::Clear) => assert_eq!(strips.len(), 2),
            other => panic!("unexpected pass {:?}", other),
        }
        match &passes[2 * round + 1] {
            Pass::Draw(2, strips, LoadOp::Load) => assert_eq!(strips.len(), 2),
            other => panic!("unexpected pass {:?}", other),
        }
    }
}

#[test]
fn one_slot_takes_a_round_for_each_layer() {
    let mut scheduler = Scheduler::new(1);
    let mut out = Vec::new();
    let mut state = TileState::new();
    scheduler.do_tile(&mut out, 0, 0, &six_layers_in_sequence(), &mut state).unwrap();
    assert_eq!(scheduler.round(), 5);
    while scheduler.queued_rounds() > 0 {
        scheduler.flush(&mut out);
        assert_eq!(scheduler.free_len(1), 1);
    }
    assert_eq!(scheduler.round(), 6);
    assert_eq!(out.len(), 12);
}

#[test]
fn slots_still_in_use_are_cleared_one_by_one() {
    let mut scheduler = Scheduler::new(3);
    // The first layer stays open while a round is flushed for the layers
    // within it.
    let mut cmds = vec![Cmd::PushBuf, fill(0, 10, RED)];
    for _ in 0..4 {
        cmds.push(Cmd::PushBuf);
        cmds.push(fill(0, 10, RED));
        cmds.push(clip_fill(0, 10));
        cmds.push(Cmd::PopBuf);
    }
    cmds.push(clip_fill(0, 10));
    cmds.push(Cmd::PopBuf);
    let (passes, rounds) = run_tile(&mut scheduler, &tile_of(0, &cmds));
    assert_eq!(rounds, 2);
    assert_eq!(scheduler.free_len(0), 3);
    assert_eq!(scheduler.free_len(1), 3);
    assert_eq!(scheduler.clear_len(0), 0);
    assert_eq!(scheduler.clear_len(1), 0);
    assert_eq!(
        passes,
        vec![
            Pass::Draw(
                0,
                vec![
                    strip(0, 8, 10, 0, 0, RED),
                    strip(0, 4, 10, 0, 0, RED),
                    strip(0, 0, 10, 0, 0, RED)
                ],
                LoadOp::Clear
            ),
            Pass::Draw(
                1,
                vec![
                    strip(0, 8, 10, 0, 0, RED),
                    strip(0, 8, 10, 0, 0, 2),
                    strip(0, 8, 10, 0, 0, 1),
                    strip(0, 8, 10, 0, 0, 0)
                ],
                LoadOp::Clear
            ),
            // In the second round every slot of texture 0 is free or waits to
            // be cleared, while a slot of texture 1 is still in use.
            Pass::Draw(0, vec![strip(0, 0, 10, 0, 0, RED)], LoadOp::Clear),
            Pass::Clear(1, vec![]),
            Pass::Draw(1, vec![strip(0, 8, 10, 0, 0, 0)], LoadOp::Load),
            Pass::Draw(2, vec![strip(0, 0, 10, 0, 0, 2)], LoadOp::Load),
        ]
    );
}

#[test]
fn fill_with_zero_alpha_is_refused() {
    let mut scheduler = Scheduler::new(2);
    let mut out = Vec::new();
    let mut state = TileState::new();
    let tile = tile_of(WHITE, &[fill(0, 1, RED), fill(0, 1, 0x00FF_FFFF), fill(0, 1, RED)]);
    assert_eq!(
        scheduler.do_tile(&mut out, 0, 0, &tile, &mut state),
        Err(ScheduleError::ColorZeroAlphaInFill)
    );
    let tile = tile_of(WHITE, &[alpha_fill(0, 1, 0, 0)]);
    assert_eq!(
        Scheduler::new(2).do_tile(&mut out, 0, 0, &tile, &mut state),
        Err(ScheduleError::ColorZeroAlphaInFill)
    );
}

#[test]
fn paint_that_is_no_colour_is_refused() {
    let mut out = Vec::new();
    let mut state = TileState::new();
    let tile = tile_of(0, &[Cmd::Fill(CmdFill { x: 0, width: 1, paint: Paint::Indexed(3) })]);
    assert_eq!(
        Scheduler::new(2).do_tile(&mut out, 0, 0, &tile, &mut state),
        Err(ScheduleError::UnsupportedPaint)
    );
    let tile = tile_of(
        0,
        &[Cmd::AlphaFill(CmdAlphaFill {
            x: 0,
            width: 1,
            alpha_idx: usize::MAX,
            paint: Paint::Indexed(0),
        })],
    );
    assert_eq!(
        Scheduler::new(2).do_tile(&mut out, 0, 0, &tile, &mut state),
        Err(ScheduleError::UnsupportedPaint)
    );
}

#[test]
fn alpha_index_beyond_31_bits_is_refused() {
    let mut out = Vec::new();
    let mut state = TileState::new();
    let tile = tile_of(0, &[alpha_fill(0, 1, 0x7FFF_FFFF, RED)]);
    let mut scheduler = Scheduler::new(2);
    assert_eq!(scheduler.do_tile(&mut out, 0, 0, &tile, &mut state), Ok(()));
    scheduler.flush(&mut out);
    assert_eq!(
        passes_of(&out),
        vec![Pass::Draw(2, vec![strip(0, 0, 1, 1, 0x1FFF_FFFF, RED)], LoadOp::Load)]
    );
    let tile = tile_of(0, &[alpha_fill(0, 1, 0x8000_0000, RED)]);
    assert_eq!(
        Scheduler::new(2).do_tile(&mut out, 0, 0, &tile, &mut state),
        Err(ScheduleError::AlphaOverflow)
    );
    let tile = tile_of(0, &[Cmd::PushBuf, clip_strip(0, 1, 0x8000_0000)]);
    assert_eq!(
        Scheduler::new(2).do_tile(&mut out, 0, 0, &tile, &mut state),
        Err(ScheduleError::AlphaOverflow)
    );
}

#[test]
fn no_slots_at_all_are_exhausted_by_the_first_layer() {
    let mut out = Vec::new();
    let mut state = TileState::new();
    let tile = tile_of(WHITE, &[Cmd::PushBuf]);
    let mut scheduler = Scheduler::new(0);
    assert_eq!(
        scheduler.do_tile(&mut out, 0, 0, &tile, &mut state),
        Err(ScheduleError::SlotExhausted)
    );
    // The background was flushed in search of a slot.
    assert_eq!(
        passes_of(&out),
        vec![Pass::Draw(2, vec![strip(0, 0, 256, 0, 0, WHITE)], LoadOp::Load)]
    );
}

#[test]
fn scene_is_scheduled_row_by_row() {
    let mut scene = Scene::new(300, 7);
    assert_eq!(scene.wide_tiles_per_row(), 2);
    assert_eq!(scene.wide_tiles_per_column(), 2);
    assert!(scene.set_bg(1, 0, WHITE));
    assert!(scene.push_cmd(0, 0, fill(1, 2, RED)));
    assert!(scene.push_cmd(1, 1, fill(3, 4, RED)));
    assert!(scene.push_cmd(0, 1, Cmd::PushBuf));
    assert!(scene.push_cmd(0, 1, fill(5, 6, RED)));
    assert!(scene.push_cmd(0, 1, clip_fill(5, 6)));
    assert!(scene.push_cmd(0, 1, Cmd::PopBuf));
    let mut scheduler = Scheduler::new(2);
    let mut out = Vec::new();
    assert_eq!(scheduler.do_scene(&mut out, &scene), Ok(()));
    assert_eq!(
        passes_of(&out),
        vec![
            Pass::Draw(1, vec![strip(5, 4, 6, 0, 0, RED)], LoadOp::Clear),
            Pass::Draw(
                2,
                vec![
                    strip(1, 0, 2, 0, 0, RED),
                    strip(256, 0, 256, 0, 0, WHITE),
                    strip(5, 4, 6, 0, 0, 1),
                    strip(259, 4, 4, 0, 0, RED),
                ],
                LoadOp::Load
            ),
        ]
    );
    assert_eq!(scheduler.round(), 0);
    assert_eq!(scheduler.queued_rounds(), 0);
    assert_eq!(scheduler.free_len(0), 2);
    assert_eq!(scheduler.free_len(1), 2);
    assert_eq!(scheduler.clear_len(1), 0);

    // The scheduler can be used again, and schedules the same passes.
    let mut again = Vec::new();
    assert_eq!(scheduler.do_scene(&mut again, &scene), Ok(()));
    assert_eq!(passes_of(&again).len(), 2);
    assert_eq!(scheduler.free_len(1), 2);
}

#[test]
fn scene_stops_at_the_first_error() {
    let mut scene = Scene::new(256, 8);
    assert!(scene.push_cmd(0, 0, fill(0, 1, RED)));
    assert!(scene.push_cmd(0, 1, fill(0, 1, 0)));
    let mut scheduler = Scheduler::new(2);
    let mut out = Vec::new();
    assert_eq!(scheduler.do_scene(&mut out, &scene), Err(ScheduleError::ColorZeroAlphaInFill));
    assert!(out.is_empty());
    assert_eq!(scheduler.queued_rounds(), 1);
}

/// Whether a strip samples a slot: its colour field has zero alpha and holds
/// the slot's index.
fn samples_slot(strip: &GpuStrip) -> bool {
    !has_non_zero_alpha(strip.rgba)
}

/// Checks that every strip that samples a slot is drawn after the strips that
/// fill this slot, in the order of the passes.
fn assert_written_before_read(passes: &[Pass]) {
    let mut written: [Vec<u16>; 2] = [Vec::new(), Vec::new()];
    let mut pending: Vec<(usize, u16)> = Vec::new();
    for pass in passes {
        if let Pass::Draw(target, strips, _) = pass {
            // The pass of texture 0 and the final pass sample texture 1; the
            // pass of texture 1 samples texture 0.
            let source = if *target == 1 { 0 } else { 1 };
            for strip in strips.iter().filter(|strip| samples_slot(strip)) {
                let row = strip.rgba as u16 * 4;
                assert!(
                    written[source].contains(&row),
                    "slot {} of texture {} is sampled before it is drawn",
                    strip.rgba,
                    source
                );
            }
            if *target < 2 {
                for strip in strips {
                    pending.push((*target, strip.y));
                }
            }
        }
        for (target, row) in pending.drain(..) {
            written[target].push(row);
        }
    }
}

#[test]
fn layers_are_drawn_before_they_are_sampled() {
    let mut scheduler = Scheduler::new(5);
    let (passes, _) = run_tile(&mut scheduler, &ten_nested_layers());
    assert_written_before_read(&passes);

    let mut scheduler = Scheduler::new(2);
    let (passes, _) = run_tile(&mut scheduler, &six_layers_in_sequence());
    assert_written_before_read(&passes);

    // Layers of three depths, opened again and again within one another.
    let mut cmds = Vec::new();
    for _ in 0..3 {
        cmds.push(Cmd::PushBuf);
        cmds.push(fill(0, 8, RED));
        for _ in 0..3 {
            cmds.push(Cmd::PushBuf);
            cmds.push(fill(0, 8, RED));
            for _ in 0..2 {
                cmds.push(Cmd::PushBuf);
                cmds.push(fill(0, 8, RED));
                cmds.push(clip_fill(0, 8));
                cmds.push(Cmd::PopBuf);
            }
            cmds.push(clip_strip(0, 8, 64));
            cmds.push(Cmd::PopBuf);
        }
        cmds.push(clip_fill(0, 8));
        cmds.push(Cmd::PopBuf);
    }
    let mut scheduler = Scheduler::new(2);
    let (passes, _) = run_tile(&mut scheduler, &tile_of(WHITE, &cmds));
    assert_written_before_read(&passes);
    assert_eq!(scheduler.free_len(0), 2);
    assert_eq!(scheduler.free_len(1), 2);
    assert_eq!(scheduler.clear_len(0), 0);
    assert_eq!(scheduler.clear_len(1), 0);
}
