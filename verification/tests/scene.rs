use sparse_strips::coarse::{Cmd, CmdClipFill, CmdFill, Paint, WideTile};
use sparse_strips::filter::FilterScene;
use sparse_strips::scene::{CachedStrips, Scene};
use sparse_strips::strip::{FillRule, Strip};
use sparse_strips::tile::Tile;

fn fill(x: u16, width: u16) -> Cmd {
    Cmd::Fill(CmdFill { x, width, paint: Paint::Solid(0xFF00_00FF) })
}

#[test]
fn wide_tile_takes_commands_that_fit() {
    let mut tile = WideTile::new(7);
    assert_eq!(tile.bg(), 7);
    assert!(tile.push(fill(0, 256)));
    assert!(tile.push(fill(255, 1)));
    assert!(tile.push(fill(255, 0)));
    assert!(!tile.push(fill(256, 0)));
    assert!(!tile.push(fill(255, 2)));
    assert!(!tile.push(fill(0, 257)));
    assert!(!tile.push(Cmd::ClipFill(CmdClipFill { x: 0, width: 1 })));
    assert_eq!(tile.cmds().len(), 3);
    tile.set_bg(9);
    assert_eq!(tile.bg(), 9);
    assert_eq!(tile.cmds().len(), 3);
}

#[test]
fn wide_tile_counts_open_layers() {
    let mut tile = WideTile::new(0);
    assert_eq!(tile.depth(), 1);
    assert!(tile.is_balanced());
    assert!(!tile.push(Cmd::PopBuf));
    assert!(tile.push(Cmd::PushBuf));
    assert_eq!(tile.depth(), 2);
    assert!(!tile.is_balanced());
    assert!(tile.push(Cmd::ClipFill(CmdClipFill { x: 0, width: 256 })));
    assert!(!tile.push(Cmd::ClipFill(CmdClipFill { x: 1, width: 256 })));
    assert!(tile.push(Cmd::PushBuf));
    assert!(tile.push(Cmd::PopBuf));
    assert!(tile.push(Cmd::PopBuf));
    assert!(!tile.push(Cmd::PopBuf));
    assert!(tile.is_balanced());
    assert_eq!(tile.cmds().len(), 5);
    tile.reset();
    assert_eq!(tile.cmds().len(), 0);
    assert_eq!(tile.bg(), 0);
    assert_eq!(tile.depth(), 1);
}

#[test]
fn scene_holds_a_wide_tile_for_each_place() {
    let scene = Scene::new(100, 100);
    assert_eq!((scene.width(), scene.height()), (100, 100));
    assert_eq!(scene.wide_tiles_per_row(), 1);
    assert_eq!(scene.wide_tiles_per_column(), 25);
    assert_eq!(scene.wide_tiles().len(), 25);
    let scene = Scene::new(257, 9);
    assert_eq!(scene.wide_tiles_per_row(), 2);
    assert_eq!(scene.wide_tiles_per_column(), 3);
    assert_eq!(scene.wide_tiles().len(), 6);
    assert_eq!(Scene::new(256, 8).wide_tiles().len(), 2);
    assert_eq!(Scene::new(0, 8).wide_tiles().len(), 0);
    assert_eq!(Scene::new(8, 0).wide_tiles().len(), 0);
    let scene = Scene::new(u16::MAX, 5);
    assert_eq!(scene.wide_tiles_per_row(), 256);
    assert_eq!(scene.wide_tiles().len(), 512);
}

#[test]
fn scene_puts_commands_into_the_tile_named() {
    let mut scene = Scene::new(600, 8);
    assert!(scene.push_cmd(2, 1, fill(1, 2)));
    assert!(scene.push_cmd(0, 0, fill(3, 4)));
    assert!(!scene.push_cmd(3, 0, fill(3, 4)));
    assert!(!scene.push_cmd(0, 2, fill(3, 4)));
    assert!(!scene.push_cmd(0, 0, fill(300, 4)));
    assert!(scene.set_bg(1, 1, 5));
    assert!(!scene.set_bg(1, 2, 5));
    let lens: Vec<usize> = scene.wide_tiles().iter().map(|tile| tile.cmds().len()).collect();
    assert_eq!(lens, vec![1, 0, 0, 0, 0, 1]);
    assert_eq!(scene.wide_tiles()[5].cmds()[0], fill(1, 2));
    assert_eq!(scene.wide_tiles()[4].bg(), 5);
    scene.reset();
    assert_eq!(scene.wide_tiles().len(), 6);
    assert!(scene.wide_tiles().iter().all(|tile| tile.cmds().is_empty() && tile.bg() == 0));
}

#[test]
fn scene_style_starts_as_black_non_zero() {
    let mut scene = Scene::new(8, 8);
    assert_eq!(scene.encode_current_paint(), Paint::Solid(0xFF00_0000));
    assert!(scene.paint_visible());
    assert_eq!(scene.fill_rule(), FillRule::NonZero);
    scene.set_fill_rule(FillRule::EvenOdd);
    assert_eq!(scene.fill_rule(), FillRule::EvenOdd);
    scene.set_paint(Paint::Solid(0x00FF_FFFF));
    assert!(!scene.paint_visible());
    scene.set_paint(Paint::Solid(0x0100_0000));
    assert!(scene.paint_visible());
    scene.set_paint(Paint::Indexed(0));
    assert!(!scene.paint_visible());
    assert_eq!(scene.encode_current_paint(), Paint::Indexed(0));
    scene.reset();
    assert_eq!(scene.encode_current_paint(), Paint::Solid(0xFF00_0000));
    assert_eq!(scene.fill_rule(), FillRule::NonZero);
    assert!(!scene.paint_visible());
}

fn fields(strip: &Strip) -> (u16, u16, u32, bool) {
    (strip.x, strip.y, strip.alpha_idx(), strip.fill_gap())
}

#[test]
fn scene_renders_strips_behind_those_it_holds() {
    let mut scene = Scene::new(64, 64);
    let first: Vec<u8> = (0..16).collect();
    scene.make_strips(&vec![Tile::new(1, 1, 0, 0)], &first, FillRule::NonZero, None, None);
    let second: Vec<u8> = (100..132).collect();
    scene.make_strips(
        &vec![Tile::new(2, 3, 0, 1), Tile::new(5, 3, 1, -1)],
        &second,
        FillRule::NonZero,
        None,
        None,
    );
    let got: Vec<_> = scene.strip_buf().iter().map(fields).collect();
    assert_eq!(
        got,
        vec![
            (4, 4, 0, false),
            (0xFFFF, 4, 16, false),
            (8, 12, 16, false),
            (20, 12, 32, true),
            (0xFFFF, 12, 48, false),
        ]
    );
    assert_eq!(scene.alphas().len(), 48);
    assert_eq!(&scene.alphas()[..16], &first[..]);
    assert_eq!(&scene.alphas()[16..], &second[..]);

    let cached = scene.create_cached_strips(2, 16);
    let got: Vec<_> = cached.strips().iter().map(fields).collect();
    assert_eq!(got, vec![(8, 12, 0, false), (20, 12, 16, true), (0xFFFF, 12, 32, false)]);
    assert_eq!(cached.alphas(), &second);

    let empty = scene.create_cached_strips(5, 48);
    assert!(empty.strips().is_empty());
    assert!(empty.alphas().is_empty());

    let strips = scene.render_cached_strips(&cached);
    let got: Vec<_> = strips.iter().map(fields).collect();
    assert_eq!(got, vec![(8, 12, 48, false), (20, 12, 64, true), (0xFFFF, 12, 80, false)]);
    assert_eq!(scene.alphas().len(), 80);
    assert_eq!(&scene.alphas()[48..], &second[..]);
    assert_eq!(scene.strip_buf().len(), 5);

    let strips = scene.render_cached_strips(&CachedStrips::new());
    assert!(strips.is_empty());
    assert_eq!(scene.alphas().len(), 80);
}

#[test]
fn cached_strips_are_appended_behind_the_coverage_held() {
    let mut scene = Scene::new(64, 64);
    let coverage: Vec<u8> = (0..16).collect();
    scene.make_strips(&vec![Tile::new(1, 1, 0, 0)], &coverage, FillRule::NonZero, None, None);
    let one = scene.create_cached_strips(0, 0);
    let mut combined = CachedStrips::default();
    combined.append(&one);
    combined.append(&one);
    let got: Vec<_> = combined.strips().iter().map(fields).collect();
    assert_eq!(
        got,
        vec![(4, 4, 0, false), (0xFFFF, 4, 16, false), (4, 4, 16, false), (0xFFFF, 4, 32, false)]
    );
    assert_eq!(combined.alphas().len(), 32);
    assert_eq!(&combined.alphas()[16..], &coverage[..]);
}

#[test]
fn filter_scene_keeps_no_state() {
    assert_eq!(FilterScene::new(), FilterScene::default());
    assert_eq!(FilterScene::new(), FilterScene {});
}

#[test]
fn scene_exchanges_its_buffers() {
    let mut scene = Scene::new(8, 8);
    let mut strips = vec![Strip::new(4, 0, 0, false), Strip::new(0xFFFF, 0, 16, true)];
    let mut alphas = vec![3u8; 16];
    scene.swap_buffers(&mut strips, &mut alphas);
    assert!(strips.is_empty());
    assert!(alphas.is_empty());
    assert_eq!(scene.strip_buf().len(), 2);
    assert_eq!(scene.strip_buf()[1], Strip::new(0xFFFF, 0, 16, true));
    assert_eq!(scene.alphas(), &vec![3u8; 16]);
    scene.swap_buffers(&mut strips, &mut alphas);
    assert_eq!(strips.len(), 2);
    assert_eq!(alphas.len(), 16);
    assert!(scene.strip_buf().is_empty());
    assert!(scene.alphas().is_empty());
}
