use sparse_strips::gamma::GammaCorrector;
use sparse_strips::strip::{
    push_coverage, render, FillRule, Strip, StripEmitter, Transition,
};
use sparse_strips::tile::Tile;

fn fields(strip: &Strip) -> (u16, u16, u32, bool) {
    (strip.x, strip.y, strip.alpha_idx(), strip.fill_gap())
}

#[test]
fn strip_packs_alpha_index_and_fill_gap() {
    let strip = Strip::new(8, 12, 0x7FFF_FFFF, true);
    assert_eq!(fields(&strip), (8, 12, 0x7FFF_FFFF, true));
    let strip = Strip::new(8, 12, 0, false);
    assert_eq!(fields(&strip), (8, 12, 0, false));
    let strip = Strip::new(0xFFFF, 12, 77, false);
    assert!(strip.is_sentinel());
    assert!(!Strip::new(0xFFFE, 12, 77, false).is_sentinel());
}

#[test]
fn strip_setters_leave_the_other_field() {
    let mut strip = Strip::new(4, 8, 100, true);
    strip.set_alpha_idx(5);
    assert_eq!(fields(&strip), (4, 8, 5, true));
    strip.set_fill_gap(false);
    assert_eq!(fields(&strip), (4, 8, 5, false));
    strip.set_alpha_idx(0x7FFF_FFFF);
    assert_eq!(fields(&strip), (4, 8, 0x7FFF_FFFF, false));
    strip.set_fill_gap(true);
    assert_eq!(fields(&strip), (4, 8, 0x7FFF_FFFF, true));
}

#[test]
fn strip_y_is_in_strip_units() {
    assert_eq!(Strip::new(0, 0, 0, false).strip_y(), 0);
    assert_eq!(Strip::new(0, 12, 0, false).strip_y(), 3);
    assert_eq!(Strip::new(0, 65532, 0, false).strip_y(), 16383);
}

#[test]
fn tiles_compare_by_location() {
    let a = Tile::new(3, 5, 0, 1);
    assert!(a.same_loc(Tile::new(3, 5, 9, -1)));
    assert!(!a.same_loc(Tile::new(4, 5, 0, 1)));
    assert!(a.prev_loc(Tile::new(4, 5, 0, 0)));
    assert!(!a.prev_loc(Tile::new(5, 5, 0, 0)));
    assert!(!a.prev_loc(Tile::new(4, 6, 0, 0)));
    assert!(!a.prev_loc(Tile::new(2, 5, 0, 0)));
    assert!(a.same_row(Tile::new(100, 5, 0, 0)));
    assert!(!a.same_row(Tile::new(3, 6, 0, 0)));
}

#[test]
fn fill_rules_decide_by_winding() {
    for winding in [-5, -4, -3, -2, -1, 1, 2, 3, 4, 5] {
        assert!(FillRule::NonZero.should_fill(winding));
        assert_eq!(FillRule::EvenOdd.should_fill(winding), winding % 2 != 0);
        assert_eq!(
            FillRule::EvenOdd.should_fill(winding),
            FillRule::EvenOdd.should_fill(-winding)
        );
    }
    assert!(!FillRule::NonZero.should_fill(0));
    assert!(!FillRule::EvenOdd.should_fill(0));
    assert!(FillRule::EvenOdd.should_fill(i32::MIN + 1));
    assert!(!FillRule::EvenOdd.should_fill(i32::MIN));
    assert!(FillRule::EvenOdd.should_fill(i32::MAX));
}

#[test]
fn coverage_is_stored_as_it_is_without_threshold_and_gamma() {
    let mut alphas = vec![9u8];
    let mut coverage = [0u8; 16];
    for (i, value) in coverage.iter_mut().enumerate() {
        *value = (i * 17) as u8;
    }
    push_coverage(&mut alphas, &coverage, None, None);
    assert_eq!(alphas.len(), 17);
    assert_eq!(alphas[0], 9);
    assert_eq!(&alphas[1..], &coverage[..]);
}

#[test]
fn threshold_snaps_coverage() {
    let mut alphas = Vec::new();
    let coverage = [0, 1, 99, 100, 101, 127, 128, 200, 254, 255, 0, 0, 100, 100, 50, 150];
    push_coverage(&mut alphas, &coverage, Some(100), None);
    assert_eq!(
        alphas,
        vec![0, 0, 0, 255, 255, 255, 255, 255, 255, 255, 0, 0, 255, 255, 0, 255]
    );
    let mut alphas = Vec::new();
    push_coverage(&mut alphas, &coverage, Some(0), None);
    assert_eq!(alphas, vec![255u8; 16]);
}

#[test]
fn gamma_corrects_coverage_after_the_threshold() {
    let corrector = GammaCorrector::new(0);
    let mut alphas = Vec::new();
    let coverage = [0, 2, 128, 255, 2, 2, 2, 2, 128, 128, 128, 128, 0, 0, 0, 0];
    push_coverage(&mut alphas, &coverage, None, Some(&corrector));
    assert_eq!(
        alphas,
        vec![0, 1, 68, 255, 1, 1, 1, 1, 68, 68, 68, 68, 0, 0, 0, 0]
    );
    let mut alphas = Vec::new();
    push_coverage(&mut alphas, &coverage, Some(128), Some(&corrector));
    assert_eq!(
        alphas,
        vec![0, 0, 255, 255, 0, 0, 0, 0, 255, 255, 255, 255, 0, 0, 0, 0]
    );
}

#[test]
fn emitter_reports_transitions() {
    let first = Tile::new(2, 3, 0, 1);
    let mut emitter = StripEmitter::new(first, Vec::new(), Vec::new(), FillRule::NonZero, None);
    let coverage = [7u8; 16];
    assert!(!emitter.leaves_location(first));
    assert!(emitter.can_advance(first));
    assert_eq!(emitter.advance(first, &coverage, None), Transition::SameLocation);
    let next = Tile::new(3, 3, 1, 1);
    assert!(emitter.leaves_location(next));
    assert_eq!(emitter.advance(next, &coverage, None), Transition::NextLocation);
    let far = Tile::new(7, 3, 2, -1);
    assert_eq!(emitter.advance(far, &coverage, None), Transition::NextStrip(2));
    let below = Tile::new(0, 4, 3, 0);
    assert_eq!(emitter.advance(below, &coverage, None), Transition::NextRow);
    assert!(emitter.can_finish());
    let (strips, alphas) = emitter.finish(&coverage, None);
    let got: Vec<_> = strips.iter().map(fields).collect();
    assert_eq!(
        got,
        vec![
            (8, 12, 0, false),
            (28, 12, 32, true),
            (0xFFFF, 12, 48, true),
            (0, 16, 48, false),
            (0xFFFF, 16, 64, false),
        ]
    );
    assert_eq!(alphas, vec![7u8; 64]);
}

#[test]
fn emitter_refuses_tiles_outside_the_viewport() {
    let first = Tile::new(0, 0, 0, 0);
    let emitter = StripEmitter::new(first, Vec::new(), Vec::new(), FillRule::NonZero, None);
    assert!(emitter.can_advance(Tile::new(16383, 16383, 0, -1)));
    assert!(!emitter.can_advance(Tile::new(16384, 0, 0, 0)));
    assert!(!emitter.can_advance(Tile::new(0, 16384, 0, 0)));
    assert!(!emitter.can_advance(Tile::new(0xFFFF, 0xFFFF, 0, 0)));
    assert!(!emitter.can_advance(Tile::new(0, 0, 0, 2)));
    assert!(!emitter.can_advance(Tile::new(0, 0, 0, -2)));
}

#[test]
fn render_of_no_tiles_changes_nothing() {
    let mut strips = vec![Strip::new(1, 4, 3, true)];
    let mut alphas = vec![1, 2, 3];
    render(&Vec::new(), &Vec::new(), &mut strips, &mut alphas, FillRule::NonZero, None, None);
    assert_eq!(strips, vec![Strip::new(1, 4, 3, true)]);
    assert_eq!(alphas, vec![1, 2, 3]);
}

#[test]
fn render_of_one_tile_gives_a_strip_and_a_sentinel() {
    let mut strips = Vec::new();
    let mut alphas = vec![0u8; 5];
    let coverage: Vec<u8> = (0..16).collect();
    render(
        &vec![Tile::new(3, 2, 0, 1)],
        &coverage,
        &mut strips,
        &mut alphas,
        FillRule::EvenOdd,
        None,
        None,
    );
    let got: Vec<_> = strips.iter().map(fields).collect();
    assert_eq!(got, vec![(12, 8, 5, false), (0xFFFF, 8, 21, true)]);
    assert_eq!(alphas.len(), 21);
    assert_eq!(&alphas[5..], &coverage[..]);
}

/// Tiles of two rows: the first with a gap that is filled, the second with
/// three adjacent locations.
fn two_rows() -> Vec<Tile> {
    vec![
        Tile::new(1, 0, 0, 1),
        Tile::new(1, 0, 1, 0),
        Tile::new(5, 0, 2, -1),
        Tile::new(2, 1, 3, 1),
        Tile::new(3, 1, 4, 1),
        Tile::new(4, 1, 5, 0),
    ]
}

#[test]
fn render_cuts_strips_at_gaps_and_rows() {
    let tiles = two_rows();
    let coverage: Vec<u8> = (0..80).map(|i| i as u8).collect();
    let mut strips = vec![Strip::new(9, 9, 9, false)];
    let mut alphas = vec![0xAA; 4];
    render(&tiles, &coverage, &mut strips, &mut alphas, FillRule::NonZero, None, None);
    let got: Vec<_> = strips.iter().map(fields).collect();
    assert_eq!(
        got,
        vec![
            (9, 9, 9, false),
            (4, 0, 4, false),
            (20, 0, 20, true),
            (8, 4, 36, false),
            (0xFFFF, 4, 84, true),
        ]
    );
    assert_eq!(alphas.len(), 84);
    assert_eq!(&alphas[..4], &[0xAA; 4]);
    assert_eq!(&alphas[4..], &coverage[..]);
}

#[test]
fn a_row_that_ends_with_winding_gets_a_sentinel() {
    let tiles = vec![Tile::new(1, 0, 0, 1), Tile::new(0, 1, 1, 1), Tile::new(0, 1, 2, 1)];
    let coverage = vec![0u8; 32];
    let mut strips = Vec::new();
    let mut alphas = Vec::new();
    render(&tiles, &coverage, &mut strips, &mut alphas, FillRule::EvenOdd, None, None);
    let got: Vec<_> = strips.iter().map(fields).collect();
    assert_eq!(
        got,
        vec![
            (4, 0, 0, false),
            (0xFFFF, 0, 16, true),
            (0, 4, 16, false),
            (0xFFFF, 4, 32, false),
        ]
    );
}

#[test]
fn rendered_strips_keep_the_column_count() {
    let tiles = two_rows();
    let coverage = vec![0u8; 80];
    let mut strips = Vec::new();
    let mut alphas = Vec::new();
    render(&tiles, &coverage, &mut strips, &mut alphas, FillRule::NonZero, None, None);
    // Columns of each strip, from its origin through its last tile.
    let columns = [4u32, 4, 12, 0];
    for k in 0..strips.len() - 1 {
        assert_eq!(strips[k + 1].alpha_idx() - strips[k].alpha_idx(), columns[k] * 4);
        assert!(strips[k].alpha_idx() <= strips[k + 1].alpha_idx());
    }
    assert!(strips.last().unwrap().is_sentinel());
    assert_eq!(strips.iter().filter(|strip| strip.is_sentinel()).count(), 1);
    assert_eq!(strips.last().unwrap().alpha_idx() as usize, alphas.len());
}

#[test]
fn reversing_every_line_gives_the_same_strips() {
    let tiles = two_rows();
    let reversed: Vec<Tile> = tiles
        .iter()
        .map(|tile| Tile::new(tile.x, tile.y, tile.line_idx, -tile.winding))
        .collect();
    let coverage = vec![0u8; 80];
    for rule in [FillRule::NonZero, FillRule::EvenOdd] {
        let mut strips = Vec::new();
        let mut alphas = Vec::new();
        render(&tiles, &coverage, &mut strips, &mut alphas, rule, None, None);
        let mut mirrored = Vec::new();
        let mut mirrored_alphas = Vec::new();
        render(&reversed, &coverage, &mut mirrored, &mut mirrored_alphas, rule, None, None);
        assert_eq!(strips, mirrored);
        assert_eq!(alphas, mirrored_alphas);
    }
}

#[test]
fn render_applies_threshold_and_gamma() {
    let corrector = GammaCorrector::new(255);
    let tiles = vec![Tile::new(0, 0, 0, 0)];
    let mut coverage = vec![0u8; 16];
    coverage[1] = 1;
    coverage[2] = 200;
    let mut strips = Vec::new();
    let mut alphas = Vec::new();
    render(
        &tiles,
        &coverage,
        &mut strips,
        &mut alphas,
        FillRule::NonZero,
        None,
        Some(&corrector),
    );
    assert_eq!(&alphas[..2], &[0, 13]);
    assert_eq!(alphas[2], corrector.correct(200));
    let mut alphas = Vec::new();
    render(
        &tiles,
        &coverage,
        &mut Vec::new(),
        &mut alphas,
        FillRule::NonZero,
        Some(200),
        Some(&corrector),
    );
    assert_eq!(&alphas[..3], &[0, 0, 255]);
}
