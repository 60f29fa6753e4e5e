use sparse_strips::strip::{FillRule, Strip, StripEmitter, Transition};
use sparse_strips::tile::Tile;

/// A line segment in pixels.
#[derive(Clone, Copy)]
struct Line {
    p0: (f32, f32),
    p1: (f32, f32),
}

/// Accumulates the fractional winding of one tile location, pixel by pixel.
struct Accumulator {
    location: [[f32; 4]; 4],
    accumulated: [f32; 4],
}

impl Accumulator {
    fn new() -> Self {
        Accumulator { location: [[0.0; 4]; 4], accumulated: [0.0; 4] }
    }

    fn coverage(&self, rule: FillRule) -> [u8; 16] {
        let mut out = [0u8; 16];
        for x in 0..4 {
            for y in 0..4 {
                let area = self.location[x][y];
                let value = match rule {
                    FillRule::NonZero => (area.abs() * 255.0 + 0.5).min(255.0),
                    FillRule::EvenOdd => {
                        let im1 = (area * 0.5 + 0.5).floor();
                        let coverage = (-2.0 * im1 + area).abs();
                        (255.0 * coverage + 0.5).min(255.0)
                    }
                };
                out[x * 4 + y] = value as u8;
            }
        }
        out
    }

    fn apply(&mut self, transition: Transition) {
        match transition {
            Transition::SameLocation => {}
            Transition::NextLocation => {
                self.location = [self.accumulated; 4];
            }
            Transition::NextStrip(winding) => {
                self.location = [self.accumulated; 4];
                self.accumulated = [winding as f32; 4];
            }
            Transition::NextRow => {
                self.accumulated = [0.0; 4];
                self.location = [self.accumulated; 4];
            }
        }
    }

    fn add_line(&mut self, tile: Tile, line: Line) {
        let tile_left_x = f32::from(tile.x) * 4.0;
        let tile_top_y = f32::from(tile.y) * 4.0;
        let p0_x = line.p0.0 - tile_left_x;
        let p0_y = line.p0.1 - tile_top_y;
        let p1_x = line.p1.0 - tile_left_x;
        let p1_y = line.p1.1 - tile_top_y;
        if p0_y == p1_y {
            return;
        }
        let sign = (p0_y - p1_y).signum();
        let (line_top_y, line_top_x, line_bottom_y, line_bottom_x) =
            if p0_y < p1_y { (p0_y, p0_x, p1_y, p1_x) } else { (p1_y, p1_x, p0_y, p0_x) };
        let (line_left_x, line_left_y, line_right_x) =
            if p0_x < p1_x { (p0_x, p0_y, p1_x) } else { (p1_x, p1_y, p0_x) };
        let y_slope = (line_bottom_y - line_top_y) / (line_bottom_x - line_top_x);
        let x_slope = 1.0 / y_slope;

        if tile.x == 0 && line_left_x < 0.0 {
            let (ymin, ymax) = if line.p0.0 == line.p1.0 {
                (line_top_y, line_bottom_y)
            } else {
                let line_viewport_left_y =
                    (line_top_y - line_top_x * y_slope).max(line_top_y).min(line_bottom_y);
                (
                    f32::min(line_left_y, line_viewport_left_y),
                    f32::max(line_left_y, line_viewport_left_y),
                )
            };
            for y in 0..4 {
                let px_top_y = y as f32;
                let h = ((px_top_y + 1.0).min(ymax) - px_top_y.max(ymin)).max(0.0);
                self.accumulated[y] += h * sign;
                for x in 0..4 {
                    self.location[x][y] += h * sign;
                }
            }
            if line_right_x < 0.0 {
                return;
            }
        }

        for y in 0..4 {
            let px_top_y = y as f32;
            let ymin = line_top_y.max(px_top_y);
            let ymax = line_bottom_y.min(px_top_y + 1.0);
            let mut acc = 0.0f32;
            for x in 0..4 {
                let px_left_x = x as f32;
                let px_right_x = 1.0 + px_left_x;
                let line_px_left_y =
                    ((px_left_x - line_top_x) * y_slope + line_top_y).max(ymin).min(ymax);
                let line_px_right_y =
                    ((px_right_x - line_top_x) * y_slope + line_top_y).max(ymin).min(ymax);
                let line_px_left_yx = (line_px_left_y - line_top_y) * x_slope + line_top_x;
                let line_px_right_yx = (line_px_right_y - line_top_y) * x_slope + line_top_x;
                let h = (line_px_right_y - line_px_left_y).abs();
                let area = 0.5 * h * (2.0 * px_right_x - line_px_right_yx - line_px_left_yx);
                self.location[x][y] += area * sign + acc;
                acc += h * sign;
            }
            self.accumulated[y] += acc;
        }
    }
}

/// The tiles that a line passes through, with the signed crossing of their
/// top edge.
fn tiles_of(line_idx: u32, line: Line, width: u16, height: u16, tiles: &mut Vec<(Tile, Line)>) {
    let (x0, x1) = (line.p0.0.min(line.p1.0), line.p0.0.max(line.p1.0));
    let (y0, y1) = (line.p0.1.min(line.p1.1), line.p0.1.max(line.p1.1));
    let sign: i8 = if line.p0.1 > line.p1.1 {
        1
    } else if line.p0.1 < line.p1.1 {
        -1
    } else {
        0
    };
    let last_col = ((width - 1) / 4) as i32;
    let last_row = ((height - 1) / 4) as i32;
    let rows = ((y0 / 4.0).floor() as i32).max(0)..=((y1 / 4.0).floor() as i32).min(last_row);
    for row in rows {
        let first_col = ((x0 / 4.0).floor() as i32).clamp(0, last_col);
        let cols = first_col..=((x1 / 4.0).floor() as i32).clamp(0, last_col);
        for col in cols {
            let top = row as f32 * 4.0;
            let crosses = y0 < top && top <= y1;
            let winding = if crosses { sign } else { 0 };
            tiles.push((Tile::new(col as u16, row as u16, line_idx, winding), line));
        }
    }
}

/// Renders axis-aligned lines into strips and coverage.
fn rasterize(lines: &[Line], width: u16, height: u16, rule: FillRule) -> (Vec<Strip>, Vec<u8>) {
    let mut tiles = Vec::new();
    for (i, line) in lines.iter().enumerate() {
        tiles_of(i as u32, *line, width, height, &mut tiles);
    }
    tiles.sort_by_key(|(tile, _)| (tile.y, tile.x));
    let mut accumulator = Accumulator::new();
    let mut emitter = StripEmitter::new(tiles[0].0, Vec::new(), Vec::new(), rule, None);
    for (tile, line) in &tiles {
        assert!(emitter.can_advance(*tile));
        let coverage =
            if emitter.leaves_location(*tile) { accumulator.coverage(rule) } else { [0; 16] };
        let transition = emitter.advance(*tile, &coverage, None);
        accumulator.apply(transition);
        accumulator.add_line(*tile, *line);
    }
    assert!(emitter.can_finish());
    emitter.finish(&accumulator.coverage(rule), None)
}

/// The coverage of a pixel as the strips and the alpha buffer give it.
fn alpha_at(strips: &[Strip], alphas: &[u8], x: u16, y: u16) -> u8 {
    for k in 0..strips.len() {
        let strip = &strips[k];
        if strip.y != y / 4 * 4 {
            continue;
        }
        if !strip.is_sentinel() {
            let columns = ((strips[k + 1].alpha_idx() - strip.alpha_idx()) / 4) as u16;
            if x >= strip.x && x < strip.x + columns {
                let at = strip.alpha_idx() as usize + ((x - strip.x) * 4 + y % 4) as usize;
                return alphas[at];
            }
        }
        let gap_start = if k > 0 && strips[k - 1].y == strip.y && !strips[k - 1].is_sentinel() {
            let before = &strips[k - 1];
            before.x + ((strip.alpha_idx() - before.alpha_idx()) / 4) as u16
        } else {
            0
        };
        if strip.fill_gap() && x >= gap_start && x < strip.x {
            return 255;
        }
    }
    0
}

fn rectangle(x0: f32, y0: f32, x1: f32, y1: f32) -> Vec<Line> {
    vec![
        Line { p0: (x0, y0), p1: (x1, y0) },
        Line { p0: (x1, y0), p1: (x1, y1) },
        Line { p0: (x1, y1), p1: (x0, y1) },
        Line { p0: (x0, y1), p1: (x0, y0) },
    ]
}

#[test]
fn axis_aligned_square_is_covered_exactly() {
    for rule in [FillRule::NonZero, FillRule::EvenOdd] {
        let (strips, alphas) = rasterize(&rectangle(10.0, 30.0, 50.0, 70.0), 100, 100, rule);
        for y in 0..100u16 {
            for x in 0..100u16 {
                let inside = (10..50).contains(&x) && (30..70).contains(&y);
                let expected = if inside { 255 } else { 0 };
                assert_eq!(alpha_at(&strips, &alphas, x, y), expected, "pixel ({}, {})", x, y);
            }
        }
        for pair in strips.windows(2) {
            assert!(pair[0].alpha_idx() <= pair[1].alpha_idx());
        }
        assert!(strips.last().unwrap().is_sentinel());
        assert_eq!(strips.last().unwrap().alpha_idx() as usize, alphas.len());
    }
}

#[test]
fn square_drawn_backwards_has_the_same_coverage() {
    let forward = rectangle(10.0, 30.0, 50.0, 70.0);
    let backward: Vec<Line> =
        forward.iter().rev().map(|line| Line { p0: line.p1, p1: line.p0 }).collect();
    for rule in [FillRule::NonZero, FillRule::EvenOdd] {
        let (strips, alphas) = rasterize(&forward, 100, 100, rule);
        let (mirrored, mirrored_alphas) = rasterize(&backward, 100, 100, rule);
        for y in 0..100u16 {
            for x in 0..100u16 {
                assert_eq!(
                    alpha_at(&strips, &alphas, x, y),
                    alpha_at(&mirrored, &mirrored_alphas, x, y)
                );
            }
        }
    }
}

#[test]
fn vertical_edges_on_pixel_boundaries() {
    let (strips, alphas) = rasterize(&rectangle(49.5, 0.0, 51.0, 100.0), 100, 100, FillRule::NonZero);
    for y in 0..100u16 {
        assert_eq!(alpha_at(&strips, &alphas, 48, y), 0, "row {}", y);
        assert_eq!(alpha_at(&strips, &alphas, 49, y), 128, "row {}", y);
        assert_eq!(alpha_at(&strips, &alphas, 50, y), 255, "row {}", y);
        assert_eq!(alpha_at(&strips, &alphas, 51, y), 0, "row {}", y);
    }
}

#[test]
fn square_within_a_square_is_a_hole_under_even_odd() {
    let mut lines = rectangle(8.0, 8.0, 40.0, 40.0);
    lines.extend(rectangle(16.0, 16.0, 32.0, 32.0));
    let (strips, alphas) = rasterize(&lines, 48, 48, FillRule::EvenOdd);
    let (solid, solid_alphas) = rasterize(&lines, 48, 48, FillRule::NonZero);
    for y in 0..48u16 {
        for x in 0..48u16 {
            let outer = (8..40).contains(&x) && (8..40).contains(&y);
            let inner = (16..32).contains(&x) && (16..32).contains(&y);
            let expected = if outer && !inner { 255 } else { 0 };
            assert_eq!(alpha_at(&strips, &alphas, x, y), expected, "pixel ({}, {})", x, y);
            let expected = if outer { 255 } else { 0 };
            assert_eq!(alpha_at(&solid, &solid_alphas, x, y), expected, "pixel ({}, {})", x, y);
        }
    }
}

#[test]
fn half_covered_pixels_get_half_alpha() {
    let (strips, alphas) = rasterize(&rectangle(1.5, 0.5, 6.25, 3.0), 8, 4, FillRule::NonZero);
    assert_eq!(alpha_at(&strips, &alphas, 0, 1), 0);
    assert_eq!(alpha_at(&strips, &alphas, 1, 1), 128);
    assert_eq!(alpha_at(&strips, &alphas, 2, 1), 255);
    assert_eq!(alpha_at(&strips, &alphas, 5, 1), 255);
    assert_eq!(alpha_at(&strips, &alphas, 6, 1), 64);
    assert_eq!(alpha_at(&strips, &alphas, 7, 1), 0);
    assert_eq!(alpha_at(&strips, &alphas, 2, 0), 128);
    assert_eq!(alpha_at(&strips, &alphas, 1, 0), 64);
    assert_eq!(alpha_at(&strips, &alphas, 2, 3), 0);
}

#[test]
fn shape_cut_by_the_left_edge_of_the_viewport() {
    let (strips, alphas) = rasterize(&rectangle(-3.0, 1.0, 2.0, 3.0), 8, 4, FillRule::NonZero);
    for y in 0..4u16 {
        for x in 0..8u16 {
            let inside = x < 2 && (1..3).contains(&y);
            let expected = if inside { 255 } else { 0 };
            assert_eq!(alpha_at(&strips, &alphas, x, y), expected, "pixel ({}, {})", x, y);
        }
    }
}

#[test]
fn slanted_edge_covers_pixels_by_area() {
    // A triangle with corners (0, 0), (4, 0) and (0, 4): the slanted edge
    // halves the pixels on the diagonal.
    let lines = vec![
        Line { p0: (0.0, 0.0), p1: (4.0, 0.0) },
        Line { p0: (4.0, 0.0), p1: (0.0, 4.0) },
        Line { p0: (0.0, 4.0), p1: (0.0, 0.0) },
    ];
    let (strips, alphas) = rasterize(&lines, 4, 4, FillRule::NonZero);
    for y in 0..4u16 {
        for x in 0..4u16 {
            let expected = if x + y < 3 {
                255
            } else if x + y == 3 {
                128
            } else {
                0
            };
            assert_eq!(alpha_at(&strips, &alphas, x, y), expected, "pixel ({}, {})", x, y);
        }
    }
}
