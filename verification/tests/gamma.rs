use sparse_strips::gamma::GammaCorrector;

/// The corrected alpha computed in floating point.
fn expected_alpha(luminance: u8, alpha: u8) -> u8 {
    fn srgb_to_linear(x: f64) -> f64 {
        if x <= 0.04045 {
            x / 12.92
        } else {
            ((x + 0.055) / 1.055).powf(2.4)
        }
    }
    fn linear_to_srgb(x: f64) -> f64 {
        if x <= 0.0031308 {
            x * 12.92
        } else {
            1.055 * x.powf(1.0 / 2.4) - 0.055
        }
    }

    let src = luminance as f64 / 255.0;
    let dst = 1.0 - src;
    let a = alpha as f64 / 255.0;

    if alpha == 0 {
        return 0;
    }
    if alpha == 255 {
        return 255;
    }

    let diff = src - dst;
    if diff.abs() < 0.004 {
        return alpha;
    }

    let lin_src = srgb_to_linear(src);
    let lin_dst = srgb_to_linear(dst);
    let lin_blend = lin_src * a + lin_dst * (1.0 - a);
    let srgb_blend = linear_to_srgb(lin_blend);
    let corrected = (srgb_blend - dst) / diff;

    (corrected.clamp(0.0, 1.0) * 255.0 + 0.5) as u8
}

#[test]
fn fixed_point_anchor_index_is_correct() {
    const ANCHORS: [u8; 8] = [0, 36, 72, 109, 145, 182, 218, 255];

    for luminance in 0..=255u8 {
        let fixed_point_idx = GammaCorrector::find_anchor_index(luminance);

        let expected_idx = ANCHORS
            .iter()
            .enumerate()
            .filter(|&(_, anchor)| *anchor <= luminance)
            .map(|(i, _)| i)
            .last()
            .unwrap();

        assert_eq!(
            fixed_point_idx, expected_idx,
            "Fixed-point index {} != expected {} for luminance {}",
            fixed_point_idx, expected_idx, luminance
        );
    }
}

#[test]
fn interpolation_error_is_at_most_two() {
    const MAX_ALLOWED_ERROR: i16 = 2;

    let mut max_error_seen: i16 = 0;
    let mut worst_case = (0u8, 0u8, 0i16);

    for lum in 0..=255u8 {
        let corrector = GammaCorrector::new(lum);
        for alpha in 0..=255u8 {
            let actual = corrector.correct(alpha) as i16;
            let expected = expected_alpha(lum, alpha) as i16;

            let error = (actual - expected).abs();
            if error > max_error_seen {
                max_error_seen = error;
                worst_case = (lum, alpha, error);
            }
        }
    }

    assert!(
        max_error_seen <= MAX_ALLOWED_ERROR,
        "Interpolation error {} exceeds maximum allowed {} at lum={}, alpha={}",
        worst_case.2,
        MAX_ALLOWED_ERROR,
        worst_case.0,
        worst_case.1
    );
}

#[test]
fn anchor_index_is_floor_of_scaled_luminance() {
    for luminance in 0..=255u32 {
        let index = GammaCorrector::find_anchor_index(luminance as u8);
        assert_eq!(index as u32, (7 * luminance + 6) / 255);
        if ![36, 72, 109, 145, 182, 218].contains(&luminance) {
            assert_eq!(index as u32, (7 * luminance) / 255);
        }
    }
    assert_eq!(GammaCorrector::find_anchor_index(35), 0);
    assert_eq!(GammaCorrector::find_anchor_index(36), 1);
    assert_eq!(GammaCorrector::find_anchor_index(254), 6);
    assert_eq!(GammaCorrector::find_anchor_index(255), 7);
}

#[test]
fn every_table_maps_the_ends_to_themselves() {
    for luminance in 0..=255u8 {
        let corrector = GammaCorrector::new(luminance);
        assert_eq!(corrector.correct(0), 0);
        assert_eq!(corrector.correct(255), 255);
    }
}

#[test]
fn every_table_is_monotonic() {
    for luminance in 0..=255u8 {
        let corrector = GammaCorrector::new(luminance);
        for alpha in 0..255u8 {
            assert!(
                corrector.correct(alpha) <= corrector.correct(alpha + 1),
                "table of luminance {} decreases at {}",
                luminance,
                alpha
            );
        }
    }
}

#[test]
fn gamma_round_trip_at_mid_luminance() {
    let corrector = GammaCorrector::new(128);
    assert_eq!(corrector.correct(0), 0);
    assert_eq!(corrector.correct(255), 255);
    for alpha in 0..=255u8 {
        let error = (corrector.correct(alpha) as i16 - expected_alpha(128, alpha) as i16).abs();
        assert!(error <= 2, "error {} at alpha {}", error, alpha);
    }
}

#[test]
fn anchor_luminance_copies_the_anchor_table() {
    assert_eq!(GammaCorrector::new(0).correct(2), 1);
    assert_eq!(GammaCorrector::new(0).correct(128), 68);
    assert_eq!(GammaCorrector::new(36).correct(128), 79);
    assert_eq!(GammaCorrector::new(36).correct(200), 147);
    assert_eq!(GammaCorrector::new(109).correct(50), 43);
    assert_eq!(GammaCorrector::new(109).correct(128), 116);
    assert_eq!(GammaCorrector::new(255).correct(1), 13);
}

#[test]
fn luminance_between_anchors_blends_the_two_tables() {
    // Luminance 18 lies halfway between the anchors 0 and 36: the weight of
    // the upper table is 18 * 255 / 36 = 127.
    assert_eq!((68 * (255 - 127) + 79 * 127 + 127) / 255, 73);
    assert_eq!(GammaCorrector::new(18).correct(128), 73);
    // Luminance 128 lies between the anchors 109 and 145, with weight
    // 19 * 255 / 36 = 134.
    assert_eq!((116 * (255 - 134) + 139 * 134 + 127) / 255, 128);
    assert_eq!(GammaCorrector::new(128).correct(128), 128);
    assert_eq!(GammaCorrector::new(128).correct(1), 1);
    assert_eq!(GammaCorrector::new(128).correct(64), 65);
    assert_eq!(GammaCorrector::new(200).correct(100), 143);
}

#[test]
fn update_rebuilds_the_table_only_for_another_luminance() {
    let mut corrector = GammaCorrector::new(0);
    assert_eq!(corrector.correct(128), 68);
    corrector.update_if_needed(0);
    assert_eq!(corrector.correct(128), 68);
    corrector.update_if_needed(36);
    assert_eq!(corrector.correct(128), 79);
    corrector.update_if_needed(18);
    assert_eq!(corrector.correct(128), 73);
    let fresh = GammaCorrector::new(18);
    for alpha in 0..=255u8 {
        assert_eq!(corrector.correct(alpha), fresh.correct(alpha));
    }
}
