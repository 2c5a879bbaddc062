use riemann_view::{
    accumulate, area_label, boundaries, compute_frame, floor_div, generate_samples, max_abs_value,
    sample_points, seed_from_text, vertical_extent, Config, ConfigError, Constant, Cubic,
    AreaLabel, Evaluator, Interval, PickMode, ViewTransform, DOMAIN_UNIT, FRACTION_ONE, MIN_EXTENT,
};

const U: i64 = DOMAIN_UNIT;

fn iv(a: i64, b: i64) -> Interval {
    Interval::new(a, b).unwrap()
}

fn config(n: u32, a: i64, b: i64, mode: PickMode, custom: u32, seed: &str, zoom: u32) -> Config {
    Config {
        n,
        interval: Interval { a, b },
        pick_mode: mode,
        custom_pick: custom,
        seed: String::from(seed),
        zoom,
        show_area: true,
        draw_helpers: false,
    }
}

#[test]
fn low_samples_are_the_boundaries() {
    let i = iv(-U, 2 * U);
    let low = sample_points(i, 3, PickMode::Low, 0, &Vec::new()).unwrap();
    assert_eq!(low, vec![-U, 0, U, 2 * U]);
    assert_eq!(low, boundaries(i, 3));
    let i2 = iv(-U, U);
    let low7 = sample_points(i2, 7, PickMode::Low, 0, &Vec::new()).unwrap();
    assert_eq!(low7.len(), 8);
    assert_eq!(low7, boundaries(i2, 7));
}

#[test]
fn high_samples_are_shifted_by_one_width() {
    let i = iv(-U, 2 * U);
    let high = sample_points(i, 3, PickMode::High, 0, &Vec::new()).unwrap();
    assert_eq!(high, vec![0, U, 2 * U, 3 * U]);
    let i2 = iv(0, 10 * U);
    let low = sample_points(i2, 4, PickMode::Low, 0, &Vec::new()).unwrap();
    let high2 = sample_points(i2, 4, PickMode::High, 0, &Vec::new()).unwrap();
    for k in 0..low.len() {
        assert_eq!(high2[k], low[k] + 10 * U / 4);
    }
}

#[test]
fn random_samples_stay_in_their_subintervals() {
    let i = iv(-U, 2 * U);
    let n: u32 = 50;
    let xs = generate_samples(i, n, PickMode::Random, 0, "integrali blin(").unwrap();
    let lows = boundaries(i, n);
    assert_eq!(xs.len(), 51);
    for k in 0..xs.len() {
        assert!(xs[k] >= lows[k]);
        assert!((xs[k] - i.a) as i128 * (n as i128) < (k as i128 + 1) * (i.b - i.a) as i128);
    }
    assert!(xs.iter().zip(lows.iter()).any(|(x, l)| x != l));
}

#[test]
fn random_samples_repeat_for_one_seed() {
    let i = iv(-U, 2 * U);
    let first = generate_samples(i, 40, PickMode::Random, 0, "seed").unwrap();
    let second = generate_samples(i, 40, PickMode::Random, 0, "seed").unwrap();
    assert_eq!(first, second);
    let other = generate_samples(i, 40, PickMode::Random, 0, "another seed").unwrap();
    assert_ne!(first, other);
}

#[test]
fn random_samples_follow_given_draws() {
    let i = iv(0, 4 * U);
    let draws: Vec<u32> = vec![0, FRACTION_ONE / 2, FRACTION_ONE - 1, 250_000, 0];
    let xs = sample_points(i, 4, PickMode::Random, 0, &draws).unwrap();
    assert_eq!(xs, vec![0, U + U / 2, 2 * U + 999_999, 3 * U + U / 4, 4 * U]);
}

#[test]
fn custom_extremes_match_low_and_high() {
    let i = iv(-3 * U, 7 * U + 5);
    let low = sample_points(i, 9, PickMode::Low, 0, &Vec::new()).unwrap();
    let high = sample_points(i, 9, PickMode::High, 0, &Vec::new()).unwrap();
    assert_eq!(sample_points(i, 9, PickMode::Custom, 0, &Vec::new()).unwrap(), low);
    assert_eq!(sample_points(i, 9, PickMode::Custom, FRACTION_ONE, &Vec::new()).unwrap(), high);
    let mid = sample_points(iv(0, 2 * U), 2, PickMode::Custom, FRACTION_ONE / 2, &Vec::new()).unwrap();
    assert_eq!(mid, vec![U / 2, U + U / 2, 2 * U + U / 2]);
}

#[test]
fn area_scales_with_the_function() {
    let xs: Vec<i64> = vec![-U, 0, U, 2 * U];
    let ys: Vec<Option<i64>> = vec![Some(U), Some(0), Some(U), Some(-4 * U)];
    let scaled: Vec<Option<i64>> = ys.iter().map(|y| y.map(|v| v * 3)).collect();
    let base = accumulate(&xs, &ys).total;
    assert_eq!(accumulate(&xs, &scaled).total, 3 * base);
    let negated: Vec<Option<i64>> = ys.iter().map(|y| y.map(|v| -v)).collect();
    assert_eq!(accumulate(&xs, &negated).total, -base);
}

#[test]
fn undefined_samples_give_zero_area() {
    let xs: Vec<i64> = vec![0, U, 2 * U, 3 * U];
    let ys: Vec<Option<i64>> = vec![None, None, None, None];
    let r = accumulate(&xs, &ys);
    assert_eq!(r.total, 0);
    assert_eq!(r.contributions, vec![0, 0, 0]);
    assert_eq!(max_abs_value(&ys), 0);
    assert_eq!(vertical_extent(max_abs_value(&ys)), MIN_EXTENT);
    assert!(MIN_EXTENT > 0);
}

#[test]
fn undefined_samples_are_left_out_of_the_extent() {
    let ys: Vec<Option<i64>> = vec![Some(2), None, Some(-7), None];
    assert_eq!(max_abs_value(&ys), 7);
    assert_eq!(vertical_extent(7), 14);
}

#[test]
fn empty_and_single_sample_sets_give_zero_area() {
    let r = accumulate(&Vec::new(), &Vec::new());
    assert_eq!(r.total, 0);
    assert!(r.contributions.is_empty());
    let r1 = accumulate(&vec![U], &vec![Some(5)]);
    assert_eq!(r1.total, 0);
    assert!(r1.contributions.is_empty());
}

#[test]
fn constant_function_area_is_height_times_width() {
    let c: i64 = 2 * U + 17;
    for n in [10u32, 100, 1000] {
        let cfg = config(n, -U, 2 * U, PickMode::Low, 0, "", 1000);
        let frame = compute_frame(&cfg, &Constant { c }, 1600, 950).unwrap();
        assert_eq!(frame.area.total, c as i128 * (3 * U) as i128);
    }
    let cfg = config(7, -U, U + 3, PickMode::Low, 0, "", 1000);
    let frame = compute_frame(&cfg, &Constant { c: -5 }, 1600, 950).unwrap();
    assert_eq!(frame.area.total, -5 * (2 * U + 3) as i128);
}

#[test]
fn cubic_scenario_on_three_unit_segments() {
    // -x^3 + 2x at -1, 0, 1, 2 is -1, 0, 1, -4.
    let cfg = config(3, -U, 2 * U, PickMode::Low, 0, "integrali blin(", 1000);
    let frame = compute_frame(&cfg, &Cubic, 1600, 950).unwrap();
    assert_eq!(frame.samples, vec![-U, 0, U, 2 * U]);
    assert_eq!(frame.values, vec![Some(-U), Some(0), Some(U), Some(-4 * U)]);
    let unit_sq = (U as i128) * (U as i128);
    assert_eq!(frame.area.contributions, vec![-unit_sq, 0, unit_sq]);
    assert_eq!(frame.area.total, 0);
    assert_eq!(frame.view.extent, 8 * U as u128);
    let gains: Vec<bool> = frame.bars.iter().map(|b| b.gain).collect();
    assert_eq!(gains, vec![false, false, true]);
    assert_eq!(frame.curve.len(), 4);
    assert_eq!(frame.bars.len(), 3);
}

#[test]
fn cubic_values_round_down() {
    assert_eq!(Cubic.evaluate(-U), Some(-U));
    assert_eq!(Cubic.evaluate(U), Some(U));
    assert_eq!(Cubic.evaluate(0), Some(0));
    assert_eq!(Cubic.evaluate(2 * U), Some(-4 * U));
    assert_eq!(Cubic.evaluate(U / 2), Some(875_000));
    assert_eq!(Cubic.evaluate(1), Some(1));
    assert_eq!(Cubic.evaluate(-1), Some(-2));
    assert_eq!(Constant { c: 9 }.evaluate(123), Some(9));
}

#[test]
fn view_scales_fit_the_viewport() {
    let v = ViewTransform::new(iv(-U, 2 * U), 1000, 1600, 950, 4 * U as u64);
    let (sxn, sxd) = v.scale_x();
    let sx = sxn as f64 / sxd as f64;
    assert!((sx - 533.333).abs() < 0.01);
    assert_eq!(v.extent, 8 * U as u128);
    let (syn, syd) = v.scale_y();
    assert_eq!(syn as f64 / syd as f64, 118.75);
    assert_eq!(v.screen_x(-U), -800_000);
    assert_eq!(v.screen_x(2 * U), 800_000);
    assert_eq!(v.origin_offset_x(), -266_667);
    assert_eq!(v.screen_y(4 * U), 475_000);
    assert_eq!(v.screen_y(-4 * U), -475_000);
}

#[test]
fn zoom_narrows_the_view() {
    let v = ViewTransform::new(iv(-U, 2 * U), 2000, 1600, 950, 4 * U as u64);
    assert_eq!(v.screen_x(2 * U), 400_000);
    assert_eq!(v.screen_y(4 * U), 237_500);
}

#[test]
fn seed_is_the_byte_sum() {
    assert_eq!(seed_from_text(""), 0);
    assert_eq!(seed_from_text("ab"), 195);
    assert_eq!(seed_from_text("ba"), 195);
    let expected: u64 = "integrali blin(".bytes().map(|b| b as u64).sum();
    assert_eq!(seed_from_text("integrali blin("), expected);
}

#[test]
fn floor_division_rounds_down() {
    assert_eq!(floor_div(7, 2), 3);
    assert_eq!(floor_div(-7, 2), -4);
    assert_eq!(floor_div(-8, 2), -4);
    assert_eq!(floor_div(0, 5), 0);
}

#[test]
fn interval_errors() {
    assert_eq!(Interval::new(U, U), Err(ConfigError::DegenerateInterval));
    assert_eq!(Interval::new(2 * U, U), Err(ConfigError::DegenerateInterval));
    assert_eq!(Interval::new(-2_000_000_000, 0), Err(ConfigError::OutOfRange));
    assert_eq!(Interval::new(-U, 2 * U), Ok(Interval { a: -U, b: 2 * U }));
}

#[test]
fn sampling_errors() {
    let none: Vec<u32> = Vec::new();
    assert_eq!(sample_points(Interval { a: U, b: U }, 3, PickMode::Low, 0, &none), Err(ConfigError::DegenerateInterval));
    assert_eq!(sample_points(iv(0, U), 0, PickMode::Low, 0, &none), Err(ConfigError::BadPartitionCount));
    assert_eq!(sample_points(iv(0, U), 2001, PickMode::Low, 0, &none), Err(ConfigError::BadPartitionCount));
    assert_eq!(sample_points(iv(0, U), 3, PickMode::Custom, FRACTION_ONE + 1, &none), Err(ConfigError::BadFraction));
    assert_eq!(sample_points(iv(0, U), 3, PickMode::Random, 0, &none), Err(ConfigError::BadDraws));
    assert_eq!(sample_points(iv(0, U), 1, PickMode::Random, 0, &vec![0, FRACTION_ONE]), Err(ConfigError::BadDraws));
    assert_eq!(generate_samples(Interval { a: 3, b: 1 }, 3, PickMode::Random, 0, "x"), Err(ConfigError::DegenerateInterval));
}

#[test]
fn frame_errors() {
    let cfg = config(3, -U, 2 * U, PickMode::Low, 0, "", 0);
    assert_eq!(compute_frame(&cfg, &Cubic, 1600, 950).err(), Some(ConfigError::BadZoom));
    let cfg2 = config(0, -U, 2 * U, PickMode::Low, 0, "", 0);
    assert_eq!(compute_frame(&cfg2, &Cubic, 1600, 950).err(), Some(ConfigError::BadPartitionCount));
}

#[test]
fn bounds_clamp_against_each_other() {
    let i = iv(-U, 2 * U);
    assert_eq!(i.with_lower(5 * U, U / 10), Interval { a: 2 * U - U / 10, b: 2 * U });
    assert_eq!(i.with_lower(-U / 2, U / 10), Interval { a: -U / 2, b: 2 * U });
    assert_eq!(i.with_upper(-3 * U, U / 10), Interval { a: -U, b: -U + U / 10 });
    assert_eq!(i.with_upper(2_000_000_000, U / 10), Interval { a: -U, b: 1_000_000_000 });
}

#[test]
fn helper_ticks_follow_the_view() {
    let v = ViewTransform::new(iv(-U, 2 * U), 1000, 1600, 950, 4 * U as u64);
    let xs = v.x_ticks();
    assert_eq!(xs.len(), 21);
    assert_eq!((xs[0].value, xs[0].pos, xs[0].labelled), (-1_500_000, -1_066_667, true));
    assert_eq!((xs[20].value, xs[20].pos), (1_500_000, 533_333));
    assert!(!xs[1].labelled);
    let ys = v.y_ticks();
    assert_eq!(ys.len(), 20);
    assert_eq!((ys[0].value, ys[0].pos), (-4_000_000, -475_000));
    assert_eq!((ys[10].value, ys[10].pos, ys[10].labelled), (400_000, 47_500, false));
    assert!(ys.iter().all(|t| t.value != 0));
}

#[test]
fn area_label_rounds_to_thousandths() {
    assert_eq!(area_label(2_000_000_000_000), AreaLabel { negative: false, whole: 2, thousandths: 0 });
    assert_eq!(area_label(-1_234_567_890_123), AreaLabel { negative: true, whole: 1, thousandths: 235 });
    assert_eq!(area_label(-400_000_000), AreaLabel { negative: false, whole: 0, thousandths: 0 });
    assert_eq!(area_label(500_000_000), AreaLabel { negative: false, whole: 0, thousandths: 1 });
    assert_eq!(area_label(i128::MIN).negative, true);
}

#[test]
fn listed_values_on_unit_segments_sum_to_two() {
    let xs: Vec<i64> = vec![-U, 0, U, 2 * U];
    let ys: Vec<Option<i64>> = vec![Some(U), Some(0), Some(U), Some(-4 * U)];
    let unit_sq = (U as i128) * (U as i128);
    let r = accumulate(&xs, &ys);
    assert_eq!(r.contributions, vec![unit_sq, 0, unit_sq]);
    assert_eq!(r.total, 2 * unit_sq);
}
