use glove_host::normalize::normalize;

fn reference(raw: i32, baseline: i32, max_bend: i32) -> String {
    let base = baseline as f64;
    let range = max_bend as f64 - base;
    let mut value = 0.0;
    if range > 0.0 {
        value = (raw as f64 - base) / range;
        value = value.max(0.0).min(1.0);
    }
    format!("{:.3}", value)
}

fn shown(milli: u16) -> String {
    format!("{}.{:03}", milli / 1000, milli % 1000)
}

#[test]
fn baseline_and_max_bend_are_the_ends() {
    assert_eq!(normalize(50, 50, 150), 0);
    assert_eq!(normalize(150, 50, 150), 1000);
    assert_eq!(normalize(-7, -7, 9), 0);
    assert_eq!(normalize(9, -7, 9), 1000);
}

#[test]
fn readings_outside_the_span_clamp() {
    assert_eq!(normalize(49, 50, 150), 0);
    assert_eq!(normalize(i32::MIN, 50, 150), 0);
    assert_eq!(normalize(151, 50, 150), 1000);
    assert_eq!(normalize(i32::MAX, 50, 150), 1000);
}

#[test]
fn degenerate_calibration_gives_zero() {
    assert_eq!(normalize(80, 100, 100), 0);
    assert_eq!(normalize(80, 150, 50), 0);
    assert_eq!(normalize(i32::MAX, i32::MAX, i32::MIN), 0);
    assert_eq!(normalize(0, 0, 0), 0);
}

#[test]
fn interior_readings_are_rounded_quotients() {
    assert_eq!(normalize(80, 50, 150), 300);
    assert_eq!(normalize(1, 0, 3), 333);
    assert_eq!(normalize(2, 0, 3), 667);
    assert_eq!(normalize(1, 0, 7), 143);
    assert_eq!(normalize(9_996, 0, 10_000), 1000);
    assert_eq!(normalize(4, 0, 10_000), 0);
}

#[test]
fn exact_binary_ties_go_to_even() {
    assert_eq!(normalize(1, 0, 16), 62);
    assert_eq!(normalize(3, 0, 16), 188);
    assert_eq!(normalize(5, 0, 16), 312);
    assert_eq!(normalize(15, 0, 16), 938);
}

#[test]
fn decimal_ties_follow_the_binary_quotient() {
    assert_eq!(shown(normalize(1, 0, 2000)), reference(1, 0, 2000));
    assert_eq!(shown(normalize(3, 0, 2000)), reference(3, 0, 2000));
    assert_eq!(shown(normalize(5, 0, 2000)), reference(5, 0, 2000));
    assert_eq!(shown(normalize(1999, 0, 2000)), reference(1999, 0, 2000));
}

#[test]
fn agrees_with_double_precision_on_small_spans() {
    for range in 1..=260i32 {
        for offset in -1..=range + 1 {
            assert_eq!(
                shown(normalize(offset + 17, 17, range + 17)),
                reference(offset + 17, 17, range + 17),
                "offset {} of {}",
                offset,
                range
            );
        }
    }
}

#[test]
fn agrees_with_double_precision_on_every_tie_of_some_spans() {
    for range in [2000i32, 4000, 6000, 8000, 16_000, 1_000_000, 2_000_000_000] {
        let step = range / 2000;
        for odd in (1..2000).step_by(2) {
            let offset = odd * step;
            assert_eq!(
                shown(normalize(offset, 0, range)),
                reference(offset, 0, range),
                "offset {} of {}",
                offset,
                range
            );
        }
    }
}

#[test]
fn agrees_with_double_precision_across_the_whole_range() {
    let mut seed: u64 = 0x2545_F491_4F6C_DD1D;
    let mut next = move || {
        seed ^= seed << 13;
        seed ^= seed >> 7;
        seed ^= seed << 17;
        (seed >> 16) as u32 as i32
    };
    for _ in 0..20_000 {
        let raw = next();
        let baseline = next();
        let max_bend = next();
        assert_eq!(
            shown(normalize(raw, baseline, max_bend)),
            reference(raw, baseline, max_bend),
            "{} against {}..{}",
            raw,
            baseline,
            max_bend
        );
    }
    for _ in 0..20_000 {
        let baseline = next() >> 12;
        let span = (next() >> 12).abs() + 1;
        let raw = baseline + (next() >> 12).abs() % (span + 1);
        assert_eq!(
            shown(normalize(raw, baseline, baseline + span)),
            reference(raw, baseline, baseline + span),
            "{} against {}..{}",
            raw,
            baseline,
            baseline + span
        );
    }
}
