use mtfg::aggregate::{align_tracks, complete_slot, SlotCollector, SlotOutcome};
use mtfg::config::{validate_config, ConfigError};
use mtfg::funscript::{frame_time_ms, Funscript, FunscriptAction};
use mtfg::geometry::{BoundingBox, CenterPoint};
use mtfg::interpolate::{interpolate_score, resample_domain};
use mtfg::rate::FrameRate;
use mtfg::signal::Sample;
use mtfg::simplify::rdp;
use mtfg::trajectories::TrackingTrajectories;

fn bx(x: i32, y: i32, w: i32, h: i32) -> BoundingBox {
    BoundingBox::new(x, y, w, h)
}

fn ys(s: &[Sample]) -> Vec<i64> {
    s.iter().map(|p| p.y).collect()
}

fn xs(s: &[Sample]) -> Vec<i64> {
    s.iter().map(|p| p.x).collect()
}

#[test]
fn center_of_box() {
    assert_eq!(bx(10, 20, 4, 6).center(), CenterPoint { x: 12, y: 23 });
    assert_eq!(bx(10, 20, 5, 7).center(), CenterPoint { x: 12, y: 23 });
    assert_eq!(bx(0, 0, -3, -3).center(), CenterPoint { x: -1, y: -1 });
}

#[test]
fn single_subject_signal_is_height_above_lowest() {
    let tracks = vec![vec![bx(0, 10, 2, 2), bx(0, 20, 2, 2)]];
    let slots = align_tracks(&tracks);
    assert_eq!(slots.len(), 2);
    let t = TrackingTrajectories::new(1, 1, slots);
    let signal = t.get_y_diff().unwrap();
    assert_eq!(ys(&signal), vec![0, 10]);
    assert_eq!(xs(&signal), vec![1, 2]);
}

#[test]
fn two_subject_signal_is_relative_displacement() {
    let slots = vec![
        vec![bx(0, 50, 2, 2), bx(0, 10, 2, 2)],
        vec![bx(0, 30, 2, 2), bx(0, 40, 2, 2)],
    ];
    let t = TrackingTrajectories::new(3, 2, slots);
    let signal = t.get_y_diff().unwrap();
    assert_eq!(ys(&signal), vec![40, -10]);
    assert_eq!(xs(&signal), vec![3, 6]);
}

#[test]
fn bad_subject_count_or_step_is_config_error() {
    let slots = vec![vec![bx(0, 1, 2, 2), bx(0, 1, 2, 2), bx(0, 1, 2, 2)]];
    let t = TrackingTrajectories::new(1, 3, slots.clone());
    assert_eq!(t.get_y_diff(), Err(ConfigError::InvalidSubjectCount));
    let t = TrackingTrajectories::new(0, 1, slots);
    assert_eq!(t.get_y_diff(), Err(ConfigError::InvalidStep));
}

#[test]
fn config_validation() {
    assert_eq!(validate_config(1, 1, 1), Ok(()));
    assert_eq!(validate_config(2, 2, 2), Ok(()));
    assert_eq!(validate_config(0, 1, 1), Err(ConfigError::InvalidStep));
    assert_eq!(validate_config(1, 0, 1), Err(ConfigError::InvalidPreviewStep));
    assert_eq!(validate_config(1, 1, 0), Err(ConfigError::InvalidSubjectCount));
    assert_eq!(validate_config(1, 1, 3), Err(ConfigError::InvalidSubjectCount));
    assert!(!ConfigError::InvalidStep.message().is_empty());
}

#[test]
fn aggregator_truncates_at_shortest_track() {
    let tracks = vec![
        vec![bx(0, 1, 2, 2), bx(0, 2, 2, 2), bx(0, 3, 2, 2)],
        vec![bx(5, 1, 2, 2), bx(5, 2, 2, 2)],
    ];
    let slots = align_tracks(&tracks);
    assert_eq!(slots.len(), 2);
    assert_eq!(slots[1], vec![bx(0, 2, 2, 2), bx(5, 2, 2, 2)]);
    assert!(align_tracks(&vec![]).is_empty());
}

#[test]
fn slot_needs_every_worker() {
    assert_eq!(complete_slot(vec![Some(bx(1, 2, 3, 4)), Some(bx(5, 6, 7, 8))]),
        Some(vec![bx(1, 2, 3, 4), bx(5, 6, 7, 8)]));
    assert_eq!(complete_slot(vec![Some(bx(1, 2, 3, 4)), None]), None);
}

#[test]
fn slot_collector_stops_at_first_gap() {
    let mut c = SlotCollector::new(2);
    assert_eq!(c.push_slot(vec![Some(bx(0, 1, 2, 2))]), SlotOutcome::Stored { preview: true });
    assert_eq!(c.push_slot(vec![Some(bx(0, 2, 2, 2))]), SlotOutcome::Stored { preview: false });
    assert_eq!(c.push_slot(vec![Some(bx(0, 3, 2, 2))]), SlotOutcome::Stored { preview: true });
    assert_eq!(c.push_slot(vec![None]), SlotOutcome::Truncated);
    assert_eq!(c.push_slot(vec![Some(bx(0, 4, 2, 2))]), SlotOutcome::Truncated);
    assert_eq!(c.records.len(), 3);
}

#[test]
fn normalizer_hits_both_bounds() {
    let s = vec![Sample::new(1, 5), Sample::new(2, 15), Sample::new(3, 10), Sample::new(4, 7)];
    let r = TrackingTrajectories::scale_y(s, None, None);
    assert_eq!(ys(&r), vec![0, 100, 50, 20]);
    assert_eq!(xs(&r), vec![1, 2, 3, 4]);
    assert_eq!(*ys(&r).iter().min().unwrap(), 0);
    assert_eq!(*ys(&r).iter().max().unwrap(), 100);
}

#[test]
fn normalizer_custom_and_inverted_bounds() {
    let s = vec![Sample::new(1, 0), Sample::new(2, 3), Sample::new(3, 9)];
    assert_eq!(ys(&TrackingTrajectories::scale_y(s.clone(), Some(10), Some(20))), vec![10, 13, 20]);
    assert_eq!(ys(&TrackingTrajectories::scale_y(s, Some(100), Some(0))), vec![100, 66, 0]);
}

#[test]
fn normalizer_flattens_constant_signal() {
    let s = vec![Sample::new(1, 42), Sample::new(2, 42), Sample::new(3, 42)];
    assert_eq!(ys(&TrackingTrajectories::scale_y(s, Some(7), Some(100))), vec![7, 7, 7]);
    assert!(TrackingTrajectories::scale_y(vec![], None, None).is_empty());
}

#[test]
fn resampler_fills_every_frame() {
    let raw = vec![Sample::new(2, 0), Sample::new(4, 100), Sample::new(6, 40)];
    let frames = resample_domain(&raw, 2).unwrap();
    assert_eq!(frames, vec![2, 3, 4, 5, 6]);
    let curve = vec![0, 60, 100, 70, 40];
    let out = interpolate_score(raw.clone(), 2, &curve);
    assert_eq!(out.len(), 5);
    assert_eq!(xs(&out), vec![2, 3, 4, 5, 6]);
    assert_eq!(ys(&out), curve);
    for p in &raw {
        assert!(out.iter().any(|q| q.x == p.x));
    }
}

#[test]
fn resampler_is_identity_without_decimation() {
    let raw = vec![Sample::new(1, 3), Sample::new(2, 9)];
    assert_eq!(resample_domain(&raw, 1), None);
    assert_eq!(interpolate_score(raw.clone(), 1, &vec![]), raw);
    let one = vec![Sample::new(2, 3)];
    assert_eq!(resample_domain(&one, 4), None);
    assert_eq!(interpolate_score(one.clone(), 4, &vec![]), one);
}

#[test]
fn monotone_spline_stays_within_control_values() {
    let raw = vec![Sample::new(2, 0), Sample::new(4, 100), Sample::new(6, 90), Sample::new(8, 0)];
    let frames = resample_domain(&raw, 2).unwrap();
    let x: Vec<f64> = raw.iter().map(|p| p.x as f64).collect();
    let y: Vec<f64> = raw.iter().map(|p| p.y as f64).collect();
    let mut spline = mentat::MonotonicCubicSpline::new(&x, &y);
    let curve: Vec<i64> = frames.iter().map(|f| spline.interpolate(*f as f64) as i64).collect();
    let out = interpolate_score(raw.clone(), 2, &curve);
    assert_eq!(out.len(), 7);
    for w in raw.windows(2) {
        let (lo, hi) = (w[0].y.min(w[1].y), w[0].y.max(w[1].y));
        for p in out.iter().filter(|p| p.x >= w[0].x && p.x <= w[1].x) {
            assert!(p.y >= lo && p.y <= hi, "{:?} outside [{lo}, {hi}]", p);
        }
    }
}

#[test]
fn simplifier_keeps_far_points() {
    let s = vec![Sample::new(0, 0), Sample::new(1, 5), Sample::new(2, 0)];
    assert_eq!(rdp(s.clone(), 1000), s);
    assert_eq!(xs(&rdp(s.clone(), 6000)), vec![0, 2]);
}

#[test]
fn simplifier_splits_at_farthest_point() {
    let s = vec![Sample::new(0, 0), Sample::new(1, 5), Sample::new(2, -9), Sample::new(3, 3), Sample::new(4, 0)];
    assert_eq!(xs(&rdp(s, 10_000)), vec![0, 4]);
    let s = vec![Sample::new(0, 0), Sample::new(1, 5), Sample::new(2, -11), Sample::new(3, 3), Sample::new(4, 0)];
    assert_eq!(xs(&rdp(s, 10_000)), vec![0, 2, 4]);
}

#[test]
fn simplifier_tolerance_floor_keeps_everything() {
    let s: Vec<Sample> = (0..6).map(|i| Sample::new(i, i * i)).collect();
    assert_eq!(rdp(s.clone(), 0), s);
    assert_eq!(rdp(s.clone(), 10), s);
    assert!(rdp(vec![], 500).is_empty());
    assert_eq!(rdp(vec![Sample::new(3, 4)], 500), vec![Sample::new(3, 4)]);
}

#[test]
fn simplifier_drops_collinear_points() {
    let s: Vec<Sample> = (0..10).map(|i| Sample::new(i, 2 * i)).collect();
    assert_eq!(rdp(s.clone(), 11), vec![Sample::new(0, 0), Sample::new(9, 18)]);
    assert_eq!(rdp(s.clone(), 0).len(), 10);
}

#[test]
fn simplifier_twice_is_simplifier_once() {
    let s: Vec<Sample> = [0, 5, 30, 80, 100, 90, 40, 45, 10, 0, 3, 60]
        .iter()
        .enumerate()
        .map(|(i, y)| Sample::new(i as i64 * 3, *y))
        .collect();
    for eps in [0, 1000, 4500, 12_000, 40_000] {
        let once = rdp(s.clone(), eps);
        let twice = rdp(once.clone(), eps);
        assert_eq!(once, twice, "epsilon {eps}");
        assert!(once.len() <= s.len());
        assert_eq!(once.first(), s.first());
        assert_eq!(once.last(), s.last());
    }
}

#[test]
fn simplifier_keeps_every_point_beyond_tolerance() {
    let s: Vec<Sample> = [0, 10, 35, 70, 100, 80, 50, 20, 5, 0]
        .iter()
        .enumerate()
        .map(|(i, y)| Sample::new(i as i64 * 3, *y))
        .collect();
    assert_eq!(xs(&rdp(s.clone(), 1000)), vec![0, 3, 12, 21, 24, 27]);
    assert_eq!(xs(&rdp(s, 40_000)), vec![0, 12, 27]);
}

#[test]
fn emitter_times_and_positions() {
    let fps = FrameRate::new(30, 1);
    let f = Funscript::new(fps, 500, vec![Sample::new(0, 0), Sample::new(3, 100), Sample::new(30, 55)]);
    assert_eq!(f.content.version, "1.0");
    assert!(!f.content.inverted);
    assert_eq!(f.content.range, 90);
    assert_eq!(f.content.fps, Some(fps));
    assert_eq!(f.content.actions, vec![
        FunscriptAction { pos: 0, at: 500 },
        FunscriptAction { pos: 100, at: 600 },
        FunscriptAction { pos: 55, at: 1500 },
    ]);
}

#[test]
fn emitter_fractional_rate_and_saturation() {
    let ntsc = FrameRate::new(30000, 1001);
    assert_eq!(frame_time_ms(0, ntsc, 1), 33);
    assert_eq!(frame_time_ms(0, ntsc, 30000), 1_001_000);
    assert_eq!(frame_time_ms(10, FrameRate::new(1, 1), 5_000_000), u32::MAX);
}

#[test]
fn end_to_end_three_frames() {
    let tracks = vec![vec![bx(0, 95, 10, 10), bx(0, 145, 10, 10), bx(0, 95, 10, 10)]];
    let slots = align_tracks(&tracks);
    let t = TrackingTrajectories::new(1, 1, slots);
    let signal = t.get_y_diff().unwrap();
    assert_eq!(ys(&signal), vec![0, 50, 0]);
    let normalized = TrackingTrajectories::scale_y(signal, Some(0), Some(100));
    assert_eq!(ys(&normalized), vec![0, 100, 0]);
    let interpolated = interpolate_score(normalized.clone(), 1, &vec![]);
    assert_eq!(interpolated, normalized);
    let simplified = rdp(interpolated, 10);
    assert_eq!(simplified.len(), 3);
    let fps = FrameRate::new(25, 1);
    let start: u32 = 1000;
    let f = Funscript::new(fps, start, simplified.clone());
    let ats: Vec<u32> = f.content.actions.iter().map(|a| a.at).collect();
    assert_eq!(ats, vec![1040, 1080, 1120]);
    for (a, p) in f.content.actions.iter().zip(simplified.iter()) {
        assert_eq!(a.at as i64, 1000 / 25 * p.x + start as i64);
        assert_eq!(a.pos as i64, p.y);
    }
    assert!(ats.windows(2).all(|w| w[0] < w[1]));
}

#[test]
fn resampler_clamps_overshoot_and_keeps_control_values() {
    let raw = vec![Sample::new(0, 0), Sample::new(4, 100), Sample::new(8, 90)];
    let curve = vec![-7, 30, 60, 95, 120, 106, 101, 89, 93];
    let out = interpolate_score(raw, 3, &curve);
    assert_eq!(xs(&out), (0..9).collect::<Vec<i64>>());
    assert_eq!(ys(&out), vec![0, 30, 60, 95, 100, 100, 100, 90, 90]);
}

#[test]
fn normalizer_rounds_toward_zero() {
    let s = vec![Sample::new(1, 0), Sample::new(2, 1), Sample::new(3, 3)];
    assert_eq!(ys(&TrackingTrajectories::scale_y(s.clone(), Some(100), Some(0))), vec![100, 66, 0]);
    assert_eq!(ys(&TrackingTrajectories::scale_y(s, Some(-10), Some(10))), vec![-10, -3, 10]);
}

#[test]
fn signal_ends_before_first_incomplete_slot() {
    let slots = vec![
        vec![bx(0, 50, 2, 2), bx(0, 10, 2, 2)],
        vec![bx(0, 30, 2, 2), bx(0, 40, 2, 2)],
        vec![bx(0, 30, 2, 2)],
        vec![bx(0, 20, 2, 2), bx(0, 40, 2, 2)],
    ];
    let signal = TrackingTrajectories::new(1, 2, slots).get_y_diff().unwrap();
    assert_eq!(ys(&signal), vec![40, -10]);
    let signal = TrackingTrajectories::new(1, 1, vec![vec![], vec![bx(0, 5, 2, 2)]]).get_y_diff().unwrap();
    assert!(signal.is_empty());
}

#[test]
fn simplifier_takes_full_i32_range() {
    let top = i32::MAX as i64;
    let bottom = i32::MIN as i64;
    let s = vec![Sample::new(bottom, bottom), Sample::new(0, top), Sample::new(top, bottom)];
    assert_eq!(rdp(s.clone(), u32::MAX), s);
    let s = vec![Sample::new(bottom, bottom), Sample::new(0, bottom + 1000), Sample::new(top, bottom)];
    assert_eq!(rdp(s.clone(), 1_000_000), vec![s[0], s[2]]);
    assert_eq!(rdp(s.clone(), 999_999), s);
    let near = vec![Sample::new(0, 0), Sample::new(1, 1), Sample::new(2, 0)];
    assert_eq!(rdp(near.clone(), 1000), vec![near[0], near[2]]);
    assert_eq!(rdp(near.clone(), 999), near);
}
