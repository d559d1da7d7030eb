use choreo_flip::json::JsonValue;
use choreo_flip::chor::{
    field_x, field_y, flip_document, flip_xaxis, flip_yaxis, ChoreoConstraint,
    ChoreoConstraintData, ChoreoData, ChoreoParams, ChoreoSWaypoint, ChoreoSample,
    ChoreoSnapshotData, ChoreoTraj, ChoreoValue, ChoreoWaypoint, ChoreoWaypointName, MirrorError,
    MirrorMode,
};
use choreo_flip::number::Decimal;

fn d(s: &str) -> Decimal {
    Decimal::parse(s).unwrap()
}

fn swaypoint(x: &str, y: &str, h: &str) -> ChoreoSWaypoint {
    ChoreoSWaypoint {
        x: d(x),
        y: d(y),
        heading: d(h),
        intervals: 40,
        split: false,
        fix_translation: true,
        fix_heading: true,
        override_intervals: false,
    }
}

fn value(v: &str, unit: &str) -> ChoreoValue {
    ChoreoValue { exp: format!("{} {}", v, unit), val: d(v) }
}

fn waypoint(x: &str, y: &str, h: &str) -> ChoreoWaypoint {
    ChoreoWaypoint {
        x: value(x, "m"),
        y: value(y, "m"),
        heading: value(h, "rad"),
        intervals: 40,
        split: false,
        fix_translation: true,
        fix_heading: true,
        override_intervals: false,
    }
}

fn sample() -> ChoreoSample {
    ChoreoSample {
        t: d("0.1"),
        x: d("1"),
        y: d("2"),
        heading: d("0.5"),
        vx: d("1.5"),
        vy: d("-0.25"),
        omega: d("0"),
        ax: d("-0"),
        ay: d("3"),
        alpha: d("-0.75"),
        fx: vec![d("1"), d("-2")],
        fy: vec![d("0.5")],
    }
}

fn document(name: &str) -> ChoreoData {
    ChoreoData {
        name: name.to_string(),
        version: 1,
        snapshot: ChoreoSnapshotData {
            waypoints: vec![swaypoint("1", "2", "0"), swaypoint("3.5", "4", "1.2")],
            constraints: vec![],
            target_dt: d("0.05"),
        },
        params: ChoreoParams {
            waypoints: vec![waypoint("1", "2", "0")],
            constraints: vec![ChoreoConstraint {
                from: Some(ChoreoWaypointName::String("first".to_string())),
                to: Some(ChoreoWaypointName::Int(1)),
                data: ChoreoConstraintData { kind: "StopPoint".to_string(), props: JsonValue::Null },
                enabled: true,
            }],
            target_dt: value("0.05", "s"),
        },
        trajectory: ChoreoTraj {
            sample_type: Some("Swerve".to_string()),
            waypoints: vec![d("0"), d("1.25")],
            samples: vec![sample()],
            splits: vec![0],
        },
        events: JsonValue::Array(vec![]),
    }
}

#[test]
fn field_dimensions() {
    assert_eq!(field_x().to_text(), "17.54825");
    assert_eq!(field_y().to_text(), "8.051902");
}

#[test]
fn axis_flips_return_both_coordinates() {
    let [x, y] = flip_xaxis(d("1"), d("2"));
    assert_eq!((x.to_text(), y.to_text()), ("1".to_string(), "6.051902".to_string()));
    let [x, y] = flip_yaxis(d("1"), d("2"));
    assert_eq!((x.to_text(), y.to_text()), ("16.54825".to_string(), "2".to_string()));
}

#[test]
fn opposite_alliance_waypoint() {
    let mut w = swaypoint("1.0", "2.0", "0.0");
    w.flip_alliance();
    assert_eq!(w.x.to_text(), "16.54825");
    assert_eq!(w.y.to_text(), "2");
    assert_eq!(w.heading.to_text(), "0");
    assert!(!w.heading.negative);
}

#[test]
fn same_alliance_waypoint() {
    let mut w = swaypoint("1.0", "2.0", "0.0");
    w.flip_same_alliance();
    assert_eq!(w.x.to_text(), "1");
    assert_eq!(w.y.to_text(), "6.051902");
    assert_eq!(w.heading.to_text(), "0");
}

#[test]
fn waypoint_heading_is_negated() {
    let mut w = swaypoint("1", "2", "1.2");
    w.flip(MirrorMode::SameAlliance);
    assert_eq!(w.heading.to_text(), "-1.2");
    assert_eq!(w.intervals, 40);
    assert!(w.fix_translation);
}

#[test]
fn negative_zero_heading_becomes_positive_zero() {
    let mut w = swaypoint("1", "2", "-0.0");
    w.flip_alliance();
    assert!(!w.heading.negative);
    assert_eq!(w.heading.to_text(), "0");
}

#[test]
fn parameter_waypoint_regenerates_display_strings() {
    let mut w = waypoint("1", "2", "0.5");
    w.flip_same_alliance();
    assert_eq!(w.y.exp, "6.051902 m");
    assert_eq!(w.heading.exp, "-0.5 rad");
    assert_eq!(w.x.exp, "1 m");
    let mut w = waypoint("1", "2", "0");
    w.flip_alliance();
    assert_eq!(w.x.exp, "16.54825 m");
    assert_eq!(w.heading.exp, "0 rad");
    assert_eq!(w.y.exp, "2 m");
}

#[test]
fn value_update_exp() {
    let mut v = ChoreoValue { exp: "stale".to_string(), val: d("2.50") };
    v.update_exp("m");
    assert_eq!(v.exp, "2.5 m");
}

#[test]
fn sample_same_alliance() {
    let mut s = sample();
    s.flip_same_alliance();
    assert_eq!(s.y.to_text(), "6.051902");
    assert_eq!(s.x.to_text(), "1");
    assert_eq!(s.vy.to_text(), "0.25");
    assert_eq!(s.vx.to_text(), "1.5");
    assert_eq!(s.ay.to_text(), "-3");
    assert_eq!(s.heading.to_text(), "-0.5");
    assert_eq!(s.omega.to_text(), "0");
    assert_eq!(s.alpha.to_text(), "0.75");
    assert_eq!(s.fx[1].to_text(), "-2");
    assert_eq!(s.t.to_text(), "0.1");
}

#[test]
fn sample_opposite_alliance() {
    let mut s = sample();
    s.flip_alliance();
    assert_eq!(s.x.to_text(), "16.54825");
    assert_eq!(s.y.to_text(), "2");
    assert_eq!(s.vx.to_text(), "-1.5");
    assert_eq!(s.ax.to_text(), "0");
    assert!(!s.ax.negative);
    assert_eq!(s.vy.to_text(), "-0.25");
    assert_eq!(s.fy[0].to_text(), "0.5");
}

#[test]
fn flip_document_renames() {
    let out = flip_document(document("Red7"), MirrorMode::SameAlliance, "Blue2".to_string()).unwrap();
    assert_eq!(out.name, "Blue2");
    assert_eq!(out.snapshot.waypoints[1].y.to_text(), "4.051902");
    assert_eq!(out.params.waypoints[0].y.exp, "6.051902 m");
    assert_eq!(out.trajectory.samples[0].y.to_text(), "6.051902");
    assert_eq!(out.trajectory.waypoints[1].to_text(), "1.25");
    assert_eq!(out.params.constraints.len(), 1);
}

#[test]
fn mirror_twice_restores_document() {
    for mode in [MirrorMode::SameAlliance, MirrorMode::OppositeAlliance] {
        let mut doc = document("Path");
        doc.mirror(mode);
        doc.mirror(mode);
        let w = &doc.snapshot.waypoints[1];
        assert_eq!((w.x.to_text(), w.y.to_text(), w.heading.to_text()), ("3.5".to_string(), "4".to_string(), "1.2".to_string()));
        let s = &doc.trajectory.samples[0];
        assert_eq!((s.x.to_text(), s.y.to_text(), s.vx.to_text(), s.vy.to_text()), ("1".to_string(), "2".to_string(), "1.5".to_string(), "-0.25".to_string()));
        assert_eq!(doc.params.waypoints[0].heading.val.to_text(), "0");
    }
}

#[test]
fn can_mirror_reports_coordinates_out_of_range() {
    let mut doc = document("Path");
    doc.trajectory.samples[0].x = Decimal { negative: false, magnitude: 1, scale: 60 };
    assert!(doc.can_mirror(MirrorMode::SameAlliance));
    assert!(!doc.can_mirror(MirrorMode::OppositeAlliance));
    let r = flip_document(doc, MirrorMode::OppositeAlliance, "x".to_string());
    assert!(matches!(r, Err(MirrorError::CoordinateOutOfRange)));
}
