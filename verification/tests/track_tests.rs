use raice::track::{placeholder_track, Track, TrackSegment, Vec2};

#[test]
fn segments_close_loop_and_skip_degenerate() {
    let t = Track::new(
        vec![Vec2::new(0, 0), Vec2::new(10_000, 0), Vec2::new(10_000, 0)],
        10_000,
        2_000,
    );
    let segs = t.segments();
    // three points, one duplicated neighbour: two real segments
    assert!(segs.len() >= 2);
    assert!(segs.iter().all(|s| s.length > 0));
}

#[test]
fn has_start_pose() {
    let t = placeholder_track();
    assert!(t.start_pose().is_some());
}

#[test]
fn duplicate_pair_skipped_exactly() {
    let t = Track::new(
        vec![Vec2::new(0, 0), Vec2::new(10_000, 0), Vec2::new(10_000, 0)],
        10_000,
        2_000,
    );
    let segs = t.segments();
    assert_eq!(segs.len(), 2);
    assert_eq!(segs[0].length, 10_000);
    assert_eq!(segs[1].length, 10_000);
}

#[test]
fn segment_geometry_is_exact() {
    let s = TrackSegment::new(Vec2::new(0, 0), Vec2::new(0, 10_000)).unwrap();
    assert_eq!(s.length, 10_000);
    assert_eq!(s.mid, Vec2::new(0, 5_000));
    // unit direction straight up, left normal points to negative x
    assert_eq!(s.dir, Vec2::new(0, 1_000));
    assert_eq!(s.normal, Vec2::new(-1_000, 0));
}

#[test]
fn coincident_points_give_no_segment() {
    assert!(TrackSegment::new(Vec2::new(5, 5), Vec2::new(5, 5)).is_none());
}

#[test]
fn distinct_loop_yields_one_segment_per_point() {
    let t = Track::new(
        vec![
            Vec2::new(0, 0),
            Vec2::new(10_000, 0),
            Vec2::new(10_000, 10_000),
            Vec2::new(0, 10_000),
        ],
        10_000,
        2_000,
    );
    assert_eq!(t.segments().len(), 4);
    assert!(!t.is_empty());
    assert_eq!(t.points().len(), 4);
}

#[test]
fn empty_and_single_point_tracks_have_no_pose() {
    let empty = Track::new(Vec::new(), 1, 1);
    assert!(empty.is_empty());
    assert!(empty.start_pose().is_none());
    let single = Track::new(vec![Vec2::new(3, 4)], 1, 1);
    assert!(single.segments().is_empty());
    assert!(single.start_pose().is_none());
}

#[test]
fn all_degenerate_track_has_no_pose() {
    let t = Track::new(vec![Vec2::new(7, 7), Vec2::new(7, 7)], 10_000, 2_000);
    assert_eq!(t.segments().len(), 0);
    assert!(t.start_pose().is_none());
}

#[test]
fn start_pose_matches_first_segment() {
    let t = placeholder_track();
    let segs = t.segments();
    let pose = t.start_pose().unwrap();
    assert_eq!(pose.position, segs[0].start);
    assert_eq!(pose.direction, segs[0].dir);
}

#[test]
fn default_track_is_placeholder() {
    let t = Track::default();
    assert_eq!(t.width, 120_000);
    assert_eq!(t.wall_thickness, 16_000);
    assert_eq!(t.points().len(), 5);
    assert_eq!(t.segments().len(), 5);
}
