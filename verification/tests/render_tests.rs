use trackview::Rgba;
use trackview::TrackPoint;
use trackview::render::MAP_HALF_EXTENT;
use trackview::render::SEGMENT_DEPTH;
use trackview::render::emit_segments;
use trackview::store::TrackSource;
use trackview::store::TrackStore;

fn p(x: i64, y: i64, z: i64) -> TrackPoint {
    TrackPoint { x, y, z }
}

const GREEN: Rgba = Rgba { r: 0, g: 255, b: 0, a: 255 };
const PINK: Rgba = Rgba { r: 255, g: 105, b: 180, a: 255 };
const RED: Rgba = Rgba { r: 255, g: 0, b: 0, a: 255 };

fn two_source_store() -> TrackStore {
    TrackStore {
        sources: vec![
            TrackSource {
                name: String::from("a"),
                color: GREEN,
                points: vec![p(1, 1, 9), p(2, 2, 9), p(3, 3, 9)],
            },
            TrackSource {
                name: String::from("b"),
                color: PINK,
                points: vec![p(10, 10, 9), p(20, 20, 9)],
            },
        ],
    }
}

#[test]
fn adjacent_same_source_points_are_linked_and_sources_are_not() {
    let segs = emit_segments(&two_source_store());
    // Two segments for the three-point source, one for the two-point
    // source, then the two axes.
    assert_eq!(segs.len(), 5);

    assert_eq!(segs[0].start, p(2, 2, SEGMENT_DEPTH));
    assert_eq!(segs[0].end, p(1, 1, SEGMENT_DEPTH));
    assert_eq!(segs[0].color, GREEN);

    assert_eq!(segs[1].start, p(3, 3, SEGMENT_DEPTH));
    assert_eq!(segs[1].end, p(2, 2, SEGMENT_DEPTH));
    assert_eq!(segs[1].color, GREEN);

    assert_eq!(segs[2].start, p(20, 20, SEGMENT_DEPTH));
    assert_eq!(segs[2].end, p(10, 10, SEGMENT_DEPTH));
    assert_eq!(segs[2].color, PINK);

    // No emitted segment links the first source's last point (3, 3) to the
    // second source's first point (10, 10).
    for s in segs.iter() {
        let ends = [(s.start.x, s.start.y), (s.end.x, s.end.y)];
        assert!(!(ends.contains(&(3, 3)) && ends.contains(&(10, 10))));
    }
}

#[test]
fn empty_store_emits_exactly_the_two_axes() {
    let segs = emit_segments(&TrackStore::new());
    assert_eq!(segs.len(), 2);
    assert_eq!(segs[0].start, p(-MAP_HALF_EXTENT, 0, SEGMENT_DEPTH));
    assert_eq!(segs[0].end, p(MAP_HALF_EXTENT, 0, SEGMENT_DEPTH));
    assert_eq!(segs[0].color, RED);
    assert_eq!(segs[0].duration, 0);
    assert_eq!(segs[1].start, p(0, -MAP_HALF_EXTENT, SEGMENT_DEPTH));
    assert_eq!(segs[1].end, p(0, MAP_HALF_EXTENT, SEGMENT_DEPTH));
    assert_eq!(segs[1].color, RED);
}

#[test]
fn sources_with_no_pair_emit_no_track_segment() {
    let store = TrackStore {
        sources: vec![
            TrackSource { name: String::from("empty"), color: GREEN, points: Vec::new() },
            TrackSource { name: String::from("single"), color: PINK, points: vec![p(5, 5, 5)] },
        ],
    };
    let segs = emit_segments(&store);
    assert_eq!(segs.len(), 2);
}

#[test]
fn segments_are_flattened_to_the_fixed_depth_for_one_frame() {
    let segs = emit_segments(&two_source_store());
    for s in segs.iter() {
        assert_eq!(s.start.z, SEGMENT_DEPTH);
        assert_eq!(s.end.z, SEGMENT_DEPTH);
        assert_eq!(s.duration, 0);
    }
}
