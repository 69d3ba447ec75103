//! Per-frame segment emission.
//!
//! Each frame the renderer walks the store's sources in load order and
//! connects consecutive points of the same source with a colored segment;
//! points of different sources are never linked, so each track stays a
//! separate polyline. Two fixed red reference axes spanning the scaled map
//! extent are emitted after the track segments. Segments live for one frame
//! (duration zero) and sit at a fixed depth above the background map.

use vstd::prelude::*;
use crate::{Rgba, TrackPoint};
use crate::store::{TrackSource, TrackStore};

verus! {

/// Depth every emitted segment is drawn at, in milli-units (`10.0`).
pub const SEGMENT_DEPTH: i64 = 10_000;

/// How long a segment persists, in milli-seconds: zero, one frame only.
pub const SEGMENT_DURATION: i64 = 0;

/// Side length of the square background map, in milli-units (`1000.0`).
pub const MAP_SIZE: i64 = 1_000_000;

/// Scale factor the map is drawn with.
pub const MAP_SCALE: i64 = 6;

/// Half the scaled map extent, `MAP_SIZE * MAP_SCALE / 2`: the reference
/// axes span `±` this value.
pub const MAP_HALF_EXTENT: i64 = 3_000_000;

/// One line segment handed to the host's draw-submission backend.
#[derive(Clone, Copy, PartialEq, Eq, Structural, Debug)]
pub struct Segment {
    pub start: TrackPoint,
    pub end: TrackPoint,
    pub color: Rgba,
    pub duration: i64,
}

/// The fixed color of the two reference axes (pure red).
pub open spec fn axis_color() -> Rgba {
    Rgba { r: 255, g: 0, b: 0, a: 255 }
}

/// The segment linking a point to its predecessor, flattened to the fixed
/// segment depth and colored by the source.
pub open spec fn segment_between(cur: TrackPoint, prev: TrackPoint, color: Rgba) -> Segment {
    Segment {
        start: TrackPoint { x: cur.x, y: cur.y, z: SEGMENT_DEPTH },
        end: TrackPoint { x: prev.x, y: prev.y, z: SEGMENT_DEPTH },
        color,
        duration: SEGMENT_DURATION,
    }
}

/// The segments of one source: one per consecutive point pair, in order.
/// A source with zero or one point contributes no segment.
pub open spec fn source_segments(s: TrackSource) -> Seq<Segment> {
    if s.points@.len() == 0 {
        Seq::empty()
    } else {
        Seq::new(
            (s.points@.len() - 1) as nat,
            |i: int| segment_between(s.points@[i + 1], s.points@[i], s.color),
        )
    }
}

/// The track segments of a whole store: each source's segments, in load
/// order. No segment ever links points of different sources.
pub open spec fn track_segments(sources: Seq<TrackSource>) -> Seq<Segment>
    decreases sources.len(),
{
    if sources.len() == 0 {
        Seq::empty()
    } else {
        source_segments(sources[0]) + track_segments(sources.drop_first())
    }
}

/// The two fixed reference axes along the world x and y directions.
pub open spec fn axis_segments() -> Seq<Segment> {
    seq![
        Segment {
            start: TrackPoint { x: (-MAP_HALF_EXTENT) as i64, y: 0, z: SEGMENT_DEPTH },
            end: TrackPoint { x: MAP_HALF_EXTENT, y: 0, z: SEGMENT_DEPTH },
            color: axis_color(),
            duration: SEGMENT_DURATION,
        },
        Segment {
            start: TrackPoint { x: 0, y: (-MAP_HALF_EXTENT) as i64, z: SEGMENT_DEPTH },
            end: TrackPoint { x: 0, y: MAP_HALF_EXTENT, z: SEGMENT_DEPTH },
            color: axis_color(),
            duration: SEGMENT_DURATION,
        },
    ]
}

proof fn lemma_track_segments_push(sources: Seq<TrackSource>, s: TrackSource)
    ensures
        track_segments(sources.push(s)) == track_segments(sources) + source_segments(s),
    decreases sources.len(),
{
    reveal_with_fuel(track_segments, 3);
    if sources.len() == 0 {
        assert(sources.push(s)[0] == s);
        assert(sources.push(s).drop_first() =~= Seq::<TrackSource>::empty());
        assert(track_segments(sources.push(s)) =~= track_segments(sources) + source_segments(s));
    } else {
        assert(sources.push(s)[0] == sources[0]);
        assert(sources.push(s).drop_first() =~= sources.drop_first().push(s));
        lemma_track_segments_push(sources.drop_first(), s);
        assert(track_segments(sources.push(s)) =~= track_segments(sources) + source_segments(s));
    }
}

/// Emit this frame's segments: every source's consecutive-point segments in
/// load order, then the two reference axes. Never fails, even on an empty
/// store.
pub fn emit_segments(store: &TrackStore) -> (r: Vec<Segment>)
    ensures
        r@ == track_segments(store.sources@) + axis_segments(),
{
    let mut segs: Vec<Segment> = Vec::new();
    let mut si: usize = 0;
    proof {
        assert(store.sources@.take(0) =~= Seq::<TrackSource>::empty());
    }
    while si < store.sources.len()
        invariant
            si <= store.sources@.len(),
            segs@ == track_segments(store.sources@.take(si as int)),
        decreases store.sources@.len() - si,
    {
        let ghost srcv = store.sources@[si as int];
        let ghost done = track_segments(store.sources@.take(si as int));
        let src = &store.sources[si];
        let color = src.color;
        let npts = src.points.len();
        let mut j: usize = 1;
        proof {
            assert(*src == srcv);
            assert(source_segments(srcv).take(0) =~= Seq::<Segment>::empty());
            assert(segs@ =~= done + source_segments(srcv).take(0));
        }
        while j < npts
            invariant
                1 <= j,
                si < store.sources@.len(),
                srcv == store.sources@[si as int],
                done == track_segments(store.sources@.take(si as int)),
                src == &store.sources[si as int],
                *src == srcv,
                color == srcv.color,
                npts == srcv.points@.len(),
                npts == 0 ==> j == 1,
                npts > 0 ==> j <= npts,
                segs@ == done + source_segments(srcv).take(j - 1),
            decreases npts - j,
        {
            let prev = src.points[j - 1];
            let cur = src.points[j];
            segs.push(
                Segment {
                    start: TrackPoint { x: cur.x, y: cur.y, z: SEGMENT_DEPTH },
                    end: TrackPoint { x: prev.x, y: prev.y, z: SEGMENT_DEPTH },
                    color,
                    duration: SEGMENT_DURATION,
                },
            );
            proof {
                assert(source_segments(srcv).len() == npts - 1);
                assert(source_segments(srcv)[j - 1] == segment_between(
                    srcv.points@[j as int],
                    srcv.points@[j - 1],
                    srcv.color,
                ));
                assert(source_segments(srcv).take(j as int) =~= source_segments(srcv).take(j - 1)
                    + seq![source_segments(srcv)[j - 1]]);
                assert(segs@ =~= done + source_segments(srcv).take(j as int));
            }
            j += 1;
        }
        proof {
            if npts == 0 {
                assert(source_segments(srcv) =~= Seq::<Segment>::empty());
            } else {
                assert(j == npts);
                assert(source_segments(srcv).len() == npts - 1);
            }
            assert(source_segments(srcv).take(j - 1) =~= source_segments(srcv));
            assert(store.sources@.take(si + 1) =~= store.sources@.take(si as int).push(srcv));
            lemma_track_segments_push(store.sources@.take(si as int), srcv);
        }
        si += 1;
    }
    proof {
        assert(store.sources@.take(si as int) =~= store.sources@);
    }
    let a = MAP_HALF_EXTENT;
    segs.push(
        Segment {
            start: TrackPoint { x: -a, y: 0, z: SEGMENT_DEPTH },
            end: TrackPoint { x: a, y: 0, z: SEGMENT_DEPTH },
            color: Rgba { r: 255, g: 0, b: 0, a: 255 },
            duration: SEGMENT_DURATION,
        },
    );
    segs.push(
        Segment {
            start: TrackPoint { x: 0, y: -a, z: SEGMENT_DEPTH },
            end: TrackPoint { x: 0, y: a, z: SEGMENT_DEPTH },
            color: Rgba { r: 255, g: 0, b: 0, a: 255 },
            duration: SEGMENT_DURATION,
        },
    );
    proof {
        assert(segs@ =~= track_segments(store.sources@) + axis_segments());
    }
    segs
}

/// One entry of the flattened store walk: a point tagged with its source's
/// name and color.
pub type FlatPoint = (Seq<char>, Rgba, TrackPoint);

/// A source's points, each tagged with the source's name and color.
pub open spec fn source_entries(s: TrackSource) -> Seq<FlatPoint> {
    Seq::new(s.points@.len(), |i: int| (s.name@, s.color, s.points@[i]))
}

/// Every loaded point as one flattened sequence, sources in load order.
pub open spec fn flat_entries(sources: Seq<TrackSource>) -> Seq<FlatPoint>
    decreases sources.len(),
{
    if sources.len() == 0 {
        Seq::empty()
    } else {
        source_entries(sources[0]) + flat_entries(sources.drop_first())
    }
}

/// The walk over the flattened sequence: each point is compared with the
/// previous one, and a segment is emitted exactly when their source names
/// match; either way the point becomes the next comparison's predecessor.
pub open spec fn adjacent_segments(f: Seq<FlatPoint>) -> Seq<Segment>
    decreases f.len(),
{
    if f.len() < 2 {
        Seq::empty()
    } else {
        let head = if f[1].0 == f[0].0 {
            seq![segment_between(f[1].2, f[0].2, f[1].1)]
        } else {
            Seq::<Segment>::empty()
        };
        head + adjacent_segments(f.drop_first())
    }
}

/// The consecutive-pair segments of a run of same-source entries.
pub open spec fn pair_segments(e: Seq<FlatPoint>, color: Rgba) -> Seq<Segment> {
    if e.len() == 0 {
        Seq::empty()
    } else {
        Seq::new((e.len() - 1) as nat, |i: int| segment_between(e[i + 1].2, e[i].2, color))
    }
}

proof fn lemma_adjacent_over_run(e: Seq<FlatPoint>, g: Seq<FlatPoint>, nm: Seq<char>, color: Rgba)
    requires
        forall|i: int| 0 <= i < e.len() ==> (#[trigger] e[i]).0 == nm && e[i].1 == color,
        g.len() == 0 || g[0].0 != nm,
    ensures
        adjacent_segments(e + g) == pair_segments(e, color) + adjacent_segments(g),
    decreases e.len(),
{
    let f = e + g;
    if e.len() == 0 {
        assert(f =~= g);
        assert(pair_segments(e, color) + adjacent_segments(g) =~= adjacent_segments(g));
    } else if e.len() == 1 {
        if g.len() == 0 {
            assert(f.len() < 2);
            assert(pair_segments(e, color) + adjacent_segments(g) =~= Seq::<Segment>::empty());
        } else {
            assert(f[0] == e[0]);
            assert(f[1] == g[0]);
            assert(f[1].0 != f[0].0);
            assert(f.drop_first() =~= g);
            assert(adjacent_segments(f) =~= adjacent_segments(g));
            assert(pair_segments(e, color) + adjacent_segments(g) =~= adjacent_segments(g));
        }
    } else {
        assert(f[0] == e[0]);
        assert(f[1] == e[1]);
        assert(f[1].0 == f[0].0);
        assert(f.drop_first() =~= e.drop_first() + g);
        assert(forall|i: int|
            0 <= i < e.drop_first().len() ==> (#[trigger] e.drop_first()[i]) == e[i + 1]);
        lemma_adjacent_over_run(e.drop_first(), g, nm, color);
        assert(pair_segments(e, color) =~= seq![segment_between(e[1].2, e[0].2, color)]
            + pair_segments(e.drop_first(), color));
        assert(adjacent_segments(f) =~= pair_segments(e, color) + adjacent_segments(g));
    }
}

proof fn lemma_flat_entries_names(sources: Seq<TrackSource>, nm: Seq<char>)
    requires
        forall|i: int| 0 <= i < sources.len() ==> (#[trigger] sources[i]).name@ != nm,
    ensures
        forall|k: int|
            0 <= k < flat_entries(sources).len() ==> (#[trigger] flat_entries(sources)[k]).0 != nm,
    decreases sources.len(),
{
    if sources.len() > 0 {
        assert(forall|i: int|
            0 <= i < sources.drop_first().len() ==> (#[trigger] sources.drop_first()[i])
                == sources[i + 1]);
        lemma_flat_entries_names(sources.drop_first(), nm);
        assert(forall|k: int|
            0 <= k < flat_entries(sources).len() ==> (#[trigger] flat_entries(sources)[k]).0
                != nm) by {
            assert forall|k: int| 0 <= k < flat_entries(sources).len() implies (
            #[trigger] flat_entries(sources)[k]).0 != nm by {
                if k < source_entries(sources[0]).len() {
                    assert(flat_entries(sources)[k] == source_entries(sources[0])[k]);
                } else {
                    assert(flat_entries(sources)[k] == flat_entries(sources.drop_first())[k
                        - source_entries(sources[0]).len()]);
                }
            }
        }
    }
}

/// Grouping law: for a store whose source names are unique — the store's
/// invariant — walking all points as one flattened sequence and linking
/// each point to its predecessor exactly when their source names match
/// yields the same segments, in the same order, as emitting each source's
/// consecutive pairs in load order. Boundaries between sources never emit.
pub proof fn lemma_flattened_walk_matches_grouped(sources: Seq<TrackSource>)
    requires
        forall|i: int, j: int|
            0 <= i < j < sources.len() ==> (#[trigger] sources[i]).name@ != (
            #[trigger] sources[j]).name@,
    ensures
        adjacent_segments(flat_entries(sources)) == track_segments(sources),
    decreases sources.len(),
{
    if sources.len() > 0 {
        let s = sources[0];
        let rest = sources.drop_first();
        assert(forall|i: int|
            0 <= i < rest.len() ==> (#[trigger] rest[i]) == sources[i + 1]);
        lemma_flat_entries_names(rest, s.name@);
        lemma_adjacent_over_run(source_entries(s), flat_entries(rest), s.name@, s.color);
        lemma_flattened_walk_matches_grouped(rest);
        assert(pair_segments(source_entries(s), s.color) =~= source_segments(s));
        assert(adjacent_segments(flat_entries(sources)) =~= track_segments(sources));
    }
}

/// Segment-adjacency law: a store holding a source with three points
/// followed by one with two points emits exactly two segments for the
/// first, then exactly one for the second, and no segment linking the
/// first source's last point to the second source's first point.
pub proof fn lemma_segment_adjacency(a: TrackSource, b: TrackSource)
    requires
        a.points@.len() == 3,
        b.points@.len() == 2,
    ensures
        track_segments(seq![a, b]) == seq![
            segment_between(a.points@[1], a.points@[0], a.color),
            segment_between(a.points@[2], a.points@[1], a.color),
            segment_between(b.points@[1], b.points@[0], b.color),
        ],
{
    let two = seq![a, b];
    reveal_with_fuel(track_segments, 4);
    assert(two.drop_first() =~= seq![b]);
    assert(seq![b].drop_first() =~= Seq::<TrackSource>::empty());
    assert(track_segments(two) =~= seq![
        segment_between(a.points@[1], a.points@[0], a.color),
        segment_between(a.points@[2], a.points@[1], a.color),
        segment_between(b.points@[1], b.points@[0], b.color),
    ]);
}

/// Empty-store law: with no points loaded, no track segment is emitted;
/// [`emit_segments`] then yields exactly the two reference axes.
pub proof fn lemma_empty_store_axes_only(sources: Seq<TrackSource>)
    requires
        forall|i: int| 0 <= i < sources.len() ==> #[trigger] sources[i].points@.len() == 0,
    ensures
        track_segments(sources) == Seq::<Segment>::empty(),
    decreases sources.len(),
{
    if sources.len() > 0 {
        assert(forall|i: int|
            0 <= i < sources.drop_first().len() ==> #[trigger] sources.drop_first()[i] == sources[
                i + 1
            ]);
        lemma_empty_store_axes_only(sources.drop_first());
        assert(track_segments(sources) =~= Seq::<Segment>::empty());
    }
}

} // verus!
