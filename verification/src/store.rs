//! The track store: every parsed source, in load order.
//!
//! A store owns one [`TrackSource`] per loaded file, keyed by a unique name
//! and holding that file's points in file order. It is filled once at
//! startup and read every frame; iteration order is the load order, which
//! the renderer's grouping relies on.

use vstd::prelude::*;
use crate::{Rgba, TrackPoint};
use crate::parse::{TrackError, file_err_content, file_err_line, file_ok, file_points,
    parse_track_file};

verus! {

/// One loaded file: its display name and color, and its points in file
/// order.
pub struct TrackSource {
    pub name: String,
    pub color: Rgba,
    pub points: Vec<TrackPoint>,
}

/// All loaded sources, in the order they were loaded.
pub struct TrackStore {
    pub sources: Vec<TrackSource>,
}

impl TrackStore {
    /// Source names are unique across the store.
    pub open spec fn wf(self) -> bool {
        forall|i: int, j: int|
            0 <= i < j < self.sources@.len() ==> self.sources@[i].name@ != self.sources@[j].name@
    }

    /// An empty store.
    pub fn new() -> (r: TrackStore)
        ensures
            r.sources@.len() == 0,
            r.wf(),
    {
        TrackStore { sources: Vec::new() }
    }

    /// Number of loaded sources.
    pub fn source_count(&self) -> (r: usize)
        ensures
            r == self.sources@.len(),
    {
        self.sources.len()
    }

    /// Parse one file's lines and append it as a new source.
    ///
    /// On success the store gains exactly one source at the end, carrying
    /// the parsed points in file order; on failure the store is unchanged
    /// and the parse error is handed back.
    pub fn load_source(&mut self, name: String, color: Rgba, lines: &Vec<Vec<u8>>) -> (r: Result<
        (),
        TrackError,
    >)
        requires
            old(self).wf(),
            forall|i: int|
                0 <= i < old(self).sources@.len() ==> #[trigger] old(
                    self,
                ).sources@[i].name@ != name@,
            lines.len() < usize::MAX,
        ensures
            final(self).wf(),
            r is Ok <==> file_ok(lines.deep_view()),
            r is Ok ==> {
                &&& final(self).sources@.len() == old(self).sources@.len() + 1
                &&& forall|i: int|
                    0 <= i < old(self).sources@.len() ==> final(self).sources@[i] == old(
                        self,
                    ).sources@[i]
                &&& final(self).sources@.last().name@ == name@
                &&& final(self).sources@.last().color == color
                &&& final(self).sources@.last().points@ == file_points(lines.deep_view())
            },
            r is Err ==> final(self).sources@ == old(self).sources@,
            r matches Err(e) ==> e matches TrackError::FormatError { line, content }
                && line == file_err_line(lines.deep_view()) && content@ == file_err_content(
                lines.deep_view(),
            ),
    {
        match parse_track_file(lines) {
            Ok(points) => {
                let ghost prev = self.sources@;
                self.sources.push(TrackSource { name, color, points });
                proof {
                    assert(self.sources@.last() == self.sources@[prev.len() as int]);
                }
                Ok(())
            },
            Err(e) => Err(e),
        }
    }
}

} // verus!
