//! Verified core of a 2D track viewer.
//!
//! The library parses whitespace-delimited track-point files into an ordered,
//! source-grouped point store, models a pannable and zoomable 2D camera
//! (zoom kept as the logarithm of the linear scale), tracks the cursor, and
//! turns the stored points into the colored line segments that a host
//! application hands to its line-drawing backend each frame.
//!
//! All world and screen quantities are fixed-point numbers: an `i64` counts
//! thousandths of a unit (milli-units), so `1500` stands for `1.5`. The host
//! application converts between this representation and whatever its
//! windowing and drawing layers use.

use vstd::prelude::*;

pub mod camera;
pub mod cursor;
pub mod parse;
pub mod render;
pub mod store;

verus! {

/// Number of fixed-point steps per world unit: values are in milli-units.
pub const MILLI: i64 = 1000;

/// An RGBA display color, eight bits per channel.
#[derive(Clone, Copy, PartialEq, Eq, Structural, Debug)]
pub struct Rgba {
    pub r: u8,
    pub g: u8,
    pub b: u8,
    pub a: u8,
}

/// One recorded waypoint; coordinates are world positions in milli-units.
#[derive(Clone, Copy, PartialEq, Eq, Structural, Debug)]
pub struct TrackPoint {
    pub x: i64,
    pub y: i64,
    pub z: i64,
}

} // verus!
