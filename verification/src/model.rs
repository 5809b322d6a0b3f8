//! Shared value types of the track pipeline.
//!
//! A geographic coordinate is held in fixed point: signed nanodegrees
//! (10^-9 degree).  A timestamp is held as Unix seconds.  Both choices keep
//! every later computation in exact integer arithmetic.

use vstd::prelude::*;

verus! {

/// Nanodegrees per degree: the fixed-point denominator of all coordinates.
pub const NANO_PER_DEGREE: i64 = 1_000_000_000;

/// A geographic position in signed nanodegrees of latitude and longitude.
///
/// Equality is structural.  No range validation is enforced at construction;
/// callers are expected to produce values from validated numeric parsing.
#[derive(Clone, Copy, Debug, PartialEq, Eq, Structural)]
pub struct Point {
    /// Latitude in nanodegrees.
    pub lat: i64,
    /// Longitude in nanodegrees.
    pub lng: i64,
}

/// One GPS fix: a position and an optional Unix-second timestamp.
///
/// A fix without a timestamp is kept; the renderer simply never draws a
/// connecting line into or out of it.
#[derive(Clone, Copy, Debug, PartialEq, Eq, Structural)]
pub struct TrkPt {
    /// The recorded position.
    pub center: Point,
    /// Seconds since the Unix epoch, when the record carried a time.
    pub time: Option<i64>,
}

impl DeepView for Point {
    type V = Point;

    open spec fn deep_view(&self) -> Point {
        *self
    }
}

impl DeepView for TrkPt {
    type V = TrkPt;

    open spec fn deep_view(&self) -> TrkPt {
        *self
    }
}

/// The closed set of activity kinds a caller may filter by.
#[derive(Clone, Copy, Debug, PartialEq, Eq, Structural)]
pub enum ActivityType {
    Bike,
    Run,
    Walk,
}

/// The projection a renderer maps coordinates through: the lat/lng of canvas
/// pixel `(0, 0)` and the scale from degrees to pixels.
///
/// `scale` holds micro-pixels per degree on each axis, signed: a negative
/// latitude scale flips the axis, which is how a north-up map lands on a
/// canvas whose rows grow downward.  `center` is carried for the caller that
/// fetches a matching base image; the renderer itself reads only `min` and
/// `scale`.
#[derive(Clone, Copy, Debug, PartialEq, Eq, Structural)]
pub struct MapInfo {
    /// The geographic center of the projected window, in nanodegrees.
    pub center: Point,
    /// The lat/lng of canvas pixel `(0, 0)`, in nanodegrees.
    pub min: Point,
    /// Micro-pixels per degree, per axis.
    pub scale: Point,
}

/// Why a whole document was rejected.  One document's failure never stops a
/// batch: the caller reports it and goes on with the remaining files.
#[derive(Clone, Copy, Debug, PartialEq, Eq, Structural)]
pub enum ParseError {
    /// The document does not begin with an XML declaration followed by a
    /// recognized root element.
    UnexpectedRoot,
    /// A point record stood outside its required container, or the XML text
    /// itself was not well formed.
    StructuralViolation,
    /// A coordinate or time token could not be parsed as a number or
    /// timestamp.
    NumericFormat,
    /// The input ended while a tracked container was still open.
    Truncated,
}

impl ParseError {
    /// A short description, for diagnostics printed by callers.
    pub fn describe(&self) -> (r: &'static str)
        ensures
            r@ == match self {
                ParseError::UnexpectedRoot => "unexpected root element"@,
                ParseError::StructuralViolation => "structurally invalid document"@,
                ParseError::NumericFormat => "malformed numeric or time token"@,
                ParseError::Truncated => "input truncated inside an open element"@,
            },
    {
        match self {
            ParseError::UnexpectedRoot => "unexpected root element",
            ParseError::StructuralViolation => "structurally invalid document",
            ParseError::NumericFormat => "malformed numeric or time token",
            ParseError::Truncated => "input truncated inside an open element",
        }
    }
}

} // verus!
