//! Verified core of a GPS-track heatmap pipeline.
//!
//! The library turns XML activity recordings (two dialects) into a uniform
//! point model, reduces the points to a geographic bounding box, and renders
//! a density-weighted heatmap overlay onto an RGB canvas.  Coordinates are
//! held as signed nanodegrees and timestamps as Unix seconds, so every rule
//! of the pipeline is stated and proved over plain integers.

pub mod model;
pub mod num;
pub mod xml;
pub mod gpx;
pub mod tcx;
pub mod parse;
pub mod geo;
pub mod render;
pub mod composite;
