//! A verified pseudo-3D renderer: a 2D polygonal map of walls and raised
//! or lowered blocks is projected into a per-column perspective view, in
//! the style of early ray-casted first-person engines.
//!
//! All geometry runs in fixed-point thousandths of a world unit, so every
//! step of the pipeline (ray/segment intersection, nearest-wall
//! selection, the pairing of block crossings into slices, projection to
//! screen rows, shading and the painting order) carries an exact
//! contract. The trigonometric values a frame needs (the view angle's
//! cosine and sine, and the per-column tables of the projection) are
//! plain fixed-point inputs that the embedding program derives at
//! startup.

pub mod camera_view;
pub mod draw;
pub mod fixed;
pub mod geometry;
pub mod map;
pub mod parser;
pub mod raycast;
pub mod renderer_init;
