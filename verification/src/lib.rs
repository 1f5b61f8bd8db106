//! Hex-grid geometry and field-of-view.
//!
//! The heart of the crate is a verified hex-grid visibility algorithm: given
//! an opacity predicate over grid coordinates and a maximum radius, `HexFov`
//! yields the coordinates visible from the origin under hex line-of-sight
//! rules.  Around it stand the supporting pieces: the six hex directions with
//! their unit vectors, exact polar points on concentric hex rings, and the
//! terrain and area descriptions that game rules consult.

pub mod dir;
pub mod fields;
pub mod fov;
pub mod geom;
pub mod polar;
pub mod progress;
pub mod ring;
pub mod terrain;
pub mod trace;
pub mod world;
