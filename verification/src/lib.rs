//! Animated 2D points in a bounded domain, re-triangulated every simulation
//! step: a fixed-timestep point-motion model (`simulation`) feeding an
//! incremental Bowyer-Watson Delaunay triangulator (`triangulation`), both
//! over exact signed fixed-point coordinates.

pub mod simulation;
pub mod triangulation;
