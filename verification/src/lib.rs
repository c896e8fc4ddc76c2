//! Bottom-left style placement of polygons into a strip.
//!
//! The library holds the parts of the placement that do not depend on
//! floating-point arithmetic: the shapes and the chain of corners as
//! containers generic over the coordinate type, the scans that pick a
//! corner and an order for the shapes (over integer order keys), and the
//! way the per-edge tests of a point combine into an inside/outside verdict.
pub mod corner;
pub mod crossing;
pub mod order;
pub mod shape;
