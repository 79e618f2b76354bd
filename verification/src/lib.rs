//! Motion physics for scroll views: velocity estimation from pointer
//! samples, the decelerating fling, the spring that brings an overscrolled
//! view back, and the rubber band that resists a drag past the edge.
//!
//! The crate computes in fixed point on integers; see [`fixed`].

pub mod constants;
pub mod event_adapter;
pub mod ffi;
pub mod fixed;
pub mod list_control;
pub mod point;
pub mod poly_fit;
pub mod rubber_band;
pub mod scroller;
pub mod spring_back;
pub mod velocity_tracker;

pub use scroller::Scroller;
pub use spring_back::SpringBack;
pub use velocity_tracker::{Strategy as VelocityTrackerStrategy, VelocityTracker};
