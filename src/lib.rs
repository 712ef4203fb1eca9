pub mod constants;
pub mod model;
pub mod controls;
pub mod tween;
pub mod laws;
