pub mod collider;
pub mod collision;
pub mod constants;
pub mod rng;
pub mod shooting;
pub mod tank;
pub mod vec2;
pub mod walls;
