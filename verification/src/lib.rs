pub mod colour;
pub mod image;
pub mod integrators;
pub mod materials;
pub mod random_distributions;
pub mod raycasting;
pub mod realtype;
pub mod util;

pub use realtype::Real;
