pub mod purity;
pub mod cohesion;
pub mod coupling;
