pub mod demand;
pub mod offer;
