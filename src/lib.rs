//! Serving layer for approximate-nearest-neighbour search over named,
//! hot-swappable vector indexes.
pub mod annoy;
pub mod artifact;
pub mod err;
pub mod idmapping;
pub mod knn;
pub mod knn_err;
pub mod rank;
pub mod registry;
pub mod text;
