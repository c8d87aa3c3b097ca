//! Query-time filtering and nearest-neighbour selection over a write log and
//! a persisted segment, with every step stated and proved.

pub mod bitmap;
pub mod selection;
pub mod metadata;
pub mod index;
pub mod text;
pub mod log_reader;
pub mod segment;
pub mod provider;
pub mod filter;
pub mod knn;
