//! Dump and reload of a hierarchical navigable small world graph in a
//! compact binary format: a description header, then the graph topology,
//! with the point vectors in a second byte stream.

pub mod wire;
pub mod hnsw;
pub mod format;
pub mod hnswio;
pub mod load;
pub mod laws;

pub use format::{DumpMode, MAGICDATAP, MAGICDESCR, MAGICLAYER, MAGICPOINT};
pub use hnsw::{Hnsw, Neighbour, Point, PointId, PointIndexation, NB_LAYER_MAX};
pub use hnswio::{Description, HnswIO, distance_mismatch_message, dump_point_data, load_description};
pub use load::{load_hnsw, load_point, load_point_indexation};
pub use wire::LoadError;
