//! Decoding of flattened device tree blobs into a tree of named nodes and
//! typed properties, with every decoding step proved against a mathematical
//! model of the format.

pub use device_tree::DeviceTree;

pub mod byte_utils;
pub mod device_tree;
pub mod error;
pub mod header;
pub mod node;
pub mod prop;
pub mod structure;
pub mod text;
pub mod traits;
