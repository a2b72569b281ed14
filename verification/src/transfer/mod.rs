pub mod offer;
pub mod decision;
pub mod chunk;
pub mod format;
pub mod packer;
pub mod pipeline;
