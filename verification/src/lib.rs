//! Block-addressed file layer of a disk-resident database engine: a
//! fixed-layout byte-buffer codec (`Page`), block identifiers (`BlockId`),
//! and the pure decisions behind block-granular file management.

pub mod file;
pub mod jdbc;
