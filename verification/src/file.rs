pub mod block_id;
pub mod codec;
pub mod file_ops;
pub mod page;
