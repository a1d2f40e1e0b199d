pub mod codec;
pub mod crypto;
pub mod log;
pub mod network;
pub mod objects;
pub mod order;
pub mod paths;
pub mod select;
pub mod status;
pub mod strmap;
pub mod text;
