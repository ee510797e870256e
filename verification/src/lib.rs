//! Decision logic of a host guardian: status parsing, whitelisting,
//! eviction under resource pressure and lifecycle garbage collection.

pub mod eviction;
pub mod gc;
pub mod instance;
pub mod notify;
pub mod records;
pub mod serv;
pub mod status;
pub mod text;
pub mod wechat;
pub mod whitelist;
