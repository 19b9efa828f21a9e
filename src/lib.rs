//! Data path of an NVMe block driver: the submission/completion ring protocol,
//! the shadow doorbell check, the PRP descriptor-chain builder and the request
//! dispatcher. Alongside them live the support pieces the driver's kernel
//! crate provides: C strings, field name hashing, literal token parsing for
//! its macros, and fallible allocation for vectors.

pub mod defs;
pub mod command;
pub mod request;
pub mod queue;
pub mod prp;
pub mod dispatch;
pub mod cstr;
pub mod projection;
pub mod lit;
pub mod traits;
