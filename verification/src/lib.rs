//! A streaming log correlator: lines are grouped by a correlation id and stay
//! silent until one of them matches a flush rule, at which point the whole
//! buffered history of that id is released.

pub mod clock;
pub mod config;
pub mod json;
pub mod laws;
pub mod model;
pub mod pattern;
pub mod store;
pub mod text;
pub mod trx;
