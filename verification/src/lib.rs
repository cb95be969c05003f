//! The verified core of a sensor gateway.
//!
//! Simulated sensors fill rings (`queue`, `sensor`), readers poll them at a pace that a governor
//! sets (`governor`, `buffer`), their readings are summed up over windows (`types`), a storage
//! worker publishes each window as files (`storage`), and a dashboard answers queries out of
//! these files (`dashboard`, `helpers`).
//!
//! Nothing here does input or output, runs a thread or computes in floating point. Doubles are
//! carried by their bits (`binary64`), and that mean and sum of squares are brought up to date
//! rightly, but for rounding, is shown in exact arithmetic (`moments`). Texts are taken apart in
//! `text`, JSON is read and written by the `serde_json` crate, behind `json`, and responses are
//! made by the `hotaru` crate, behind `response`.

pub mod binary64;
pub mod buffer;
pub mod dashboard;
pub mod governor;
pub mod helpers;
pub mod json;
pub mod moments;
pub mod queue;
pub mod response;
pub mod sensor;
pub mod storage;
pub mod text;
pub mod types;
