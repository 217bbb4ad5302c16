//! Quota notification logic: localized texts, template rendering, dedup keys,
//! the persisted dedup state and the decisions that turn quota readings into notices.

pub mod clock;
pub mod dedup;
pub mod keys;
pub mod laws;
pub mod notify;
pub mod render;
pub mod store;
pub mod strings;
pub mod texts;
