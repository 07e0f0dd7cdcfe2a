//! A status-line aggregator: metric producers, an ordered latest-value
//! view of their entries, and the streaming protocol that renders it.
pub mod audio;
pub mod i3;
pub mod link;
pub mod mem;
pub mod metrics;
pub mod parse;
pub mod text;
