//! A link dashboard's configuration core: the validated configuration
//! document, a canonical JSON codec for it, the store that readers and the
//! single writer share, the save workflow, and the page rendering rules.

pub mod codec;
pub mod icon;
pub mod model;
pub mod render;
pub mod store;
pub mod workflow;
