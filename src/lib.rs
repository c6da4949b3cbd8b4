//! A record-to-entity data pipeline: chunked sources, a parallel batch
//! pipeline, a streaming pipeline, entity validation and a step registry.

pub mod error;
pub mod laws;
pub mod multi_extract;
pub mod pipeline;
pub mod recipe_config;
pub mod record;
pub mod registry;
pub mod source;
pub mod stream;
pub mod user;
