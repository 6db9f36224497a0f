pub mod admin;
pub mod clock;
pub mod config;
pub mod laws;
pub mod memory;
pub mod model;
pub mod order;
pub mod orderly;
pub mod origin;
pub mod redis_plan;
pub mod sessions;
pub mod settings;
pub mod sites;
pub mod snapshot;
pub mod text;
pub mod tokens;
