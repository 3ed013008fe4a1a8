//! Progressive disclosure of OpenAPI documents: the models that describe an
//! API, and the verified logic that renders them level by level.
pub mod strutil;
pub mod models;
pub mod render;
pub mod commands;
pub mod document;
pub mod cli;
