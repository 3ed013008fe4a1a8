pub mod resource;
pub mod schema;
pub mod operation;
pub mod json;
pub mod openapi;
