pub mod sanitize;
pub mod fields;
pub mod endpoint;
pub mod schema;
pub mod search;
pub mod text;
