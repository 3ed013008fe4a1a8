pub mod auth;
pub mod endpoint;
pub mod examples;
pub mod init;
pub mod overview;
pub mod resources;
pub mod schemas;
pub mod search;
