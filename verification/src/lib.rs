pub mod text;
pub mod html;
pub mod client;
pub mod json;
pub mod models;
pub mod paths;
pub mod api;
pub mod deadline;
pub mod endpoints;
pub mod cli;
pub mod table;
pub mod listing;
pub mod attachments;
pub mod login;
pub mod detail;
