//! Query parsing, upstream data shaping and reply rendering for an SMS
//! transit-information bot.

pub mod admin;
pub mod auth;
pub mod location;
pub mod messages;
pub mod odws;
pub mod parse;
pub mod routes;
pub mod schedule;
pub mod settings;
pub mod stops;
pub mod text;
pub mod twilio;
