//! The users registered with each application.

pub mod user_handler;
