//! A request sink: it records the HTTP requests sent to it, answers them, and
//! shows them on an admin page.

pub mod admin;
pub mod archive;
pub mod batch;
pub mod context;
pub mod ignore;
pub mod reply;
pub mod request;
pub mod serve;
pub mod string_map;
pub mod target;
pub mod text;
