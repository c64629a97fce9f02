//! A transactional-mail library: file-backed templates with layout
//! inheritance and placeholder substitution, plus a delivery scheduler
//! with priority ordering and bounded retries.
//!
//! Text is handled as UTF-8 byte vectors throughout; the surrounding
//! application converts to and from `String` at its edges.

pub mod text;
pub mod value;
pub mod sanitize;
pub mod template;
pub mod store;
pub mod layout;
pub mod render;
pub mod scheduler;
pub mod time;
pub mod submit;
pub mod api;
