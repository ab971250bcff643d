//! A window server core: a table of windows addressed by URL-like strings,
//! four sub-resource views over each window, cascade placement of new
//! windows, input-event routing, and the client-side drawing surface.

pub mod address;
pub mod client;
pub mod compose;
pub mod error;
pub mod launch;
pub mod number;
pub mod resource;
pub mod scheme;
pub mod table;
pub mod text;
pub mod variables;
pub mod window;
