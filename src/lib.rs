//! A static-site generator's core: a layout compiled once and filled per
//! page from the page's top-level elements, with a sidecar that records
//! each injected fragment; and the development server's responder and
//! change watcher, as decisions that their caller carries out.
pub mod config;
pub mod markup;
pub mod paths;
pub mod server;
pub mod site;
pub mod template;
