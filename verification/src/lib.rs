//! Proxy auto-configuration: deciding, for a destination URL, whether traffic
//! goes `DIRECT` or through a proxy server.

pub mod canonical;
pub mod directive;
pub mod fnmatch;
pub mod pac;
pub mod parser;
pub mod resolver;
pub mod script;
pub mod settings;
pub mod text;
