//! The native backend of a desktop application launcher. It discovers
//! installed application bundles in a directory tree, resolves launch
//! requests against user-configured aliases, and supplies a color theme
//! read from user configuration, degrading to built-in defaults on any
//! read or parse failure.

pub mod config;
pub mod discovery;
pub mod launch;
pub mod text;
