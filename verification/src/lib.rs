//! A verified model of a directory of named build-configuration files.
//!
//! A configuration store is a directory (the "root") holding zero or more
//! files named `.mozconfig-<name>` plus at most one symlink named
//! `.mozconfig` that marks one configuration as active.  This crate holds
//! the store's logic — recognising configuration file names, listing and
//! sorting them, creating and activating configurations, resolving the
//! active pointer, and discovering the root by walking up from a starting
//! directory — over an explicit model of the directory's state.  A caller
//! that works against a real filesystem reads the directory into the model,
//! runs the operations here, and mirrors each successful state change back
//! onto the disk.

pub mod dir;
pub mod names;
pub mod order;
pub mod path;
pub mod store;
