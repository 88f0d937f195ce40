//! A registry of plugin scripts that become subcommands of a host tool:
//! manifests and their JSON form, the plugin directory as name/bytes pairs,
//! admission, the command tree, argument forwarding, and zip bundles.

use vstd::prelude::*;

pub mod json;
pub mod manifest;
pub mod registry;
pub mod admission;
pub mod dispatch;
pub mod tree;
pub mod bundle;
pub mod archive;
