//! The EasOS kernel: discovery, installation, removal, start and stop of the
//! plugins of an EasOS workspace, and the control protocol that drives it.
pub mod text;
pub mod textmap;
pub mod error;
pub mod model;
pub mod path;
pub mod layout;
pub mod rooted_layout;
pub mod registry;
pub mod kernel;
pub mod process;
pub mod protocol;
pub mod command;
