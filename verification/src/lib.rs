//! Decides whether a machine has to reboot into a staged system: the versions of
//! the tracked components of the booted system are held against those of the
//! staged one.

pub mod error;
pub mod halt;
pub mod module_type;
pub mod readings;
pub mod text;
pub mod upgrade;
pub mod version;
