//! Watch-resolve-copy engine of a save-file mirror: the registry of watched
//! locations, the resolution of a changed path to the registration that
//! governs it, the filetype policy, and the destination of each copy.

pub mod text;
pub mod path;
pub mod hash;
pub mod json;
pub mod helper;
pub mod save;
pub mod registry;
pub mod engine;
pub mod scan;
pub mod config;
pub mod system;
