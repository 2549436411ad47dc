//! Planning and checking for building a Unity version's fixture assets.

pub mod text;
pub mod version;
pub mod variant;
pub mod files;
pub mod run;
pub mod manifest;
pub mod order;
