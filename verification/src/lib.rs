//! Version stamping and the `/jump` turn-navigation command of the pager.

pub mod text;
pub mod semver_version;
pub mod version;
pub mod jump_command;
pub mod jump_dispatch;
pub mod build_stamp;
