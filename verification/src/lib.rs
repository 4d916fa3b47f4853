//! Finding, reviewing and running the uninstall commands that Windows keeps
//! for installed applications.

pub mod text;
pub mod browse;
pub mod command_line;
pub mod installed_app;
pub mod jobs;
pub mod sorting;
pub mod scanner;
pub mod settings;
pub mod uninstaller;
pub mod queue;
