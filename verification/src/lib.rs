//! Verified core of the CyberFiles user interface: text editing, paths,
//! selection and navigation state, menus and configuration values.

pub mod text;
pub mod path;
pub mod editor_text;
pub mod editor_meta;
pub mod language;
pub mod editor_state;
pub mod selection;
pub mod model;
pub mod icons;
pub mod locale;
pub mod browser;
pub mod menu;
pub mod labels;
pub mod commands;
pub mod session;
pub mod transfer;
pub mod home;
pub mod files_shell;
pub mod shell_menu;
