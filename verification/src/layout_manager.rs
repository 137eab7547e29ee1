//! Layouts that the nested compositors' window manager asks for.

pub mod layout_scripts;
