//! Verified core of a split-screen game launcher: window layouts, the session
//! model, the input-device lease table, launch-command assembly and the
//! small protocols around them.

pub mod input;
pub mod keys;
pub mod instance;
pub mod layout;
pub mod layout_manager;
pub mod launch;
pub mod random;
pub mod remote;
pub mod seqs;
pub mod screens;
pub mod session;
pub mod text;
pub mod toasts;
pub mod unshare;
pub mod util;
pub mod video;
