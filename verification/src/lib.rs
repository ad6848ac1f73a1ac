//! Core of an Emacs-style text editor: a rope-backed buffer, multi-cursor
//! editing, a coalescing undo history, kill and mark rings, and a prefix-aware
//! key resolver.
pub mod chars;
pub mod key;
pub mod keymap;
pub mod resolver;
pub mod cursor;
pub mod default;
pub mod dispatch;
pub mod editing;
pub mod editor;
pub mod file_cmds;
pub mod kill_ring;
pub mod kill_yank;
pub mod mark;
pub mod minibuffer;
pub mod motion;
pub mod rope;
pub mod rope_ext;
pub mod undo;
pub mod window_cmds;
pub mod window_mgr;
pub mod buffer;
pub mod buffer_cmds;
pub mod buffer_mgr;
pub mod position;
pub mod registry;

use vstd::prelude::*;

verus! {

} // verus!
