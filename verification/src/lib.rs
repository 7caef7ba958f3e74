//! Inspecting and managing XDG settings: the base-directory variables, the
//! MIME default-application associations of `mimeapps.list`, and the
//! installed desktop applications, with the state and key handling of the
//! terminal interface that shows them.

use vstd::prelude::*;

pub mod app;
pub mod desktop_entries;
pub mod input;
pub mod mime;
pub mod text;
pub mod ui;
pub mod xdg_base;

verus! {
} // verus!
