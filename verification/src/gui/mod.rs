//! The text that the windows of the graphical interface show.
pub mod repository_window;
pub mod visual_branches;
