//! A terminal file browser's navigation core.
//!
//! The library models a two-pane directory view: the subfolders and the
//! regular files of one current directory, each pane with its own selection
//! cursor. It provides the state transitions that keyboard input drives
//! (moving a cursor, descending into the selected folder, ascending to the
//! parent, opening the selected file, quitting), together with the snapshot
//! logic that turns a raw directory listing into the two sorted panes.
//!
//! Reading directories, drawing the panes and launching the operating
//! system's file handler are left to the embedding program; the library
//! works on plain path strings and listing entries handed to it.

pub mod listing;
pub mod nav;
pub mod order;
pub mod path;
