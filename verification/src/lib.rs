//! The decisions behind a terminal board of coding sessions.
//!
//! A frame of the board is a list of draws ([`draw`]), made from the state of the
//! board ([`app`]) by [`board`] and the modules it draws on. What a pane shows of a
//! transcript, and what a click in it finds, rests on the rows that its lines wrap
//! to ([`rows`]). Beside the frames stand the decisions on what happens around the
//! board ([`watch`], [`threads`]) and on which directories make up a project ([`worktrees`]).

pub mod agents;
pub mod app;
pub mod board;
pub mod chrome;
pub mod clock;
pub mod compose;
pub mod draw;
pub mod geometry;
pub mod highlight;
pub mod labels;
pub mod links;
pub mod list;
pub mod modal;
pub mod paths;
pub mod preview;
pub mod rows;
pub mod scroll;
pub mod store;
pub mod style;
pub mod text;
pub mod threads;
pub mod watch;
pub mod worktrees;
