//! Verified core of the con workspace: tab bookkeeping, pane and surface
//! targeting, command history, naming heuristics, input completion and the
//! small state machines that drive deferred UI work.
pub mod text;
pub mod control;
pub mod history;
pub mod tabs;
pub mod naming;
pub mod panes;
pub mod completion;
pub mod suggest;
pub mod watch;
pub mod deferred;
pub mod window;
pub mod routing;
pub mod chrome;
pub mod keys;
pub mod scope;
pub mod workspace;
