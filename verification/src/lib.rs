//! A closed model of normalized input events and the rules by which they are
//! routed to listeners and to key-bound actions.
//!
//! - [`geometry`] and [`keystroke`] hold the small values that events carry:
//!   pixel lengths and points, modifier snapshots, keystrokes and their
//!   written form.
//! - [`paths`] holds the files of a drag that comes from outside.
//! - [`events`] holds the events themselves, the queries that every consumer
//!   needs (`position`, `mouse_event`, `keyboard_event`), and the checked way
//!   back from a narrowed handle to a payload.
//! - [`keymap`] holds the table of key bindings and says which binding a
//!   keystroke resolves to under a chain of key contexts.
//! - [`router`] holds the interface tree, the listeners and the focus, and
//!   plans the dispatch of an event; [`pass`] hands the planned calls out to
//!   the host one by one and takes each listener's answer.
//!
//! The library calls no listener itself. The host owns the listeners, asks a
//! pass for the next call, makes it, and reports how it went.

pub mod events;
pub mod focus;
pub mod geometry;
pub mod keymap;
pub mod keystroke;
pub mod pass;
pub mod paths;
pub mod router;
