//! A message-driven state-update runtime in the style of the Elm
//! architecture, built on the `leptos_reactive` signal store.
//!
//! An update function receives one message at a time and may enqueue
//! follow-up work on a [`queue::Cmd`]: further messages, delivered one
//! microtask each, and asynchronous effects, each spawned as a detached
//! task whose eventual messages re-enter the update loop.
//! [`dispatcher::MsgDispatcher`] is the copyable capability that writes one
//! message into the store.
//!
//! The ordering guarantees of the flush protocol are stated and proved over
//! an explicit model of the host scheduler in [`model`]; the real path in
//! [`queue`] and [`dispatcher`] performs the same steps through the trusted
//! boundary in [`reactive`].

pub mod dispatcher;
pub mod model;
pub mod queue;
pub mod reactive;

pub use dispatcher::MsgDispatcher;
pub use queue::Cmd;
