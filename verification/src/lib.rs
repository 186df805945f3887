//! `trail-stash`: an always-on, ciphertext-blind trail replica.
//!
//! Two phones that are rarely online at the same time exchange encrypted trails through a member
//! of their pool that never sleeps. This library is that member's logic: what it replicates and for
//! whom, which content it still owes its readers, when it wakes them, when it lets go, and how it
//! answers its control API. It is never a recipient: it holds opaque ciphertext, has no keys and
//! performs no cryptography.
//!
//! * **In memory.** Nothing is written to disk; a restart clears everything, and devices register
//!   again.
//! * **Opt-in.** Nothing is replicated until a device presents a read ticket.
//! * **Blind logging.** Addresses, identifiers and push tokens are kept out of logs.
//!
//! [`stash_model`] states the node as a state machine and proves what holds of every state;
//! [`node`] implements it. The connections, the clock's ticking and the HTTP transport are the
//! program's around this library.

pub mod api;
pub mod auth;
pub mod clock;
pub mod config;
pub mod content;
pub mod control;
pub mod entry;
pub mod json;
pub mod log_redaction;
pub mod mls;
pub mod node;
pub mod push;
pub mod relay;
pub mod retention;
pub mod stash_laws;
pub mod stash_model;
pub mod subscriptions;
pub mod table;
pub mod telemetry;
pub mod text;
pub mod waker;
