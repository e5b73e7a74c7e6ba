//! Synchronisation of a local news reader with a server that speaks the Google
//! Reader interface: FreshRSS or Miniflux.
//!
//! The crate holds the logic and performs no input or output. Each operation is a
//! machine: `action` names the next request or access to the local store, and
//! `accept` takes in how it ended. What an operation does is stated over the
//! mathematical view of its machine, and what it promises as a whole, whatever
//! the server and the store answer, by the proof functions whose names begin with
//! `law_`.
//!
//! A full synchronisation ([`sync`]) pushes queued local changes ([`queue`]),
//! brings the folders over ([`folders`]), aligns the subscription lists
//! ([`feeds`]), pulls the server's articles ([`pull`], [`paging`]) and applies
//! their state to the local ones ([`reconcile`]). What the latter comes to on a
//! model of the store is stated in [`shelf`] and [`second_run`].
pub mod data;
pub mod feeds;
pub mod folders;
pub mod greader;
pub mod http;
pub mod item;
pub mod opening;
pub mod paging;
pub mod provider;
pub mod pull;
pub mod queue;
pub mod reconcile;
pub mod second_run;
pub mod settings;
pub mod shelf;
pub mod subscriptions;
pub mod sync;
pub mod tags;
pub mod text;
pub mod world;
