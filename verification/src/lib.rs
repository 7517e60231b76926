//! Brings a remotely stored playlist into a canonical order with as few
//! block moves as a single left-to-right pass allows.
//!
//! The remote store can do one thing to a playlist: lift a block of
//! neighbouring entries out and set it down elsewhere. Every such move is a
//! network call, so the library plans them sparingly. It works in three
//! steps:
//!
//! 1. [`key::build_key`] gives each track a key whose place among the other
//!    keys is the track's place in the canonical order.
//! 2. [`canonical::canonicalize`] turns a collection into its keys, once in
//!    the order at hand and once sorted.
//! 3. [`engine::Reconciler`] walks the sorted keys and says which block to
//!    move next; [`engine::reconcile`] does the same on a local copy.
//!
//! The library performs no input or output. Its caller talks to the remote
//! store and reports back.

pub mod canonical;
pub mod delay;
pub mod engine;
pub mod error;
pub mod item;
pub mod key;
pub mod key_laws;
pub mod laws;
pub mod moves;
pub mod order;
pub mod plan;
pub mod playlist;
pub mod sort;

pub use canonical::{canonicalize, Canonicalizer};
pub use delay::DelayPolicy;
pub use engine::{reconcile, InternalConsistencyError, Reconciler};
pub use error::{Field, ValidationError};
pub use item::{Episode, Item, Track};
pub use key::build_key;
pub use moves::MoveOperation;
pub use order::precedes_or_equals;
pub use playlist::{owned_playlists, pick, Playlist};
pub use sort::sort_keys;
