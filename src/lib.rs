//! Shared-memory ring buffer transport: the region and block layouts, the
//! single-producer/single-consumer ring over them, the result-subscription
//! registry and the session lifecycle's decisions.
use vstd::prelude::*;

pub mod codec;
pub mod error;
pub mod producer;
pub mod region;
pub mod registry;
pub mod ringbuf;
pub mod session;
pub mod settings;

pub use error::{Error, Result};
pub use ringbuf::{Message, Ringbuf};
pub use settings::{ProducerSettings, ProducerSettingsBuilder};

verus! {

} // verus!
