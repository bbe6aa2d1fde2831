//! How a log is opened.

use std::time::Duration;

use vstd::prelude::*;

use crate::upcast::UpcastChain;

verus! {

/// Milliseconds a subscriber waits before it looks again when nothing woke it.
pub const DEFAULT_POLL_INTERVAL: u64 = 100;

/// Milliseconds a statement waits on a contended lock before it fails as busy.
pub const DEFAULT_BUSY_TIMEOUT: u64 = 5000;

/// Read-only connections beside the writer.
pub const DEFAULT_READERS: usize = 2;

/// Open options.
#[non_exhaustive]
pub struct OpenOptions {
    /// How long a statement waits on a lock before it fails as busy. `None` is
    /// [`DEFAULT_BUSY_TIMEOUT`].
    pub busy_timeout: Option<Duration>,
    /// How long between looks for writes made through another log. `None` is
    /// [`DEFAULT_POLL_INTERVAL`].
    pub poll_interval: Option<Duration>,
    /// The upcaster chain every read runs through.
    pub upcasters: UpcastChain,
    /// How many read-only connections to open beside the writer. None puts
    /// everything on the writer, and an in-memory log has none.
    pub readers: usize,
}

impl Default for OpenOptions {
    fn default() -> (options: Self)
        ensures
            options.busy_timeout is None,
            options.poll_interval is None,
            options.upcasters@.len() == 0,
            options.readers == DEFAULT_READERS,
    {
        OpenOptions {
            busy_timeout: None,
            poll_interval: None,
            upcasters: Vec::new(),
            readers: DEFAULT_READERS,
        }
    }
}

impl OpenOptions {
    /// How long a statement waits on a lock before it fails as busy.
    pub fn busy_timeout(self, busy_timeout: Duration) -> (options: Self)
        ensures
            options == (OpenOptions { busy_timeout: Some(busy_timeout), ..self }),
    {
        OpenOptions { busy_timeout: Some(busy_timeout), ..self }
    }

    /// How often a subscription looks for writes made through another log.
    pub fn poll_interval(self, poll_interval: Duration) -> (options: Self)
        ensures
            options == (OpenOptions { poll_interval: Some(poll_interval), ..self }),
    {
        OpenOptions { poll_interval: Some(poll_interval), ..self }
    }

    /// The upcaster chain every read runs through, in place of the one there
    /// was.
    pub fn upcasters(self, upcasters: UpcastChain) -> (options: Self)
        ensures
            options == (OpenOptions { upcasters, ..self }),
    {
        OpenOptions { upcasters, ..self }
    }

    /// How many read-only connections to open beside the writer.
    pub fn readers(self, readers: usize) -> (options: Self)
        ensures
            options == (OpenOptions { readers, ..self }),
    {
        OpenOptions { readers, ..self }
    }
}

/// The defaults: five seconds for a contended lock, a tenth of one between two
/// looks, and two connections that read.
pub proof fn defaults_are_these()
    ensures
        DEFAULT_BUSY_TIMEOUT == 5000,
        DEFAULT_POLL_INTERVAL == 100,
        DEFAULT_READERS == 2,
{
}

} // verus!
