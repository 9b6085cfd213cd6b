//! Per-key expiry settings.
use vstd::prelude::*;
use crate::clock::now_ms;

verus! {

/// The expiry of one key.
#[derive(Clone, Copy, Debug)]
pub struct Config {
    /// Absolute expiry time, in milliseconds since the Unix epoch.
    pub expire_at: Option<u64>,
    pub updated_at: Option<u64>,
}

pub open spec fn expired_at(c: Config, now: u64) -> bool {
    match c.expire_at {
        Some(t) => now >= t,
        None => false,
    }
}

impl Default for Config {
    fn default() -> (r: Self)
        ensures
            r.expire_at is None,
            r.updated_at is None,
    {
        Config { expire_at: None, updated_at: None }
    }
}

impl Config {
    /// Whether the key has expired when the clock reads `now`.
    pub fn is_expired_at(&self, now: u64) -> (r: bool)
        ensures
            r == expired_at(*self, now),
    {
        match self.expire_at {
            Some(t) => now >= t,
            None => false,
        }
    }

    /// Whether the key has expired by the wall clock.
    pub fn is_expired(&self) -> (r: bool)
        ensures
            self.expire_at is None ==> !r,
            exists|now: u64| r == #[trigger] expired_at(*self, now),
    {
        let now = now_ms();
        self.is_expired_at(now)
    }
}

} // verus!
