use vstd::prelude::*;
use crate::error::DbError;

verus! {

/// Largest pool allowed: connections are bounded.
pub const MAX_POOL_SIZE: u32 = 64;

/// Pool size used when none is given.
pub const DEFAULT_POOL_SIZE: u32 = 10;

/// Settings of the connection pool.
pub struct PoolConfig {
    /// Address and credentials of the store.
    pub url: String,
    /// Connections kept open while idle.
    pub min_idle: u32,
    /// Most connections open at once.
    pub max_size: u32,
}

/// Settings that a pool can be built from: an address, and sizes with
/// `min_idle <= max_size`, `1 <= max_size <= MAX_POOL_SIZE`.
pub open spec fn config_ok(url: Seq<char>, min_idle: u32, max_size: u32) -> bool {
    &&& url.len() > 0
    &&& 1 <= max_size <= MAX_POOL_SIZE
    &&& min_idle <= max_size
}

impl PoolConfig {
    /// Settings for `url` with the default sizes: no idle minimum, at most
    /// `DEFAULT_POOL_SIZE` connections.
    pub fn new(url: String) -> (r: PoolConfig)
        ensures
            r.url == url,
            r.min_idle == 0,
            r.max_size == DEFAULT_POOL_SIZE,
    {
        PoolConfig { url, min_idle: 0, max_size: DEFAULT_POOL_SIZE }
    }

    /// Checks the settings before any connection is made; `ConnectionError`
    /// when the address is empty or the sizes are out of bounds.
    pub fn validate(&self) -> (r: Result<(), DbError>)
        ensures
            r is Ok <==> config_ok(self.url@, self.min_idle, self.max_size),
            r is Err ==> r == Err::<(), DbError>(DbError::ConnectionError),
    {
        if self.url.as_str().is_empty() || self.max_size == 0 || self.max_size > MAX_POOL_SIZE
            || self.min_idle > self.max_size {
            Err(DbError::ConnectionError)
        } else {
            Ok(())
        }
    }
}

} // verus!
