//! Storage configuration and connection-pool health.
use vstd::prelude::*;

verus! {

/// Configuration of the storage engine.
#[derive(Debug, Clone)]
pub struct DatabaseConfig {
    pub path: String,
    pub enable_wal: bool,
    /// Page cache size; negative values are KiB.
    pub cache_size: i64,
    /// Busy timeout in milliseconds.
    pub busy_timeout: u32,
    pub synchronous: String,
    pub max_connections: u32,
    pub min_connections: u32,
    pub enable_read_replicas: bool,
    pub read_replica_paths: Vec<String>,
}

impl Default for DatabaseConfig {
    fn default() -> (r: DatabaseConfig)
        ensures
            r.path@ == "mindcache.db"@,
            r.enable_wal,
            r.cache_size == -64000,
            r.busy_timeout == 30000,
            r.synchronous@ == "NORMAL"@,
            r.max_connections == 10 && r.min_connections == 2,
            !r.enable_read_replicas && r.read_replica_paths@.len() == 0,
    {
        DatabaseConfig {
            path: "mindcache.db".to_string(),
            enable_wal: true,
            cache_size: -64000,
            busy_timeout: 30000,
            synchronous: "NORMAL".to_string(),
            max_connections: 10,
            min_connections: 2,
            enable_read_replicas: false,
            read_replica_paths: Vec::new(),
        }
    }
}

/// Occupancy of one connection pool.
#[derive(Debug, Clone)]
pub struct PoolStatus {
    pub connections: u32,
    pub idle_connections: u32,
    pub max_connections: u32,
    pub min_connections: u32,
}

/// A pool is healthy when it holds a connection and fewer than nine tenths
/// of its capacity are leased.
pub open spec fn pool_healthy(s: PoolStatus) -> bool {
    &&& s.connections > 0
    &&& (s.max_connections == 0 || 10 * (s.connections - s.idle_connections) < 9
        * s.max_connections)
}

impl PoolStatus {
    /// No more connections are idle than exist.
    pub open spec fn wf(&self) -> bool {
        self.idle_connections <= self.connections
    }

    /// Connections currently leased.
    pub fn busy_connections(&self) -> (r: u32)
        requires
            self.wf(),
        ensures
            r == self.connections - self.idle_connections,
    {
        self.connections - self.idle_connections
    }

    /// Whether the pool has a connection and is under nine tenths leased.
    pub fn is_healthy(&self) -> (r: bool)
        requires
            self.wf(),
        ensures
            r == pool_healthy(*self),
    {
        let busy = self.busy_connections() as u64;
        self.connections > 0 && (self.max_connections == 0 || 10 * busy < 9
            * self.max_connections as u64)
    }
}

/// Occupancy of the write pool and of every read pool.
#[derive(Debug, Clone)]
pub struct DatabasePoolStatus {
    pub write_pool: PoolStatus,
    pub read_pools: Vec<PoolStatus>,
}

impl DatabasePoolStatus {
    pub open spec fn wf(&self) -> bool {
        &&& self.write_pool.wf()
        &&& forall|i: int| 0 <= i < self.read_pools@.len() ==> (#[trigger] self.read_pools@[i]).wf()
    }

    /// Healthy when the write pool and every read pool are.
    pub fn is_healthy(&self) -> (r: bool)
        requires
            self.wf(),
        ensures
            r == (pool_healthy(self.write_pool) && forall|i: int|
                0 <= i < self.read_pools@.len() ==> pool_healthy(#[trigger] self.read_pools@[i])),
    {
        if !self.write_pool.is_healthy() {
            return false;
        }
        let mut i: usize = 0;
        while i < self.read_pools.len()
            invariant
                self.wf(),
                i <= self.read_pools@.len(),
                forall|j: int| 0 <= j < i ==> pool_healthy(#[trigger] self.read_pools@[j]),
            decreases self.read_pools@.len() - i,
        {
            if !self.read_pools[i].is_healthy() {
                return false;
            }
            i = i + 1;
        }
        true
    }
}

/// Reachability and pool health of the store.
#[derive(Debug, Clone)]
pub struct DatabaseHealth {
    pub database_accessible: bool,
    pub vector_search_available: bool,
    pub pool_status: Option<DatabasePoolStatus>,
    pub last_error: Option<String>,
}

impl DatabaseHealth {
    pub open spec fn wf(&self) -> bool {
        self.pool_status matches Some(p) ==> p.wf()
    }

    /// Healthy when the store is reachable, its pools (if known) are healthy
    /// and no error was recorded.
    pub fn is_healthy(&self) -> (r: bool)
        requires
            self.wf(),
        ensures
            r == (self.database_accessible && self.last_error.is_none() && match self.pool_status {
                None => true,
                Some(p) => pool_healthy(p.write_pool) && forall|i: int|
                    0 <= i < p.read_pools@.len() ==> pool_healthy(#[trigger] p.read_pools@[i]),
            }),
    {
        let pools_ok = match &self.pool_status {
            None => true,
            Some(p) => p.is_healthy(),
        };
        self.database_accessible && pools_ok && self.last_error.is_none()
    }
}

/// Counts of stored embeddings.
#[derive(Debug, Clone)]
pub struct VectorStats {
    pub total_embeddings: i64,
    /// Number of embeddings per model tag.
    pub models: Vec<(String, i64)>,
    pub dimension: usize,
}

} // verus!
