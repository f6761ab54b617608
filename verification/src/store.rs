//! The per-store handle: a store name (`metastore` or `cachestore`) bound
//! to its retention configuration, with the name-building and parsing
//! entry points the persistence protocol uses.

use vstd::prelude::*;

verus! {

use crate::naming::spec_current_object;
use crate::naming::spec_logs_dir;
use crate::naming::spec_snapshot_id_of_path;
use crate::naming::spec_snapshot_prefix;
use crate::naming::current_object;
use crate::naming::logs_dir;
use crate::naming::snapshot_id_of_path;
use crate::naming::snapshot_prefix;
use crate::retention::RetentionSweep;

/// The snapshot options a deployment configures, one copy per process;
/// retention reads the pair matching the store it manages.
pub struct SnapshotsConfig {
    /// How many metastore snapshots retention always keeps (floored at 1).
    pub minimum_metastore_snapshots_count: u64,
    /// How long a metastore snapshot is kept, in seconds.
    pub metastore_snapshots_lifetime: u64,
    /// How many cachestore snapshots retention always keeps (floored at 1).
    pub minimum_cachestore_snapshots_count: u64,
    /// How long a cachestore snapshot is kept, in seconds.
    pub cachestore_snapshots_lifetime: u64,
    /// How many files one deletion batch may hold.
    pub snapshots_deletion_batch_size: u64,
}

/// One store's binding to the shared persistence protocol: its name
/// prefixes every remote object the store owns, and the retention numbers
/// govern its sweeps.
#[derive(Clone)]
pub struct BaseRocksStoreFs {
    /// The store name: the prefix of every remote path of this store.
    pub name: String,
    /// How many snapshots retention always keeps (floored at 1 when used).
    pub minimum_snapshots_count: u64,
    /// How long a snapshot is kept, in seconds.
    pub snapshots_lifetime: u64,
    /// How many files one deletion batch may hold.
    pub snapshots_deletion_batch_size: u64,
}

impl BaseRocksStoreFs {
    /// The handle of the metastore, under the metastore retention numbers.
    pub fn new_for_metastore(config: &SnapshotsConfig) -> (r: Self)
        ensures
            r.name@ == "metastore"@,
            r.minimum_snapshots_count == config.minimum_metastore_snapshots_count,
            r.snapshots_lifetime == config.metastore_snapshots_lifetime,
            r.snapshots_deletion_batch_size == config.snapshots_deletion_batch_size,
    {
        BaseRocksStoreFs {
            name: String::from_str("metastore"),
            minimum_snapshots_count: config.minimum_metastore_snapshots_count,
            snapshots_lifetime: config.metastore_snapshots_lifetime,
            snapshots_deletion_batch_size: config.snapshots_deletion_batch_size,
        }
    }

    /// The handle of the cachestore, under the cachestore retention
    /// numbers.
    pub fn new_for_cachestore(config: &SnapshotsConfig) -> (r: Self)
        ensures
            r.name@ == "cachestore"@,
            r.minimum_snapshots_count == config.minimum_cachestore_snapshots_count,
            r.snapshots_lifetime == config.cachestore_snapshots_lifetime,
            r.snapshots_deletion_batch_size == config.snapshots_deletion_batch_size,
    {
        BaseRocksStoreFs {
            name: String::from_str("cachestore"),
            minimum_snapshots_count: config.minimum_cachestore_snapshots_count,
            snapshots_lifetime: config.cachestore_snapshots_lifetime,
            snapshots_deletion_batch_size: config.snapshots_deletion_batch_size,
        }
    }

    /// The store's name.
    pub fn get_name(&self) -> (r: &str)
        ensures
            r@ == self.name@,
    {
        self.name.as_str()
    }

    /// `{name}-`: the prefix every remote object of this store lies under;
    /// both sweep passes list it.
    pub fn list_prefix(&self) -> (r: String)
        ensures
            r@ == self.name@ + "-"@,
    {
        let mut s = self.name.clone();
        s.append("-");
        s
    }

    /// `{name}-current`: the pointer object naming the active snapshot.
    pub fn current_object_name(&self) -> (r: String)
        ensures
            r@ == spec_current_object(self.name@),
    {
        current_object(self.name.as_str())
    }

    /// `{name}-{id}`: the remote prefix of snapshot `id`'s file set.
    pub fn snapshot_files_prefix(&self, snapshot: u128) -> (r: String)
        ensures
            r@ == spec_snapshot_prefix(self.name@, snapshot as nat),
    {
        snapshot_prefix(self.name.as_str(), snapshot)
    }

    /// `{name}-{id}-logs`: the directory of snapshot `id`'s log chunks.
    pub fn snapshot_logs_prefix(&self, snapshot: u128) -> (r: String)
        ensures
            r@ == spec_logs_dir(self.name@, snapshot as nat),
    {
        logs_dir(self.name.as_str(), snapshot)
    }

    /// The snapshot id a listed file name carries, under this store's
    /// remote prefix (the store name followed by `-`).  A name of any
    /// other shape carries none and is ignored by retention.
    pub fn metastore_file_snapshot_number(
        remote_prefix: &String,
        path_to_file_in_metastore: &String,
    ) -> (r: Option<u128>)
        ensures
            r == spec_snapshot_id_of_path(remote_prefix@, path_to_file_in_metastore@),
    {
        snapshot_id_of_path(remote_prefix.as_str(), path_to_file_in_metastore.as_str())
    }

    /// Start the retention sweeper's selection pass as of time `now_ms`
    /// (milliseconds since the epoch): the capacity is this store's
    /// minimum snapshot count floored at 1, and the lifetime cutoff lies
    /// `snapshots_lifetime` seconds before `now_ms` (never below zero).
    pub fn sweep_begin(&self, now_ms: u128) -> (r: RetentionSweep)
        ensures
            r.inv(),
            r.seen() == Set::<u128>::empty(),
            !r.deletable(),
            r.capacity() == if self.minimum_snapshots_count >= 1 {
                self.minimum_snapshots_count as nat
            } else {
                1nat
            },
            r.cutoff() == spec_lifetime_cutoff(now_ms, self.snapshots_lifetime),
    {
        let lifetime_ms = (self.snapshots_lifetime as u128) * 1000;
        let cutoff_ms = if now_ms >= lifetime_ms {
            now_ms - lifetime_ms
        } else {
            0
        };
        RetentionSweep::begin(self.minimum_snapshots_count, cutoff_ms)
    }
}

/// The lifetime cutoff: `lifetime` seconds before `now_ms`, floored at the
/// epoch.
pub open spec fn spec_lifetime_cutoff(now_ms: u128, lifetime: u64) -> u128 {
    if now_ms >= lifetime * 1000 {
        (now_ms - lifetime * 1000) as u128
    } else {
        0
    }
}

} // verus!
