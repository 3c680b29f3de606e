//! Options of the key-value store, with the values this crate opens it with.

use vstd::prelude::*;

verus! {

/// Options for opening the store. Flags are 0 or 1; the dirty-ratio
/// threshold is in percent.
#[allow(non_camel_case_types)]
#[derive(Clone, Copy, Debug, PartialEq, Eq, Structural)]
pub struct kv_options {
    pub create_if_missing: u8,
    pub error_if_exists: u8,
    pub memory_index: u8,
    pub low_level_fmt: u8,
    pub dirty_ratio_thr_percent: u32,
    pub memtable_size: u64,
    pub wal_ver_gap: u64,
    pub wal_sec_gap: u64,
    pub wal_cache_size: u64,
    pub wal_pre_rd_size: u64,
    pub cp_downloader_threadnum: u32,
}

#[allow(non_camel_case_types)]
pub type kvnvme_options_t = kv_options;

impl kv_options {
    /// Create the store if missing, fail if it exists, index in memory,
    /// format at low level, 10% dirty ratio, 1024 for the memtable and the
    /// log cache, no log gaps, 16 pages of log read-ahead, one downloader thread.
    pub fn new() -> (o: kvnvme_options_t)
        ensures
            o == (kv_options {
                create_if_missing: 1,
                error_if_exists: 1,
                memory_index: 1,
                low_level_fmt: 1,
                dirty_ratio_thr_percent: 10,
                memtable_size: 1024,
                wal_ver_gap: 0,
                wal_sec_gap: 0,
                wal_cache_size: 1024,
                wal_pre_rd_size: 16,
                cp_downloader_threadnum: 1,
            }),
    {
        kv_options {
            create_if_missing: 1,
            error_if_exists: 1,
            memory_index: 1,
            low_level_fmt: 1,
            dirty_ratio_thr_percent: 10,
            memtable_size: 1024,
            wal_ver_gap: 0,
            wal_sec_gap: 0,
            wal_cache_size: 1024,
            wal_pre_rd_size: 16,
            cp_downloader_threadnum: 1,
        }
    }
}

/// Options for writes: whether each write is synced.
#[allow(non_camel_case_types)]
#[derive(Clone, Copy, Debug, PartialEq, Eq, Structural)]
pub struct kv_write_options {
    pub sync: u8,
}

#[allow(non_camel_case_types)]
pub type kvnvme_writeoptions_t = kv_write_options;

impl kv_write_options {
    /// Synced writes.
    pub fn new() -> (o: kvnvme_writeoptions_t)
        ensures
            o == (kv_write_options { sync: 1 }),
    {
        kv_write_options { sync: 1 }
    }
}

/// A snapshot of the store: the sequence number reads are taken at.
#[allow(non_camel_case_types)]
#[derive(Clone, Copy, Debug, PartialEq, Eq, Structural)]
pub struct kv_snapshot {
    pub seqnum: u64,
}

impl kv_snapshot {
    /// A snapshot at sequence number 0.
    pub fn new() -> (s: kv_snapshot)
        ensures
            s == (kv_snapshot { seqnum: 0 }),
    {
        kv_snapshot { seqnum: 0 }
    }
}

/// Options for reads: the snapshot they read at, borrowed from the caller.
#[allow(non_camel_case_types)]
pub struct kv_read_options<'a> {
    pub version: &'a mut kv_snapshot,
}

#[allow(non_camel_case_types)]
pub type kvnvme_readoptions_t<'a> = kv_read_options<'a>;

impl<'a> kv_read_options<'a> {
    /// Reads at the caller's snapshot `snap`, which the options hold on to:
    /// what is written through them becomes the snapshot.
    pub fn new(snap: &'a mut kv_snapshot) -> (o: kvnvme_readoptions_t<'a>)
        ensures
            *o.version == *old(snap),
            *final(snap) == *final(o.version),
    {
        kv_read_options { version: snap }
    }
}

} // verus!
