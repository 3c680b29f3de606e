use bidx::addr::Addr;
use bidx::bench::{rate_kb_per_sec, total_kb};
use bidx::convert::internal_value;
use bidx::index::{IdxBlock, Pattr};
use bidx::indexapi4c::{
    index_del, index_get, index_key_count, index_memory_used, index_put, index_reserve_entry,
    index_shrink, Index, ReplaceRet,
};
use bidx::kvdb::{kv_options, kv_read_options, kv_snapshot, kv_write_options};
use bidx::rbio::page_key;

fn internal_key(ktype: u8, cid: u32, page: u32) -> Vec<u8> {
    let mut k = vec![0u8, 0, 0, 0, 0, 0, 0, ktype, 0xee];
    k.extend_from_slice(&page_key(cid, page, 0));
    k
}

fn value(block: u64, offset: u64) -> internal_value {
    internal_value { size: 4096, block, offset }
}

#[test]
fn page_key_is_bincode_of_word() {
    let k = page_key(7, 1, 3);
    let w: u64 = (7u64 << 32) | 4;
    assert_eq!(k, bincode::serialize(&w).unwrap());
    assert_eq!(k, vec![4, 0, 0, 0, 7, 0, 0, 0]);
}

#[test]
fn get_after_put() {
    let mut idx = Index::new();
    let k = internal_key(5, 7, 1000);
    assert_eq!(index_get(&idx, &k), None);
    let r = index_put(&mut idx, &k, internal_value { size: 1, block: 3, offset: 9 });
    assert_eq!(r, (ReplaceRet::S_NULL, None));
    assert_eq!(index_get(&idx, &k), Some(value(3, 9)));
    let r = index_put(&mut idx, &k, value(4, 10));
    assert_eq!(r, (ReplaceRet::S_NEW, Some(value(3, 9))));
    assert_eq!(index_get(&idx, &k), Some(value(4, 10)));
}

#[test]
fn get_after_put_then_calls_on_other_addresses() {
    let mut idx = Index::new();
    let k = internal_key(1, 9, 77);
    index_put(&mut idx, &k, value(3, 4));
    index_put(&mut idx, &internal_key(1, 9, 78), value(5, 5));
    index_del(&mut idx, &internal_key(1, 9, 76));
    index_put(&mut idx, &internal_key(1, 10, 77), value(6, 6));
    index_del(&mut idx, &internal_key(1, 9, 78));
    assert_eq!(index_get(&idx, &k), Some(value(3, 4)));
    assert_eq!(index_get(&idx, &internal_key(8, 9, 77)), Some(value(3, 4)));
}

#[test]
fn put_keeps_other_keys() {
    let mut idx = Index::new();
    let k1 = internal_key(1, 7, 1000);
    let k2 = internal_key(1, 7, 1001);
    let k3 = internal_key(1, 8, 1000);
    index_put(&mut idx, &k1, value(1, 1));
    assert_eq!(index_get(&idx, &k2), None);
    assert_eq!(index_get(&idx, &k3), None);
    index_put(&mut idx, &k2, value(2, 2));
    assert_eq!(index_get(&idx, &k1), Some(value(1, 1)));
    assert_eq!(index_get(&idx, &k2), Some(value(2, 2)));
}

#[test]
fn header_byte_ignored_by_get() {
    let mut idx = Index::new();
    index_put(&mut idx, &internal_key(1, 2, 3), value(5, 6));
    assert_eq!(index_get(&idx, &internal_key(9, 2, 3)), Some(value(5, 6)));
}

#[test]
fn wrong_key_length_is_refused() {
    let mut idx = Index::new();
    let short = vec![0u8; 16];
    assert_eq!(index_put(&mut idx, &short, value(1, 1)), (ReplaceRet::S_NULL, None));
    assert_eq!(index_get(&idx, &short), None);
    assert_eq!(index_del(&mut idx, &short), ReplaceRet::S_NULL);
}

#[test]
fn delete_marks_slot_with_zero_address() {
    let mut idx = Index::new();
    let k = internal_key(1, 7, 3);
    assert_eq!(index_del(&mut idx, &k), ReplaceRet::S_NULL);
    index_put(&mut idx, &k, value(8, 9));
    assert_eq!(index_del(&mut idx, &k), ReplaceRet::S_OLD);
    assert_eq!(index_get(&idx, &k), Some(value(0, 0)));
    let other = internal_key(1, 7, 4);
    assert_eq!(index_del(&mut idx, &other), ReplaceRet::S_NULL);
    assert_eq!(index_get(&idx, &other), Some(value(0, 0)));
}

#[test]
fn delete_keeps_other_keys() {
    let mut idx = Index::new();
    let k1 = internal_key(1, 3, 100);
    let k2 = internal_key(1, 3, 101);
    index_put(&mut idx, &k1, value(1, 1));
    index_put(&mut idx, &k2, value(2, 2));
    assert_eq!(index_del(&mut idx, &k1), ReplaceRet::S_OLD);
    assert_eq!(index_get(&idx, &k2), Some(value(2, 2)));
}

#[test]
fn page_key_names_index_address() {
    let mut idx = Index::new();
    index_put(&mut idx, &internal_key(4, 7, 1000), value(5, 6));
    match idx.get_l1c().get(&Addr::new(7, 1000)) {
        Some(IdxBlock::InRam(c)) => {
            let p = c.get_pinfo(1000 % 512).unwrap();
            assert_eq!(*p.get_paddr(), Addr::new(5, 6));
            assert_eq!(p.get_attr(), Some(Pattr { keyType: 4, seqnum: 0 }));
        },
        _ => panic!("block expected"),
    }
}

#[test]
fn block_on_disk_is_left_alone() {
    let mut idx = Index::new();
    idx.get_l1c_mut().insert(Addr::new(7, 0), IdxBlock::OnDisk(Addr::new(1, 1)));
    let k = internal_key(1, 7, 10);
    assert_eq!(index_put(&mut idx, &k, value(2, 2)), (ReplaceRet::S_NULL, None));
    assert_eq!(index_get(&idx, &k), None);
    assert_eq!(index_del(&mut idx, &k), ReplaceRet::S_NULL);
    assert!(matches!(idx.get_l1c().get(&Addr::new(7, 511)), Some(IdxBlock::OnDisk(_))));
}

#[test]
fn fixed_figures() {
    let mut idx = Index::new();
    assert_eq!(index_memory_used(&idx), 100);
    assert_eq!(index_key_count(&idx), 1000);
    index_shrink(&mut idx);
    index_reserve_entry(&mut idx);
    assert_eq!(index_get(&idx, &internal_key(1, 1, 1)), None);
}

#[test]
fn store_options() {
    let o = kv_options::new();
    assert_eq!(o.create_if_missing, 1);
    assert_eq!(o.error_if_exists, 1);
    assert_eq!(o.memory_index, 1);
    assert_eq!(o.low_level_fmt, 1);
    assert_eq!(o.dirty_ratio_thr_percent, 10);
    assert_eq!(o.memtable_size, 1024);
    assert_eq!(o.wal_ver_gap, 0);
    assert_eq!(o.wal_sec_gap, 0);
    assert_eq!(o.wal_cache_size, 1024);
    assert_eq!(o.wal_pre_rd_size, 16);
    assert_eq!(o.cp_downloader_threadnum, 1);
    assert_eq!(kv_write_options::new().sync, 1);
    let mut s = kv_snapshot::new();
    assert_eq!(s.seqnum, 0);
    s.seqnum = 5;
    let r = kv_read_options::new(&mut s);
    assert_eq!(r.version.seqnum, 5);
    r.version.seqnum = 6;
    assert_eq!(s.seqnum, 6);
}

#[test]
fn run_figures() {
    assert_eq!(total_kb(32768, 32), 4194304);
    assert_eq!(rate_kb_per_sec(4194304, 999_999), 4194304);
    assert_eq!(rate_kb_per_sec(10, 0), 10_000_000);
}
