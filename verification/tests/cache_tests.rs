use bidx::addr::Addr;
use bidx::index::{IdxBlock, L1Cache, L2Cache, Pattr, Pinfo, ITEMS_LIMITS};

fn pinfo_with(cid: u32, off: u32, t: u8, seq: u64) -> Pinfo {
    let mut p = Pinfo::new(Addr::new(cid, off));
    p.set_attr(Pattr { keyType: t, seqnum: seq });
    p
}

#[test]
fn pinfo_accessors() {
    let mut p = Pinfo::new(Addr::new(1, 2));
    assert_eq!(p.get_attr(), None);
    assert_eq!(*p.get_paddr(), Addr::new(1, 2));
    p.set_attr(Pattr { keyType: 3, seqnum: 4 });
    assert_eq!(p.get_attr(), Some(Pattr { keyType: 3, seqnum: 4 }));
}

#[test]
fn l2_new_is_empty() {
    let c = L2Cache::new();
    for i in 0..ITEMS_LIMITS {
        assert!(c.get_pinfo(i).is_none());
    }
    assert!(c.get_pinfo(ITEMS_LIMITS).is_none());
}

#[test]
fn l2_insert_get_replace() {
    let mut c = L2Cache::new();
    let p1 = pinfo_with(1, 2, 3, 4);
    let p2 = pinfo_with(5, 6, 7, 8);
    assert_eq!(c.insert_pinfo(10, p1), Ok(None));
    assert_eq!(c.get_pinfo(10), Some(&p1));
    assert_eq!(c.insert_pinfo(10, p2), Ok(Some(p1)));
    assert_eq!(c.get_pinfo(10), Some(&p2));
    assert!(c.get_pinfo(11).is_none());
}

#[test]
fn l2_insert_past_limit_is_refused() {
    let mut c = L2Cache::new();
    let r = c.insert_pinfo(600, pinfo_with(1, 1, 1, 1));
    assert_eq!(r, Err("offset: 600 >= limit: 512".to_string()));
    let r = c.insert_pinfo(512, pinfo_with(1, 1, 1, 1));
    assert_eq!(r, Err("offset: 512 >= limit: 512".to_string()));
}

#[test]
fn l2_delete_marks_slot() {
    let mut c = L2Cache::new();
    let p1 = pinfo_with(1, 2, 3, 4);
    c.insert_pinfo(5, p1).unwrap();
    assert_eq!(c.del_pinfo(5), Some(p1));
    assert_eq!(c.get_pinfo(5), Some(&Pinfo::new(Addr::new(0, 0))));
    assert_eq!(c.del_pinfo(6), None);
    assert_eq!(c.get_pinfo(6), Some(&Pinfo::new(Addr::new(0, 0))));
    assert_eq!(c.del_pinfo(700), None);
}

#[test]
fn l2_serialize_is_bincode_of_slots() {
    let mut c = L2Cache::new();
    c.insert_pinfo(0, pinfo_with(1, 2, 3, 4)).unwrap();
    c.insert_pinfo(1, Pinfo::new(Addr::new(9, 8))).unwrap();
    let bytes = c.serialize().unwrap();
    let mut plain: Vec<Option<((u32, u32), Option<(u8, u64)>)>> = vec![None; ITEMS_LIMITS];
    plain[0] = Some(((1, 2), Some((3, 4))));
    plain[1] = Some(((9, 8), None));
    assert_eq!(bytes, bincode::serialize(&plain).unwrap());
    // length 512, then slot 0, slot 1, then 510 empty slots
    let mut expected: Vec<u8> = vec![0, 2, 0, 0, 0, 0, 0, 0];
    expected.extend_from_slice(&[1, 1, 0, 0, 0, 2, 0, 0, 0, 1, 3, 4, 0, 0, 0, 0, 0, 0, 0]);
    expected.extend_from_slice(&[1, 9, 0, 0, 0, 8, 0, 0, 0, 0]);
    expected.extend_from_slice(&vec![0u8; 510]);
    assert_eq!(bytes, expected);
}

#[test]
fn l2_serialize_round_trip() {
    let mut c = L2Cache::new();
    c.insert_pinfo(7, pinfo_with(11, 12, 13, 14)).unwrap();
    c.del_pinfo(8);
    let bytes = c.serialize().unwrap();
    let d = L2Cache::deserialize(&bytes).unwrap();
    for i in 0..ITEMS_LIMITS + 2 {
        assert_eq!(d.get_pinfo(i), c.get_pinfo(i));
    }
    assert_eq!(d.serialize().unwrap(), bytes);
}

#[test]
fn l2_deserialize_ignores_trailing_bytes() {
    let mut bytes: Vec<u8> = vec![1, 0, 0, 0, 0, 0, 0, 0, 1, 4, 0, 0, 0, 5, 0, 0, 0, 0];
    bytes.push(99);
    let d = L2Cache::deserialize(&bytes).unwrap();
    assert_eq!(d.get_pinfo(0), Some(&Pinfo::new(Addr::new(4, 5))));
    assert!(d.get_pinfo(1).is_none());
}

#[test]
fn l2_deserialize_errors() {
    let bad_tag: Vec<u8> = vec![1, 0, 0, 0, 0, 0, 0, 0, 2];
    let e = L2Cache::deserialize(&bad_tag).unwrap_err();
    assert!(e.starts_with("deserialize err:"));
    let short: Vec<u8> = vec![3, 0, 0];
    let e = L2Cache::deserialize(&short).unwrap_err();
    assert!(e.starts_with("deserialize err:"));
}

#[test]
fn l1_blocks_are_shared_by_an_index_block() {
    let mut l1 = L1Cache::new();
    assert!(l1.get(&Addr::new(1, 600)).is_none());
    let old = l1.insert(Addr::new(1, 600), IdxBlock::OnDisk(Addr::new(2, 3)));
    assert!(old.is_none());
    // offsets 512..1023 of container 1 share one block
    match l1.get(&Addr::new(1, 1023)) {
        Some(IdxBlock::OnDisk(a)) => assert_eq!(*a, Addr::new(2, 3)),
        _ => panic!("block expected"),
    }
    assert!(l1.get(&Addr::new(1, 1024)).is_none());
    assert!(l1.get(&Addr::new(2, 600)).is_none());
    assert!(l1.get(&Addr::new(1, 511)).is_none());
    let old = l1.insert(Addr::new(1, 512), IdxBlock::InRam(L2Cache::new()));
    assert!(matches!(old, Some(IdxBlock::OnDisk(_))));
    match l1.get_mut(&Addr::new(1, 700)) {
        Some(IdxBlock::InRam(c)) => {
            c.insert_pinfo(3, Pinfo::new(Addr::new(4, 4))).unwrap();
        },
        _ => panic!("block expected"),
    }
    match l1.get(&Addr::new(1, 515)) {
        Some(IdxBlock::InRam(c)) => assert_eq!(c.get_pinfo(3), Some(&Pinfo::new(Addr::new(4, 4)))),
        _ => panic!("block expected"),
    }
}
