use bidx::addr::{Addr, Laddr, IBLK_MASK};
use bidx::convert::{internal_value, KEY_HEADER_LEN};
use bidx::index::Pattr;
use bytevec::ByteEncodable;

#[test]
fn addr_new_and_getters() {
    let a = Addr::new(7, 42);
    assert_eq!(a.get_cid(), 7);
    assert_eq!(a.get_offset(), 42);
}

#[test]
fn align_keeps_offset_inside_index_block() {
    let mut a = Laddr::new(3, 0x3f_ffff);
    a.align();
    assert_eq!(a.get_cid(), 3);
    assert_eq!(a.get_offset(), 0x1f_ffff);
    assert_eq!(a.get_offset(), 0x3f_ffff & IBLK_MASK);
    let mut b = Laddr::new(3, 0x20_0005);
    b.align();
    assert_eq!(b.get_offset(), 5);
}

#[test]
fn value_word_round_trip() {
    let p = Addr::new(9, 1234);
    let v = p.into_cv();
    assert_eq!(v, internal_value { size: 4096, block: 9, offset: 1234 });
    assert_eq!(Addr::from_cv(&v), p);
    assert_eq!(internal_value::from_paddr(&p), v);
    assert_eq!(v.into_paddr(), p);
    assert_eq!(Addr::from(&v), p);
    assert_eq!(internal_value::from(&p), v);
}

#[test]
fn value_word_truncates_to_u32() {
    let v = internal_value { size: 1, block: 0x1_0000_0002, offset: 0x1_0000_0003 };
    assert_eq!(v.into_paddr(), Addr::new(2, 3));
}

#[test]
fn into_bytes_is_always_zero_word() {
    let a = Laddr::new(5, 6);
    assert_eq!(a.into_bytes(), vec![0u8; 8]);
    assert_eq!(Laddr::new(0, 0).into_bytes(), 0u64.encode::<u64>().unwrap());
}

#[test]
fn from_bytes_reads_little_endian_word() {
    let w: u64 = (7u64 << 32) | 0x1234;
    let bytes = w.encode::<u64>().unwrap();
    let a = Laddr::from_bytes(&bytes);
    assert_eq!(a, Addr::new(7, 0x1234));
    let a2 = Laddr::from_bytes(&[1, 0, 0, 0, 2, 0, 0, 0]);
    assert_eq!(a2, Addr::new(2, 1));
}

#[test]
fn pattr_from_header_takes_last_byte() {
    let h = [0u8, 1, 2, 3, 4, 5, 6, 9];
    assert_eq!(h.len(), KEY_HEADER_LEN);
    let p = Pattr::from_header(&h);
    assert_eq!(p, Pattr { keyType: 9, seqnum: 0 });
}
