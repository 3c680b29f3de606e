//! The index as the store uses it: put, get and delete by internal key.
//!
//! An internal key is 17 bytes: an 8-byte header whose last byte is the key
//! type, one byte that the index does not read, and 8 bytes holding the
//! little-endian word of the logical address (container id high, page
//! offset low).

use vstd::prelude::*;

use crate::addr::{Laddr, Paddr, IBLK2PAGE_MASK};
use crate::codec::le_value_u64;
use crate::convert::{internal_value, value_of, value_paddr, word_addr, KEY_HEADER_LEN};
use crate::index::{
    lemma_slot_of, slot_at, slot_of, BlockView, IdxBlock, L1Cache, L2Cache, Pattr, Pinfo, PinfoView,
    erased_slot, ITEMS_LIMITS,
};

verus! {

/// Length of an internal key.
pub const KEY_LEN: usize = 17;

/// What a put or a delete did to the slot of its key.
#[allow(non_camel_case_types)]
#[derive(Clone, Copy, Debug, PartialEq, Eq, Structural)]
pub enum ReplaceRet {
    /// Nothing was replaced.
    S_NULL,
    /// A put replaced a value.
    S_NEW,
    /// A delete removed a value.
    S_OLD,
}

/// The index: the first-level cache and the disk space in use.
pub struct Index {
    l1c: L1Cache,
    disk_used: u64,
}

impl View for Index {
    type V = Map<u64, BlockView>;

    closed spec fn view(&self) -> Map<u64, BlockView> {
        self.l1c@
    }
}

impl Index {
    /// The disk space in use.
    pub closed spec fn disk_used(&self) -> u64 {
        self.disk_used
    }

    pub fn new() -> (idx: Index)
        ensures
            idx@ == Map::<u64, BlockView>::empty(),
            idx.disk_used() == 0,
            full_caches(idx@),
    {
        Index { l1c: L1Cache::new(), disk_used: 0 }
    }

    pub fn get_l1c_mut(&mut self) -> (c: &mut L1Cache)
        ensures
            c@ == old(self)@,
            final(self)@ == final(c)@,
            final(self).disk_used() == old(self).disk_used(),
    {
        &mut self.l1c
    }

    pub fn get_l1c(&self) -> (c: &L1Cache)
        ensures
            c@ == self@,
    {
        &self.l1c
    }
}

/// The logical address (container id, page offset) named by an internal key.
pub open spec fn key_addr(key: Seq<u8>) -> (u32, u32) {
    word_addr(le_value_u64(key.subrange(9, 17)))
}

/// The page slot, inside its index block, of an address.
pub open spec fn page_of(a: (u32, u32)) -> int {
    (a.1 % 512) as int
}

/// The slot content that the index holds for address `a`, if any.
pub open spec fn lookup(m: Map<u64, BlockView>, a: (u32, u32)) -> Option<PinfoView> {
    if m.contains_key(slot_of(a)) {
        match m[slot_of(a)] {
            BlockView::InRam(c) => slot_at(c, page_of(a)),
            BlockView::OnDisk(_) => None,
        }
    } else {
        None
    }
}

/// What a get of `key` answers: the value word of the physical address that
/// the index holds for it, if any.
pub open spec fn get_result(m: Map<u64, BlockView>, key: Seq<u8>) -> Option<internal_value> {
    if key.len() != KEY_LEN {
        None
    } else {
        match lookup(m, key_addr(key)) {
            Some(p) => Some(value_of(p.0)),
            None => None,
        }
    }
}

/// Whether a put or a delete of `key` runs without fault: the page slot of
/// the key lies inside the cache of its index block (a cache read back
/// from bytes may be shorter than a full one).
pub open spec fn op_defined(m: Map<u64, BlockView>, key: Seq<u8>) -> bool {
    key.len() == KEY_LEN && m.contains_key(slot_of(key_addr(key))) ==> match m[slot_of(
        key_addr(key),
    )] {
        BlockView::InRam(c) => page_of(key_addr(key)) < c.len(),
        BlockView::OnDisk(_) => true,
    }
}

/// The slot content a put of `key` with value `v` stores: the address of `v`
/// and the key type of the header, sequence number 0.
pub open spec fn put_slot(key: Seq<u8>, v: internal_value) -> PinfoView {
    (value_paddr(v), Some(Pattr { keyType: key[KEY_HEADER_LEN - 1], seqnum: 0 }))
}

/// The index after a put of `key` with value `v`: the page slot is set, in
/// a new cache if the block had none; a block on disk is left as it is.
pub open spec fn put_map(m: Map<u64, BlockView>, key: Seq<u8>, v: internal_value) -> Map<
    u64,
    BlockView,
> {
    if key.len() != KEY_LEN {
        m
    } else {
        let a = key_addr(key);
        if !m.contains_key(slot_of(a)) {
            m.insert(
                slot_of(a),
                BlockView::InRam(
                    Seq::new(ITEMS_LIMITS as nat, |i: int| None::<PinfoView>).update(
                        page_of(a),
                        Some(put_slot(key, v)),
                    ),
                ),
            )
        } else {
            match m[slot_of(a)] {
                BlockView::InRam(c) => m.insert(
                    slot_of(a),
                    BlockView::InRam(c.update(page_of(a), Some(put_slot(key, v)))),
                ),
                BlockView::OnDisk(_) => m,
            }
        }
    }
}

/// What a put answers: `S_NEW` with the value it replaced, or `S_NULL`.
pub open spec fn put_result(m: Map<u64, BlockView>, key: Seq<u8>) -> (
    ReplaceRet,
    Option<internal_value>,
) {
    match get_result(m, key) {
        Some(old_v) => (ReplaceRet::S_NEW, Some(old_v)),
        None => (ReplaceRet::S_NULL, None),
    }
}

/// The index after a delete of `key`: a held page slot is marked deleted.
pub open spec fn del_map(m: Map<u64, BlockView>, key: Seq<u8>) -> Map<u64, BlockView> {
    if key.len() != KEY_LEN || !m.contains_key(slot_of(key_addr(key))) {
        m
    } else {
        let a = key_addr(key);
        match m[slot_of(a)] {
            BlockView::InRam(c) => m.insert(
                slot_of(a),
                BlockView::InRam(c.update(page_of(a), Some(erased_slot()))),
            ),
            BlockView::OnDisk(_) => m,
        }
    }
}

/// What a delete answers: `S_OLD` when the slot held something.
pub open spec fn del_result(m: Map<u64, BlockView>, key: Seq<u8>) -> ReplaceRet {
    if get_result(m, key) is Some {
        ReplaceRet::S_OLD
    } else {
        ReplaceRet::S_NULL
    }
}

/// Two addresses with the same first-level key and the same page slot are equal.
proof fn lemma_same_slot_same_addr(a: (u32, u32), b: (u32, u32))
    requires
        slot_of(a) == slot_of(b),
        page_of(a) == page_of(b),
    ensures
        a == b,
{
    lemma_slot_of(a, b);
}

/// A get after a put of the same key answers the value word of the address
/// that was put, unless the key's index block lies on disk.
pub proof fn lemma_get_after_put(m: Map<u64, BlockView>, key: Seq<u8>, v: internal_value)
    requires
        key.len() == KEY_LEN,
        op_defined(m, key),
        !(m.contains_key(slot_of(key_addr(key))) && m[slot_of(key_addr(key))] is OnDisk),
    ensures
        get_result(put_map(m, key, v), key) == Some(value_of(value_paddr(v))),
{
}

/// A put of one key leaves what a get of any other address answers.
pub proof fn lemma_put_keeps_other_keys(
    m: Map<u64, BlockView>,
    key: Seq<u8>,
    v: internal_value,
    other: Seq<u8>,
)
    requires
        op_defined(m, key),
        key_addr(key) != key_addr(other),
    ensures
        get_result(put_map(m, key, v), other) == get_result(m, other),
{
    if key.len() == KEY_LEN && other.len() == KEY_LEN {
        let a = key_addr(key);
        let b = key_addr(other);
        if slot_of(a) == slot_of(b) && page_of(a) == page_of(b) {
            lemma_same_slot_same_addr(a, b);
        }
    }
}

/// What a put reports as replaced is what a get of the key answered before.
pub proof fn lemma_put_reports_previous(m: Map<u64, BlockView>, key: Seq<u8>)
    ensures
        put_result(m, key).1 == get_result(m, key),
        (put_result(m, key).0 == ReplaceRet::S_NEW) == (get_result(m, key) is Some),
{
}

/// The address of an internal key is read from its bytes 9 to 16, little
/// endian: bytes 9 to 12 are the page offset, bytes 13 to 16 the container id.
pub proof fn lemma_key_addr_bytes(key: Seq<u8>)
    requires
        key.len() == KEY_LEN,
    ensures
        key_addr(key).1 == key[9] as int + key[10] as int * 0x100 + key[11] as int * 0x1_0000
            + key[12] as int * 0x100_0000,
        key_addr(key).0 == key[13] as int + key[14] as int * 0x100 + key[15] as int * 0x1_0000
            + key[16] as int * 0x100_0000,
{
    let s = key.subrange(9, 17);
    let (b0, b1, b2, b3, b4, b5, b6, b7) = (s[0], s[1], s[2], s[3], s[4], s[5], s[6], s[7]);
    let x = le_value_u64(s);
    assert(x == (b0 as u64) | ((b1 as u64) << 8u64) | ((b2 as u64) << 16u64) | ((b3 as u64)
        << 24u64) | ((b4 as u64) << 32u64) | ((b5 as u64) << 40u64) | ((b6 as u64) << 48u64)
        | ((b7 as u64) << 56u64));
    assert((x >> 32u64) as u32 == (b4 as u32) + (b5 as u32) * 0x100u32 + (b6 as u32) * 0x1_0000u32
        + (b7 as u32) * 0x100_0000u32 && x as u32 == (b0 as u32) + (b1 as u32) * 0x100u32 + (
    b2 as u32) * 0x1_0000u32 + (b3 as u32) * 0x100_0000u32) by (bit_vector)
        requires
            x == (b0 as u64) | ((b1 as u64) << 8u64) | ((b2 as u64) << 16u64) | ((b3 as u64)
                << 24u64) | ((b4 as u64) << 32u64) | ((b5 as u64) << 40u64) | ((b6 as u64)
                << 48u64) | ((b7 as u64) << 56u64),
    ;
}

/// The slot that a put stores for its key holds the address of the value
/// word and, as attribute, byte 7 of the key (the last header byte) as key
/// type with sequence number 0, unless the key's block lies on disk.
pub proof fn lemma_put_stores(m: Map<u64, BlockView>, key: Seq<u8>, v: internal_value)
    requires
        key.len() == KEY_LEN,
        op_defined(m, key),
        !(m.contains_key(slot_of(key_addr(key))) && m[slot_of(key_addr(key))] is OnDisk),
    ensures
        lookup(put_map(m, key, v), key_addr(key)) == Some(
            ((v.block as u32, v.offset as u32), Some(Pattr { keyType: key[7], seqnum: 0 })),
        ),
{
}

/// A get answers nothing for a key that is not 17 bytes long, whose index
/// block is absent, or whose index block lies on disk; otherwise it answers
/// the value word of the slot's address when the slot holds one.
pub proof fn lemma_get_answer(m: Map<u64, BlockView>, key: Seq<u8>)
    ensures
        key.len() != KEY_LEN ==> get_result(m, key) is None,
        !m.contains_key(slot_of(key_addr(key))) ==> get_result(m, key) is None,
        (m.contains_key(slot_of(key_addr(key))) && m[slot_of(key_addr(key))] is OnDisk)
            ==> get_result(m, key) is None,
        get_result(m, key) matches Some(w) ==> w.size == 4096 && w.block < 0x1_0000_0000
            && w.offset < 0x1_0000_0000,
{
}

/// A put never answers `S_OLD`; it answers `S_NULL`, with no value, exactly
/// when a get of the key answered nothing before, and `S_NEW` otherwise.
pub proof fn lemma_put_answer(m: Map<u64, BlockView>, key: Seq<u8>)
    ensures
        put_result(m, key).0 != ReplaceRet::S_OLD,
        (put_result(m, key).0 == ReplaceRet::S_NULL) == (get_result(m, key) is None),
        (put_result(m, key).0 == ReplaceRet::S_NULL) ==> put_result(m, key).1 is None,
        (put_result(m, key).0 == ReplaceRet::S_NEW) ==> put_result(m, key).1 == get_result(m, key),
{
}

/// A delete never answers `S_NEW`, never adds or removes an index block, and
/// leaves the index unchanged when the key's index block is absent or on
/// disk, or the key is not 17 bytes long; otherwise it changes only that
/// block.
pub proof fn lemma_del_scope(m: Map<u64, BlockView>, key: Seq<u8>, s: u64)
    ensures
        del_result(m, key) != ReplaceRet::S_NEW,
        del_map(m, key).dom() == m.dom(),
        !m.contains_key(slot_of(key_addr(key))) ==> del_map(m, key) == m,
        key.len() != KEY_LEN ==> del_map(m, key) == m,
        (m.contains_key(slot_of(key_addr(key))) && m[slot_of(key_addr(key))] is OnDisk) ==> del_map(m, key) == m,
        s != slot_of(key_addr(key)) && m.contains_key(s) ==> del_map(m, key)[s] == m[s],
        !m.contains_key(slot_of(key_addr(key))) ==> get_result(del_map(m, key), key) is None,
{
    let d = del_map(m, key);
    if key.len() == KEY_LEN && m.contains_key(slot_of(key_addr(key))) {
        assert(d.dom() =~= m.dom());
    }
}

/// A put adds at most the key's own index block, and changes no other block.
pub proof fn lemma_put_scope(m: Map<u64, BlockView>, key: Seq<u8>, v: internal_value, s: u64)
    ensures
        key.len() != KEY_LEN ==> put_map(m, key, v) == m,
        key.len() == KEY_LEN ==> put_map(m, key, v).dom() == m.dom().insert(slot_of(key_addr(key))),
        s != slot_of(key_addr(key)) && m.contains_key(s) ==> put_map(m, key, v)[s] == m[s],
{
    if key.len() == KEY_LEN {
        let a = key_addr(key);
        if m.contains_key(slot_of(a)) {
            assert(m.dom().insert(slot_of(a)) =~= m.dom());
        }
        assert(put_map(m, key, v).dom() =~= m.dom().insert(slot_of(a)));
    }
}

/// A put on a key whose index block lies on disk changes nothing.
pub proof fn lemma_put_on_disk_block(m: Map<u64, BlockView>, key: Seq<u8>, v: internal_value)
    requires
        m.contains_key(slot_of(key_addr(key))),
        m[slot_of(key_addr(key))] is OnDisk,
    ensures
        put_map(m, key, v) == m,
        put_result(m, key) == (ReplaceRet::S_NULL, None::<internal_value>),
{
}

/// A get after a delete of a key whose block is held in RAM answers the
/// value word of address (0, 0): the slot is marked, not emptied.
pub proof fn lemma_get_after_del(m: Map<u64, BlockView>, key: Seq<u8>)
    requires
        key.len() == KEY_LEN,
        op_defined(m, key),
        m.contains_key(slot_of(key_addr(key))),
        m[slot_of(key_addr(key))] is InRam,
    ensures
        get_result(del_map(m, key), key) == Some(value_of((0u32, 0u32))),
{
}

/// A delete of one key leaves what a get of any other address answers.
pub proof fn lemma_del_keeps_other_keys(m: Map<u64, BlockView>, key: Seq<u8>, other: Seq<u8>)
    requires
        op_defined(m, key),
        key_addr(key) != key_addr(other),
    ensures
        get_result(del_map(m, key), other) == get_result(m, other),
{
    if key.len() == KEY_LEN && other.len() == KEY_LEN {
        let a = key_addr(key);
        let b = key_addr(other);
        if slot_of(a) == slot_of(b) && page_of(a) == page_of(b) {
            lemma_same_slot_same_addr(a, b);
        }
    }
}

/// What a delete reports is whether a get of the key answered a value before.
pub proof fn lemma_del_reports_previous(m: Map<u64, BlockView>, key: Seq<u8>)
    ensures
        (del_result(m, key) == ReplaceRet::S_OLD) == (get_result(m, key) is Some),
{
}

/// Every cache held in RAM has all its page slots.
pub open spec fn full_caches(m: Map<u64, BlockView>) -> bool {
    forall|s: u64|
        #![trigger m[s]]
        m.contains_key(s) && m[s] is InRam ==> m[s]->InRam_0.len() == ITEMS_LIMITS
}

/// In an index whose caches are full, a put or a delete of any key runs without fault.
pub proof fn lemma_full_caches_defined(m: Map<u64, BlockView>, key: Seq<u8>)
    requires
        full_caches(m),
    ensures
        op_defined(m, key),
{
    if key.len() == KEY_LEN && m.contains_key(slot_of(key_addr(key))) {
        assert(m[slot_of(key_addr(key))] is InRam ==> m[slot_of(key_addr(key))]->InRam_0.len()
            == ITEMS_LIMITS);
    }
}

/// A new index has full caches, and puts and deletes keep them full.
pub proof fn lemma_ops_keep_full_caches(m: Map<u64, BlockView>, key: Seq<u8>, v: internal_value)
    requires
        full_caches(m),
    ensures
        full_caches(Map::<u64, BlockView>::empty()),
        full_caches(put_map(m, key, v)),
        full_caches(del_map(m, key)),
{
    lemma_full_caches_defined(m, key);
    let p = put_map(m, key, v);
    assert forall|s: u64| p.contains_key(s) && p[s] is InRam implies #[trigger] p[s]->InRam_0.len()
        == ITEMS_LIMITS by {
        if key.len() == KEY_LEN && s == slot_of(key_addr(key)) {
        } else {
            assert(m[s] == p[s]);
        }
    }
    let d = del_map(m, key);
    assert forall|s: u64| d.contains_key(s) && d[s] is InRam implies #[trigger] d[s]->InRam_0.len()
        == ITEMS_LIMITS by {
        if key.len() == KEY_LEN && s == slot_of(key_addr(key)) {
        } else {
            assert(m[s] == d[s]);
        }
    }
}

/// One call on the index: a put of a key with a value, or (`None`) a delete of a key.
pub type IndexCall = (Seq<u8>, Option<internal_value>);

/// The index after one call.
pub open spec fn call_map(m: Map<u64, BlockView>, c: IndexCall) -> Map<u64, BlockView> {
    match c.1 {
        Some(v) => put_map(m, c.0, v),
        None => del_map(m, c.0),
    }
}

/// The index after a run of calls, in order.
pub open spec fn calls_map(m: Map<u64, BlockView>, cs: Seq<IndexCall>) -> Map<u64, BlockView>
    decreases cs.len(),
{
    if cs.len() == 0 {
        m
    } else {
        calls_map(call_map(m, cs[0]), cs.drop_first())
    }
}

/// A run of puts and deletes of other addresses keeps the caches full and
/// leaves what a get of `key` answers.
pub proof fn lemma_calls_keep_other_keys(m: Map<u64, BlockView>, cs: Seq<IndexCall>, key: Seq<u8>)
    requires
        full_caches(m),
        forall|i: int| 0 <= i < cs.len() ==> key_addr(#[trigger] cs[i].0) != key_addr(key),
    ensures
        full_caches(calls_map(m, cs)),
        get_result(calls_map(m, cs), key) == get_result(m, key),
    decreases cs.len(),
{
    if cs.len() > 0 {
        let c = cs[0];
        lemma_full_caches_defined(m, c.0);
        match c.1 {
            Some(v) => {
                lemma_ops_keep_full_caches(m, c.0, v);
                lemma_put_keeps_other_keys(m, c.0, v, key);
            },
            None => {
                lemma_ops_keep_full_caches(m, c.0, value_of((0u32, 0u32)));
                lemma_del_keeps_other_keys(m, c.0, key);
            },
        }
        let rest = cs.drop_first();
        assert forall|i: int| 0 <= i < rest.len() implies key_addr(#[trigger] rest[i].0) != key_addr(key) by {
            assert(rest[i] == cs[i + 1]);
        }
        lemma_calls_keep_other_keys(call_map(m, c), rest, key);
    }
}

/// In an index with full caches, a get of a key answers the value of the last
/// put of its address, whatever puts and deletes of other addresses came
/// after, unless the key's index block lies on disk; any key with the same
/// address bytes answers the same.
pub proof fn lemma_get_after_put_then_other_calls(
    m: Map<u64, BlockView>,
    key: Seq<u8>,
    v: internal_value,
    cs: Seq<IndexCall>,
    key2: Seq<u8>,
)
    requires
        full_caches(m),
        key.len() == KEY_LEN,
        !(m.contains_key(slot_of(key_addr(key))) && m[slot_of(key_addr(key))] is OnDisk),
        forall|i: int| 0 <= i < cs.len() ==> key_addr(#[trigger] cs[i].0) != key_addr(key),
        key2.len() == KEY_LEN,
        key2.subrange(9, 17) == key.subrange(9, 17),
    ensures
        get_result(calls_map(put_map(m, key, v), cs), key2) == Some(value_of(value_paddr(v))),
{
    lemma_full_caches_defined(m, key);
    lemma_ops_keep_full_caches(m, key, v);
    lemma_get_after_put(m, key, v);
    assert(key_addr(key2) == key_addr(key));
    lemma_calls_keep_other_keys(put_map(m, key, v), cs, key2);
}

/// Stores `value` for `key`; answers whether a value was replaced, and which.
pub fn index_put(idx: &mut Index, key: &[u8], value: internal_value) -> (r: (
    ReplaceRet,
    Option<internal_value>,
))
    requires
        op_defined(old(idx)@, key@),
    ensures
        final(idx)@ == put_map(old(idx)@, key@, value),
        r == put_result(old(idx)@, key@),
        r.0 != ReplaceRet::S_OLD,
        (r.0 == ReplaceRet::S_NULL) == (get_result(old(idx)@, key@) is None),
        final(idx).disk_used() == old(idx).disk_used(),
        full_caches(old(idx)@) ==> full_caches(final(idx)@),
{
    proof {
        if full_caches(old(idx)@) {
            lemma_ops_keep_full_caches(old(idx)@, key@, value);
        }
    }
    if key.len() != KEY_LEN {
        return (ReplaceRet::S_NULL, None);
    }
    let attr = &key[0..8];
    let ukey = &key[9..17];
    let laddr = Laddr::from_bytes(ukey);
    let paddr = Paddr::from_cv(&value);
    let pattr = Pattr::from_header(attr);
    let mut pinfo = Pinfo::new(paddr);
    pinfo.set_attr(pattr);
    let off = laddr.get_offset();
    let coff = off & IBLK2PAGE_MASK;
    assert(off & 0x1ffu32 == off % 512) by (bit_vector);
    assert(pinfo@ == put_slot(key@, value));
    let l1c = idx.get_l1c_mut();
    match l1c.get_mut(&laddr) {
        None => {
            let mut l2c = L2Cache::new();
            let _ = l2c.insert_pinfo(coff as usize, pinfo);
            l1c.insert(laddr, IdxBlock::InRam(l2c));
            (ReplaceRet::S_NULL, None)
        },
        Some(iblk) => {
            match iblk {
                IdxBlock::InRam(l2c) => {
                    let ret = match l2c.get_pinfo(coff as usize) {
                        Some(p) => {
                            let addr = p.get_paddr();
                            let oldval = internal_value::from_paddr(addr);
                            (ReplaceRet::S_NEW, Some(oldval))
                        },
                        None => (ReplaceRet::S_NULL, None),
                    };
                    let _ = l2c.insert_pinfo(coff as usize, pinfo);
                    ret
                },
                IdxBlock::OnDisk(_) => (ReplaceRet::S_NULL, None),
            }
        },
    }
}

/// The value word stored for `key`, if the index holds one.
pub fn index_get(idx: &Index, key: &[u8]) -> (r: Option<internal_value>)
    ensures
        r == get_result(idx@, key@),
{
    if key.len() != KEY_LEN {
        return None;
    }
    let ukey = &key[9..17];
    let laddr = Laddr::from_bytes(ukey);
    let off = laddr.get_offset();
    let coff = off & IBLK2PAGE_MASK;
    assert(off & 0x1ffu32 == off % 512) by (bit_vector);
    let l1c = idx.get_l1c();
    let iblk = match l1c.get(&laddr) {
        Some(iblk) => iblk,
        None => {
            return None;
        },
    };
    let l2c = match iblk {
        IdxBlock::InRam(l2c) => l2c,
        IdxBlock::OnDisk(_) => {
            return None;
        },
    };
    match l2c.get_pinfo(coff as usize) {
        Some(pinfo) => {
            let addr = pinfo.get_paddr();
            Some(internal_value::from_paddr(addr))
        },
        None => None,
    }
}

/// Marks the slot of `key` deleted; answers whether it held a value.
pub fn index_del(idx: &mut Index, key: &[u8]) -> (r: ReplaceRet)
    requires
        op_defined(old(idx)@, key@),
    ensures
        final(idx)@ == del_map(old(idx)@, key@),
        r == del_result(old(idx)@, key@),
        r != ReplaceRet::S_NEW,
        !old(idx)@.contains_key(slot_of(key_addr(key@))) ==> final(idx)@ == old(idx)@,
        final(idx)@.dom() == old(idx)@.dom(),
        final(idx).disk_used() == old(idx).disk_used(),
        full_caches(old(idx)@) ==> full_caches(final(idx)@),
{
    proof {
        if full_caches(old(idx)@) {
            lemma_ops_keep_full_caches(old(idx)@, key@, value_of((0u32, 0u32)));
        }
        lemma_del_scope(old(idx)@, key@, 0);
    }
    if key.len() != KEY_LEN {
        return ReplaceRet::S_NULL;
    }
    let ukey = &key[9..17];
    let laddr = Laddr::from_bytes(ukey);
    let off = laddr.get_offset();
    let coff = off & IBLK2PAGE_MASK;
    assert(off & 0x1ffu32 == off % 512) by (bit_vector);
    let iblk = match idx.get_l1c_mut().get_mut(&laddr) {
        Some(iblk) => iblk,
        None => {
            return ReplaceRet::S_NULL;
        },
    };
    match iblk {
        IdxBlock::InRam(l2c) => match l2c.del_pinfo(coff as usize) {
            Some(_) => ReplaceRet::S_OLD,
            None => ReplaceRet::S_NULL,
        },
        IdxBlock::OnDisk(_) => ReplaceRet::S_NULL,
    }
}

/// Shrinking the index does nothing.
pub fn index_shrink(idx: &mut Index)
    ensures
        final(idx)@ == old(idx)@,
        final(idx).disk_used() == old(idx).disk_used(),
{
}

/// The memory the index reports as used: a fixed 100.
pub fn index_memory_used(idx: &Index) -> (n: u64)
    ensures
        n == 100,
{
    100
}

/// The key count the index reports: a fixed 1000.
pub fn index_key_count(idx: &Index) -> (n: u64)
    ensures
        n == 1000,
{
    1000
}

/// Reserving an entry does nothing.
pub fn index_reserve_entry(idx: &mut Index)
    ensures
        final(idx)@ == old(idx)@,
        final(idx).disk_used() == old(idx).disk_used(),
{
}

} // verus!
