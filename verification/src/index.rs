//! The in-RAM index: a first-level map from index blocks (2 MiB of logical
//! space) to second-level caches of one slot per 4 KiB page.

use vstd::prelude::*;
use std::collections::HashMap;
use std::hash::BuildHasherDefault;
use twox_hash::XxHash;

use crate::addr::{Addr, Laddr, Paddr, IBLK2PAGE_SHIFT};
use crate::codec::{
    bincode_deserialize_cells, bincode_error_text, bincode_serialize_cells, cell_bytes,
    cell_vec_bytes, cells_bytes, le_u32, le_u64,
    lemma_cell_vec_prefix_unique, starts_with, CellTuple,
};
use crate::text::{decimal, push_decimal};

verus! {

/// Number of page slots in one second-level cache.
pub const ITEMS_LIMITS: usize = 512;

/// Attribute of a stored page: the key type byte and a sequence number.
#[allow(non_snake_case)]
#[derive(Clone, Copy, PartialEq, Eq, Structural, Debug)]
pub struct Pattr {
    pub keyType: u8,
    pub seqnum: u64,
}

/// Physical location of a page, with an optional attribute.
#[derive(Clone, Copy, PartialEq, Eq, Structural, Debug)]
pub struct Pinfo {
    paddr: Paddr,
    attr: Option<Pattr>,
}

/// A slot's content: the physical address as (container, offset), and the attribute.
pub type PinfoView = ((u32, u32), Option<Pattr>);

impl View for Pinfo {
    type V = PinfoView;

    closed spec fn view(&self) -> PinfoView {
        (self.paddr@, self.attr)
    }
}

/// The view of an optional slot content.
pub open spec fn opt_view(o: Option<Pinfo>) -> Option<PinfoView> {
    match o {
        Some(p) => Some(p@),
        None => None,
    }
}

impl Pinfo {
    pub fn new(paddr: Paddr) -> (p: Pinfo)
        ensures
            p@ == (paddr@, None::<Pattr>),
    {
        Pinfo { paddr: paddr, attr: None }
    }

    pub fn set_attr(&mut self, attr: Pattr)
        ensures
            final(self)@ == (old(self)@.0, Some(attr)),
    {
        self.attr = Some(attr);
    }

    pub fn get_attr(&self) -> (a: Option<Pattr>)
        ensures
            a == self@.1,
    {
        self.attr
    }

    pub fn get_paddr(&self) -> (a: &Paddr)
        ensures
            a@ == self@.0,
    {
        &self.paddr
    }
}

/// The slot at `i` of a cache, `None` past its end.
pub open spec fn slot_at(s: Seq<Option<PinfoView>>, i: int) -> Option<PinfoView> {
    if 0 <= i < s.len() {
        s[i]
    } else {
        None
    }
}

/// The content that a deleted slot holds: address (0, 0), no attribute.
pub open spec fn erased_slot() -> PinfoView {
    ((0u32, 0u32), None)
}

/// Second-level cache: one optional slot per page of an index block.
#[derive(Clone, Debug)]
pub struct L2Cache {
    p_array: Vec<Option<Pinfo>>,
}

impl View for L2Cache {
    type V = Seq<Option<PinfoView>>;

    closed spec fn view(&self) -> Seq<Option<PinfoView>> {
        self.p_array@.map_values(|o: Option<Pinfo>| opt_view(o))
    }
}

/// Whether the text `s` begins with `p`.
pub open spec fn starts_with_text(s: Seq<char>, p: Seq<char>) -> bool {
    p.len() <= s.len() && s.subrange(0, p.len() as int) == p
}

/// The text of the error that refuses a slot number past the limit.
pub open spec fn limit_error_text(offset: nat) -> Seq<char> {
    "offset: "@ + decimal(offset) + " >= limit: "@ + decimal(ITEMS_LIMITS as nat)
}

/// An optional attribute in plain form.
pub open spec fn attr_tuple(a: Option<Pattr>) -> Option<(u8, u64)> {
    match a {
        Some(p) => Some((p.keyType, p.seqnum)),
        None => None,
    }
}

/// A slot in the plain form that is written out.
pub open spec fn cell_of(o: Option<PinfoView>) -> CellTuple {
    match o {
        Some((a, at)) => Some((a, attr_tuple(at))),
        None => None,
    }
}

/// The slot that a plain form stands for.
pub open spec fn cell_view(c: CellTuple) -> Option<PinfoView> {
    match c {
        Some((a, at)) => Some(
            (
                a,
                match at {
                    Some((t, n)) => Some(Pattr { keyType: t, seqnum: n }),
                    None => None,
                },
            ),
        ),
        None => None,
    }
}

/// The serialized bytes of a cache whose slots are `v`: bincode's encoding of
/// its vector of slots.
pub open spec fn l2_bytes(v: Seq<Option<PinfoView>>) -> Seq<u8> {
    cell_vec_bytes(v.map_values(|o: Option<PinfoView>| cell_of(o)))
}

proof fn lemma_cell_round_trip(o: Option<PinfoView>, c: CellTuple)
    ensures
        cell_view(cell_of(o)) == o,
        cell_of(cell_view(c)) == c,
{
}

/// Reading back the bytes of a cache gives that cache: the bytes of no other
/// cache begin them.
pub proof fn lemma_l2_bytes_read_back(v: Seq<Option<PinfoView>>, w: Seq<Option<PinfoView>>)
    requires
        l2_bytes(v).len() <= u64::MAX,
        starts_with(l2_bytes(v), l2_bytes(w)),
    ensures
        w == v,
{
    let vc = v.map_values(|o: Option<PinfoView>| cell_of(o));
    let wc = w.map_values(|o: Option<PinfoView>| cell_of(o));
    assert(starts_with(l2_bytes(v), l2_bytes(v))) by {
        assert(l2_bytes(v).subrange(0, l2_bytes(v).len() as int) =~= l2_bytes(v));
    }
    lemma_cell_vec_prefix_unique(l2_bytes(v), vc, wc);
    assert(w =~= v) by {
        assert forall|j: int| 0 <= j < v.len() implies w[j] == v[j] by {
            lemma_cell_round_trip(v[j], None);
            lemma_cell_round_trip(w[j], None);
            assert(vc[j] == wc[j]);
        }
    }
}

/// The layout of a cache's bytes: its slot count as 8 little-endian bytes,
/// then its first slot, then the slots of the rest as the rest alone would
/// write them. An empty slot is the byte 0; a held slot is the byte 1, the
/// container id and the offset as 4 little-endian bytes each, then 0 for no
/// attribute, or 1, the key type and the sequence number as 8 little-endian
/// bytes.
pub proof fn lemma_l2_bytes_layout(v: Seq<Option<PinfoView>>)
    requires
        v.len() > 0,
    ensures
        l2_bytes(v).subrange(0, 8) == le_u64(v.len() as u64),
        v[0] is None ==> l2_bytes(v)[8] == 0u8 && l2_bytes(v).skip(9) == l2_bytes(
            v.drop_first(),
        ).skip(8),
        v[0] matches Some(((c, o), None)) ==> l2_bytes(v).subrange(8, 18) == seq![1u8] + le_u32(c)
            + le_u32(o) + seq![0u8] && l2_bytes(v).skip(18) == l2_bytes(v.drop_first()).skip(8),
        v[0] matches Some(((c, o), Some(p))) ==> l2_bytes(v).subrange(8, 27) == seq![1u8] + le_u32(
            c,
        ) + le_u32(o) + seq![1u8, p.keyType] + le_u64(p.seqnum) && l2_bytes(v).skip(27)
            == l2_bytes(v.drop_first()).skip(8),
{
    let vc = v.map_values(|o: Option<PinfoView>| cell_of(o));
    let rc = v.drop_first().map_values(|o: Option<PinfoView>| cell_of(o));
    assert(vc.drop_first() =~= rc);
    let head = cell_bytes(vc[0]);
    let tail = cells_bytes(rc);
    assert(cells_bytes(vc) == head + tail);
    let b = l2_bytes(v);
    assert(b == le_u64(v.len() as u64) + (head + tail));
    assert(b.subrange(0, 8) =~= le_u64(v.len() as u64));
    assert(l2_bytes(v.drop_first()).skip(8) =~= tail);
    assert(b.skip(8 + head.len() as int) =~= tail);
    assert(b.subrange(8, 8 + head.len() as int) =~= head);
}

impl L2Cache {
    pub fn new() -> (c: L2Cache)
        ensures
            c@ == Seq::new(ITEMS_LIMITS as nat, |i: int| None::<PinfoView>),
    {
        let mut p_array: Vec<Option<Pinfo>> = Vec::new();
        let mut i: usize = 0;
        while i < ITEMS_LIMITS
            invariant
                i <= ITEMS_LIMITS,
                p_array@.len() == i,
                forall|j: int| 0 <= j < i ==> p_array@[j] is None,
            decreases ITEMS_LIMITS - i,
        {
            p_array.push(None);
            i = i + 1;
        }
        let c = L2Cache { p_array };
        assert(c@ =~= Seq::new(ITEMS_LIMITS as nat, |i: int| None::<PinfoView>));
        c
    }

    pub fn get_pinfo(&self, offset: usize) -> (r: Option<&Pinfo>)
        ensures
            match r {
                Some(p) => slot_at(self@, offset as int) == Some(p@),
                None => slot_at(self@, offset as int) is None,
            },
    {
        if offset < self.p_array.len() {
            match &self.p_array[offset] {
                Some(p) => Some(p),
                None => None,
            }
        } else {
            None
        }
    }

    /// Puts `pinfo` in slot `offset` and returns what the slot held; a slot
    /// number at or past the limit is refused with an error text.
    pub fn insert_pinfo(&mut self, offset: usize, pinfo: Pinfo) -> (r: Result<Option<Pinfo>, String>)
        requires
            offset < ITEMS_LIMITS ==> offset < old(self)@.len(),
        ensures
            offset < ITEMS_LIMITS ==> {
                &&& final(self)@ == old(self)@.update(offset as int, Some(pinfo@))
                &&& r matches Ok(o) && opt_view(o) == old(self)@[offset as int]
            },
            offset >= ITEMS_LIMITS ==> {
                &&& final(self)@ == old(self)@
                &&& r matches Err(e) && e@ == limit_error_text(offset as nat)
            },
    {
        if offset >= ITEMS_LIMITS {
            proof { reveal_strlit("offset: "); reveal_strlit(" >= limit: "); }
            let mut err = String::from_str("offset: ");
            push_decimal(&mut err, offset);
            err.append(" >= limit: ");
            push_decimal(&mut err, ITEMS_LIMITS);
            assert(err@ =~= limit_error_text(offset as nat));
            return Err(err);
        }
        let prev = self.p_array[offset];
        self.p_array.set(offset, Some(pinfo));
        assert(self@ =~= old(self)@.update(offset as int, Some(pinfo@)));
        Ok(prev)
    }

    /// Marks slot `offset` as deleted (address (0, 0), no attribute) and
    /// returns what it held; a slot number at or past the limit changes nothing.
    pub fn del_pinfo(&mut self, offset: usize) -> (r: Option<Pinfo>)
        requires
            offset < ITEMS_LIMITS ==> offset < old(self)@.len(),
        ensures
            offset < ITEMS_LIMITS ==> {
                &&& final(self)@ == old(self)@.update(offset as int, Some(erased_slot()))
                &&& opt_view(r) == old(self)@[offset as int]
            },
            offset >= ITEMS_LIMITS ==> final(self)@ == old(self)@ && r is None,
    {
        if offset >= ITEMS_LIMITS {
            return None;
        }
        let paddr = Paddr::new(0, 0);
        let pinfo = Pinfo::new(paddr);
        let prev = self.p_array[offset];
        self.p_array.set(offset, Some(pinfo));
        assert(self@ =~= old(self)@.update(offset as int, Some(erased_slot())));
        prev
    }

    /// The cache read back from the bincode bytes of its vector of slots;
    /// bytes after the encoding are ignored.
    pub fn deserialize(buf: &Vec<u8>) -> (r: Result<L2Cache, String>)
        ensures
            r matches Ok(c) ==> starts_with(buf@, l2_bytes(c@)),
            r is Ok <==> exists|v: Seq<Option<PinfoView>>| starts_with(buf@, l2_bytes(v)),
            forall|v: Seq<Option<PinfoView>>|
                starts_with(buf@, l2_bytes(v)) ==> (r matches Ok(c) && c@ == v),
            r matches Err(e) ==> starts_with_text(e@, "deserialize err:"@),
    {
        // The buffer's length fits in a machine word, which bounds every encoding in it.
        let _buf_len = buf.len();
        let res = bincode_deserialize_cells(buf.as_slice());
        match res {
            Ok(cells) => {
                let n = cells.len();
                let mut p_array: Vec<Option<Pinfo>> = Vec::new();
                let mut i: usize = 0;
                while i < n
                    invariant
                        n == cells@.len(),
                        i <= n,
                        p_array@.len() == i,
                        forall|j: int| 0 <= j < i ==> opt_view(#[trigger] p_array@[j]) == cell_view(cells@[j]),
                    decreases n - i,
                {
                    let slot = match cells[i] {
                        Some(((cid, off), at)) => {
                            let attr = match at {
                                Some((t, seq)) => Some(Pattr { keyType: t, seqnum: seq }),
                                None => None,
                            };
                            Some(Pinfo { paddr: Addr::new(cid, off), attr })
                        },
                        None => None,
                    };
                    p_array.push(slot);
                    i = i + 1;
                }
                let c = L2Cache { p_array };
                proof {
                    let cv = cells@.map_values(|x: CellTuple| cell_view(x));
                    assert(c@ =~= cv);
                    assert(cv.map_values(|o: Option<PinfoView>| cell_of(o)) =~= cells@) by {
                        assert forall|j: int| 0 <= j < cells@.len() implies cell_of(cv[j]) == cells@[j] by {
                            lemma_cell_round_trip(None, cells@[j]);
                        }
                    }
                    assert(l2_bytes(c@) == cell_vec_bytes(cells@));
                    assert(starts_with(buf@, l2_bytes(c@)));
                    assert forall|v: Seq<Option<PinfoView>>| starts_with(buf@, l2_bytes(v)) implies c@ == v by {
                        let vc = v.map_values(|o: Option<PinfoView>| cell_of(o));
                        lemma_cell_vec_prefix_unique(buf@, vc, cells@);
                        assert(c@ =~= v) by {
                            assert forall|j: int| 0 <= j < v.len() implies c@[j] == v[j] by {
                                lemma_cell_round_trip(v[j], None);
                                assert(vc[j] == cells@[j]);
                            }
                        }
                    }
                }
                Ok(c)
            },
            Err(e) => {
                proof {
                    assert forall|v: Seq<Option<PinfoView>>| !starts_with(buf@, l2_bytes(v)) by {
                        let vc = v.map_values(|o: Option<PinfoView>| cell_of(o));
                        if starts_with(buf@, l2_bytes(v)) {
                            assert(starts_with(buf@, cell_vec_bytes(vc)));
                        }
                    }
                    reveal_strlit("deserialize err:");
                }
                let mut msg = String::from_str("deserialize err:");
                let text = bincode_error_text(&e);
                msg.append(text.as_str());
                assert(msg@.subrange(0, "deserialize err:"@.len() as int) =~= "deserialize err:"@);
                Err(msg)
            },
        }
    }

    /// The bincode bytes of the vector of slots.
    pub fn serialize(&self) -> (r: Result<Vec<u8>, String>)
        ensures
            r matches Ok(b) && b@ == l2_bytes(self@),
    {
        let n = self.p_array.len();
        let mut cells: Vec<CellTuple> = Vec::new();
        let mut i: usize = 0;
        while i < n
            invariant
                n == self.p_array@.len(),
                i <= n,
                cells@.len() == i,
                forall|j: int| 0 <= j < i ==> #[trigger] cells@[j] == cell_of(self@[j]),
            decreases n - i,
        {
            let c: CellTuple = match &self.p_array[i] {
                Some(p) => {
                    let at = match p.attr {
                        Some(a) => Some((a.keyType, a.seqnum)),
                        None => None,
                    };
                    Some(((p.paddr.get_cid(), p.paddr.get_offset()), at))
                },
                None => None,
            };
            cells.push(c);
            i = i + 1;
        }
        assert(cells@ =~= self@.map_values(|o: Option<PinfoView>| cell_of(o)));
        match bincode_serialize_cells(&cells) {
            Ok(b) => Ok(b),
            Err(e) => {
                let mut msg = String::from_str("serialize err: ");
                let text = bincode_error_text(&e);
                msg.append(text.as_str());
                Err(msg)
            },
        }
    }
}

/// An index block: its second-level cache in RAM, or the place on disk where it lies.
#[derive(Debug)]
pub enum IdxBlock {
    InRam(L2Cache),
    OnDisk(Paddr),
}

/// What an index block holds: the slots of its cache, or its disk address.
pub enum BlockView {
    InRam(Seq<Option<PinfoView>>),
    OnDisk((u32, u32)),
}

impl View for IdxBlock {
    type V = BlockView;

    open spec fn view(&self) -> BlockView {
        match self {
            IdxBlock::InRam(c) => BlockView::InRam(c@),
            IdxBlock::OnDisk(a) => BlockView::OnDisk(a@),
        }
    }
}

/// The first-level key of an address (container id, offset in pages): the
/// container id in the high 32 bits and the offset rounded down to a whole
/// index block (512 pages) in the low 32 bits.
pub open spec fn slot_of(a: (u32, u32)) -> u64 {
    ((a.0 as u64) << 32u64) | (((a.1 >> 9u32) << 9u32) as u64)
}

/// Two addresses share a first-level key exactly when they have the same
/// container and lie in the same index block.
pub proof fn lemma_slot_of(a: (u32, u32), b: (u32, u32))
    ensures
        slot_of(a) == slot_of(b) <==> (a.0 == b.0 && a.1 / 512 == b.1 / 512),
{
    let (c1, o1, c2, o2) = (a.0, a.1, b.0, b.1);
    assert((((c1 as u64) << 32u64) | (((o1 >> 9u32) << 9u32) as u64)) == (((c2 as u64) << 32u64)
        | (((o2 >> 9u32) << 9u32) as u64)) <==> (c1 == c2 && o1 >> 9u32 == o2 >> 9u32))
        by (bit_vector);
    assert(o1 >> 9u32 == o1 / 512) by (bit_vector);
    assert(o2 >> 9u32 == o2 / 512) by (bit_vector);
}

/// The hash map of the first level, keyed by `slot_of`, hashed with xxHash.
#[verifier::external_body]
#[derive(Debug)]
pub struct IdxMap {
    m: HashMap<u64, IdxBlock, BuildHasherDefault<XxHash>>,
}

/// The entries of the first-level hash map.
pub uninterp spec fn idx_map_contents(m: IdxMap) -> Map<u64, IdxBlock>;

impl IdxMap {
    /// `Default::default` for the hash map: it starts empty.
    #[verifier::external_body]
    fn new() -> (m: IdxMap)
        ensures
            idx_map_contents(m) =~= Map::empty(),
    {
        IdxMap { m: Default::default() }
    }

    /// `HashMap::insert`: sets the entry of `k` and returns the entry it replaced.
    #[verifier::external_body]
    fn insert(&mut self, k: u64, v: IdxBlock) -> (r: Option<IdxBlock>)
        ensures
            idx_map_contents(*final(self)) == idx_map_contents(*old(self)).insert(k, v),
            match r {
                Some(o) => idx_map_contents(*old(self)).contains_key(k) && o == idx_map_contents(
                    *old(self),
                )[k],
                None => !idx_map_contents(*old(self)).contains_key(k),
            },
    {
        self.m.insert(k, v)
    }

    /// `HashMap::get`: the entry of `k`, if any.
    #[verifier::external_body]
    fn get(&self, k: u64) -> (r: Option<&IdxBlock>)
        ensures
            match r {
                Some(o) => idx_map_contents(*self).contains_key(k) && *o == idx_map_contents(
                    *self,
                )[k],
                None => !idx_map_contents(*self).contains_key(k),
            },
    {
        self.m.get(&k)
    }

    /// `HashMap::get_mut`: a mutable borrow of the entry of `k`, if any; what
    /// is written through it becomes the entry of `k`.
    #[verifier::external_body]
    fn get_mut(&mut self, k: u64) -> (r: Option<&mut IdxBlock>)
        ensures
            match r {
                Some(o) => {
                    &&& idx_map_contents(*old(self)).contains_key(k)
                    &&& *o == idx_map_contents(*old(self))[k]
                    &&& idx_map_contents(*final(self)) == idx_map_contents(*old(self)).insert(
                        k,
                        *final(o),
                    )
                },
                None => {
                    &&& !idx_map_contents(*old(self)).contains_key(k)
                    &&& idx_map_contents(*final(self)) == idx_map_contents(*old(self))
                },
            },
    {
        self.m.get_mut(&k)
    }
}

/// First-level cache: one index block per (container, 2 MiB block).
#[derive(Debug)]
pub struct L1Cache {
    index: IdxMap,
}

impl View for L1Cache {
    type V = Map<u64, BlockView>;

    closed spec fn view(&self) -> Map<u64, BlockView> {
        idx_map_contents(self.index).map_values(|b: IdxBlock| b@)
    }
}

impl L1Cache {
    pub fn new() -> (c: L1Cache)
        ensures
            c@ == Map::<u64, BlockView>::empty(),
    {
        let c = L1Cache { index: IdxMap::new() };
        assert(c@ =~= Map::<u64, BlockView>::empty());
        c
    }

    /// The address at the start of the index block of `k`.
    fn get_aligned_key(k: &Laddr) -> (a: Laddr)
        ensures
            a@ == (k@.0, (k@.1 >> 9u32) << 9u32),
    {
        let off = k.get_offset() >> IBLK2PAGE_SHIFT << IBLK2PAGE_SHIFT;
        Laddr::new(k.get_cid(), off)
    }

    fn slot_key(k: &Laddr) -> (s: u64)
        ensures
            s == slot_of(k@),
    {
        let a = L1Cache::get_aligned_key(k);
        ((a.get_cid() as u64) << 32u64) | (a.get_offset() as u64)
    }

    /// Sets the index block of `k`'s block and returns the one it replaced.
    pub fn insert(&mut self, k: Laddr, v: IdxBlock) -> (r: Option<IdxBlock>)
        ensures
            final(self)@ == old(self)@.insert(slot_of(k@), v@),
            match r {
                Some(o) => old(self)@.contains_key(slot_of(k@)) && o@ == old(self)@[slot_of(k@)],
                None => !old(self)@.contains_key(slot_of(k@)),
            },
    {
        let rk = L1Cache::slot_key(&k);
        let ghost vv = v@;
        let ov = self.index.insert(rk, v);
        assert(self@ =~= old(self)@.insert(slot_of(k@), vv));
        ov
    }

    /// The index block of `k`'s block, if any.
    pub fn get(&self, k: &Laddr) -> (r: Option<&IdxBlock>)
        ensures
            match r {
                Some(o) => self@.contains_key(slot_of(k@)) && o@ == self@[slot_of(k@)],
                None => !self@.contains_key(slot_of(k@)),
            },
    {
        let rk = L1Cache::slot_key(k);
        self.index.get(rk)
    }

    /// A mutable borrow of the index block of `k`'s block, if any.
    pub fn get_mut(&mut self, k: &Laddr) -> (r: Option<&mut IdxBlock>)
        ensures
            match r {
                Some(o) => {
                    &&& old(self)@.contains_key(slot_of(k@))
                    &&& o@ == old(self)@[slot_of(k@)]
                    &&& final(self)@ == old(self)@.insert(slot_of(k@), final(o)@)
                },
                None => {
                    &&& !old(self)@.contains_key(slot_of(k@))
                    &&& final(self)@ == old(self)@
                },
            },
    {
        let rk = L1Cache::slot_key(k);
        self.index.get_mut(rk)
    }
}

} // verus!
