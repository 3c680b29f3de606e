//! Conversions between addresses, the store's value words and key bytes.

use vstd::prelude::*;

use crate::addr::{lemma_addr_view_injective, Addr, Laddr, Paddr, PAGE_SHIFT};
use vstd::std_specs::convert::FromSpecImpl;
use crate::codec::{
    bytevec_decode_u64, bytevec_encode_u64, le_u64, le_value_u64, lemma_le_u64_injective,
    lemma_le_u64_of_le_value,
};
use crate::index::Pattr;

verus! {

/// Length of the header that opens an internal key.
pub const KEY_HEADER_LEN: usize = 8;

/// The value word of the store: the size of the stored page, and the block
/// (container) and offset where it lies.
#[allow(non_camel_case_types)]
#[derive(Clone, Copy, Debug, PartialEq, Eq, Structural)]
pub struct internal_value {
    pub size: u64,
    pub block: u64,
    pub offset: u64,
}

/// The value word that points at address `a`: one page long.
pub open spec fn value_of(a: (u32, u32)) -> internal_value {
    internal_value { size: 4096, block: a.0 as u64, offset: a.1 as u64 }
}

/// The address that value word `v` points at.
pub open spec fn value_paddr(v: internal_value) -> (u32, u32) {
    (v.block as u32, v.offset as u32)
}

/// The 64-bit word of an address: container id high, offset low.
pub open spec fn addr_word(a: (u32, u32)) -> u64 {
    ((a.0 as u64) << 32u64) | (a.1 as u64)
}

/// The address of a 64-bit word: container id high, offset low.
pub open spec fn word_addr(w: u64) -> (u32, u32) {
    ((w >> 32u64) as u32, w as u32)
}

/// The word of an address is the container id times 2^32 plus the offset:
/// the container id is the high half, the offset the low half.
pub proof fn lemma_addr_word_arith(a: (u32, u32))
    ensures
        addr_word(a) == a.0 as int * 0x1_0000_0000 + a.1 as int,
{
    let (c, o) = a;
    assert(((c as u64) << 32u64) | (o as u64) == (c as u64) * 0x1_0000_0000u64 + (o as u64))
        by (bit_vector);
}

/// The address of a word is (its high 32 bits, its low 32 bits): the word
/// divided by 2^32, and the remainder.
pub proof fn lemma_word_addr_arith(w: u64)
    ensures
        word_addr(w).0 == w / 0x1_0000_0000,
        word_addr(w).1 == w % 0x1_0000_0000,
{
    assert((w >> 32u64) as u32 == w / 0x1_0000_0000u64) by (bit_vector);
    assert(w as u32 == w % 0x1_0000_0000u64) by (bit_vector);
}

/// The value word of an address is one page long and has the container id
/// as its block and the offset as its offset; the address of a value word
/// is (its block, its offset), each cut to 32 bits.
pub proof fn lemma_value_word_fields(a: (u32, u32), v: internal_value)
    ensures
        value_of(a).size == 4096,
        value_of(a).block == a.0 as u64,
        value_of(a).offset == a.1 as u64,
        value_paddr(v).0 == v.block as u32,
        value_paddr(v).1 == v.offset as u32,
        v.block < 0x1_0000_0000 ==> value_paddr(v).0 == v.block,
        v.offset < 0x1_0000_0000 ==> value_paddr(v).1 == v.offset,
{
    let (b, o) = (v.block, v.offset);
    assert(b < 0x1_0000_0000u64 ==> b as u32 == b) by (bit_vector);
    assert(o < 0x1_0000_0000u64 ==> o as u32 == o) by (bit_vector);
}

/// Splitting the word of an address gives the address back.
pub proof fn lemma_word_addr_of_addr_word(a: (u32, u32))
    ensures
        word_addr(addr_word(a)) == a,
{
    let (c, o) = a;
    assert((((c as u64) << 32u64) | (o as u64)) >> 32u64 == c as u64) by (bit_vector);
    assert(((((c as u64) << 32u64) | (o as u64)) as u32) == o) by (bit_vector);
}

impl internal_value {
    /// The value word pointing at `paddr`, one page long.
    pub fn from_paddr(paddr: &Paddr) -> (vc: internal_value)
        ensures
            vc == value_of(paddr@),
            vc.size == 4096,
            vc.block == paddr@.0 as u64,
            vc.offset == paddr@.1 as u64,
    {
        assert(1u64 << 12u32 == 4096) by (bit_vector);
        internal_value {
            size: 1u64 << PAGE_SHIFT,
            block: paddr.get_cid() as u64,
            offset: paddr.get_offset() as u64,
        }
    }

    /// The address this value word points at.
    pub fn into_paddr(&self) -> (a: Paddr)
        ensures
            a@ == value_paddr(*self),
            a@.0 == self.block as u32,
            a@.1 == self.offset as u32,
    {
        let cid = self.block as u32;
        let offset = self.offset as u32;
        Paddr::new(cid, offset)
    }
}

impl Paddr {
    pub fn from_cv(vc: &internal_value) -> (a: Paddr)
        ensures
            a@ == value_paddr(*vc),
    {
        vc.into_paddr()
    }

    pub fn into_cv(&self) -> (vc: internal_value)
        ensures
            vc == value_of(self@),
    {
        internal_value::from_paddr(self)
    }
}

impl<'a> From<&'a internal_value> for Paddr {
    fn from(vc: &'a internal_value) -> (a: Paddr)
        ensures
            a@ == value_paddr(*vc),
    {
        let a = Paddr::from_cv(vc);
        proof {
            let c = choose|b: Paddr| b@ == value_paddr(*vc);
            lemma_addr_view_injective(a, c);
        }
        a
    }
}

impl<'a> FromSpecImpl<&'a internal_value> for Paddr {
    open spec fn obeys_from_spec() -> bool {
        true
    }

    /// The address whose (container, offset) the value word points at.
    open spec fn from_spec(vc: &'a internal_value) -> Paddr {
        choose|a: Paddr| a@ == value_paddr(*vc)
    }
}

impl<'a> From<&'a Paddr> for internal_value {
    fn from(paddr: &'a Paddr) -> (vc: internal_value)
        ensures
            vc == value_of(paddr@),
    {
        internal_value::from_paddr(paddr)
    }
}

impl<'a> FromSpecImpl<&'a Paddr> for internal_value {
    open spec fn obeys_from_spec() -> bool {
        true
    }

    open spec fn from_spec(paddr: &'a Paddr) -> internal_value {
        value_of(paddr@)
    }
}

/// An address survives the round trip through its value word.
pub proof fn lemma_cv_round_trip(a: (u32, u32))
    ensures
        value_paddr(value_of(a)) == a,
{
}

impl Laddr {
    /// The 8 key bytes of the address word, as bytevec encodes a `u64`. The
    /// word is formed as the container id shifted high, combined with `&`
    /// (not `|`) with the offset, so it is always zero.
    pub fn into_bytes(self) -> (v: Vec<u8>)
        ensures
            v@ == le_u64(((self@.0 as u64) << 32u64) & (self@.1 as u64)),
            v@ == le_u64(0),
    {
        let c = self.get_cid();
        let o = self.get_offset();
        let la: u64 = ((c as u64) << 32u64) & (o as u64);
        assert((((c as u64) << 32u64) & (o as u64)) == 0) by (bit_vector);
        match bytevec_encode_u64(la) {
            Ok(v) => v,
            Err(_) => Vec::new(),
        }
    }

    /// The address whose word has the 8 little-endian bytes `v`.
    pub fn from_bytes(v: &[u8]) -> (a: Laddr)
        requires
            v@.len() == 8,
        ensures
            a@ == word_addr(le_value_u64(v@)),
            le_u64(addr_word(a@)) == v@,
            a@.0 == le_value_u64(v@) / 0x1_0000_0000,
            a@.1 == le_value_u64(v@) % 0x1_0000_0000,
    {
        proof {
            lemma_word_addr_arith(le_value_u64(v@));
        }
        let addr: u64 = match bytevec_decode_u64(v) {
            Ok(d) => d,
            Err(_) => 0,
        };
        proof {
            lemma_le_u64_of_le_value(v@);
            lemma_le_u64_injective(addr, le_value_u64(v@));
        }
        let cid = (addr >> 32u64) as u32;
        let off = (addr << 32u64 >> 32u64) as u32;
        assert((addr << 32u64 >> 32u64) as u32 == addr as u32) by (bit_vector);
        assert((((((addr >> 32u64) as u32) as u64) << 32u64) | ((addr as u32) as u64)) == addr)
            by (bit_vector);
        Laddr::new(cid, off)
    }
}

impl Pattr {
    /// The attribute read from a key header: its last byte is the key type;
    /// the sequence number starts at 0.
    pub fn from_header(v: &[u8]) -> (p: Pattr)
        requires
            v@.len() == KEY_HEADER_LEN,
        ensures
            p == (Pattr { keyType: v@[KEY_HEADER_LEN - 1], seqnum: 0 }),
    {
        let ktype = v[KEY_HEADER_LEN - 1];
        Pattr { keyType: ktype, seqnum: 0 }
    }
}

} // verus!
