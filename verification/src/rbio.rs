//! Keys under which the store keeps pages: one key per 4 KiB page.

use vstd::prelude::*;

use crate::codec::{bincode_serialize_u64, le_u64, le_value_u64, lemma_le_value_of_le_u64};
use crate::convert::{addr_word, lemma_addr_word_arith, lemma_word_addr_of_addr_word};
use crate::indexapi4c::{key_addr, KEY_LEN};

verus! {

/// Length of a page key.
pub const PAGE_KEY_LEN: usize = 8;

/// Size of one page of a request.
pub const ONE_PAGE: usize = 4096;

/// The key of page `i` of a request that starts at page `off4k` of
/// container `cid`: the bincode bytes of the word with `cid` high and the
/// page number low.
pub fn page_key(cid: u32, off4k: u32, i: u32) -> (k: Vec<u8>)
    requires
        off4k + i <= u32::MAX,
    ensures
        k@ == le_u64(addr_word((cid, (off4k + i) as u32))),
        k@ == le_u64((cid as int * 0x1_0000_0000 + off4k + i) as u64),
        k@.len() == PAGE_KEY_LEN,
{
    proof {
        lemma_addr_word_arith((cid, (off4k + i) as u32));
    }
    let page: u32 = off4k + i;
    let rkey: u64 = ((cid as u64) << 32u64) | (page as u64);
    match bincode_serialize_u64(&rkey) {
        Ok(k) => k,
        Err(_) => Vec::new(),
    }
}

/// An internal key of the index whose last 8 bytes are the key of a page
/// names, for the index, exactly that page: the store's keys and the
/// index's addresses agree.
pub proof fn lemma_page_key_names_page(key: Seq<u8>, cid: u32, page: u32)
    requires
        key.len() == KEY_LEN,
        key.subrange(9, 17) == le_u64(addr_word((cid, page))),
    ensures
        key_addr(key) == (cid, page),
{
    lemma_le_value_of_le_u64(addr_word((cid, page)));
    lemma_word_addr_of_addr_word((cid, page));
}

} // verus!
